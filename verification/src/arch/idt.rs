//! Interrupt descriptor table entries.

use vstd::prelude::*;

verus! {

/// Vectors in the table.
pub const IDT_ENTRIES: usize = 256;

/// CPU privilege rings.
#[derive(Clone, Copy, PartialEq, Eq, Structural, Debug)]
pub enum PrivilegeLevel {
    Ring0,
    Ring1,
    Ring2,
    Ring3,
}

impl PrivilegeLevel {
    /// The ring number.
    pub open spec fn spec_bits(self) -> u16 {
        match self {
            PrivilegeLevel::Ring0 => 0,
            PrivilegeLevel::Ring1 => 1,
            PrivilegeLevel::Ring2 => 2,
            PrivilegeLevel::Ring3 => 3,
        }
    }

    /// The ring number.
    pub fn bits(self) -> (r: u16)
        ensures
            r == self.spec_bits(),
    {
        match self {
            PrivilegeLevel::Ring0 => 0,
            PrivilegeLevel::Ring1 => 1,
            PrivilegeLevel::Ring2 => 2,
            PrivilegeLevel::Ring3 => 3,
        }
    }
}

/// Gate kinds: an interrupt gate clears IF on entry, a trap gate does not.
#[derive(Clone, Copy, PartialEq, Eq, Structural, Debug)]
pub enum GateType {
    Interrupt,
    Trap,
}

impl GateType {
    /// The 4-bit type code.
    pub open spec fn spec_bits(self) -> u16 {
        match self {
            GateType::Interrupt => 0xE,
            GateType::Trap => 0xF,
        }
    }

    /// The 4-bit type code.
    pub fn bits(self) -> (r: u16)
        ensures
            r == self.spec_bits(),
    {
        match self {
            GateType::Interrupt => 0xE,
            GateType::Trap => 0xF,
        }
    }
}

/// The present bit of an options word.
pub open spec fn opt_present(v: u16) -> bool {
    v & 0x8000 != 0
}

/// The descriptor privilege level of an options word.
pub open spec fn opt_dpl(v: u16) -> u16 {
    (v >> 13u16) & 3
}

/// Gate type field of an options word.
pub open spec fn opt_gate(v: u16) -> u16 {
    (v >> 8u16) & 0xF
}

/// The interrupt stack table index of an options word.
pub open spec fn opt_ist(v: u16) -> u16 {
    v & 7
}

pub proof fn lemma_option_fields(v: u16, d: u16, g: u16, i: u16)
    by (bit_vector)
    requires
        d < 4,
        g < 16,
    ensures
        (v | 0x8000) & 0x8000 != 0,
        (v | 0x8000) & 0x7FFF == v & 0x7FFF,
        (v & 0x7FFF) & 0x8000 == 0,
        (v & 0x7FFF) & 0x7FFF == v & 0x7FFF,
        (((v & 0x9FFF) | (d << 13u16)) >> 13u16) & 3 == d,
        ((v & 0x9FFF) | (d << 13u16)) & 0x9FFF == v & 0x9FFF,
        (((v & 0xF0FF) | (g << 8u16)) >> 8u16) & 0xF == g,
        ((v & 0xF0FF) | (g << 8u16)) & 0xF0FF == v & 0xF0FF,
        ((v & 0xFFF8) | (i & 7)) & 7 == i & 7,
        ((v & 0xFFF8) | (i & 7)) & 0xFFF8 == v & 0xFFF8,
        0x0E00u16 & 0x8000 == 0,
        (0x0E00u16 >> 8u16) & 0xF == 0xE,
        (0x0E00u16 >> 13u16) & 3 == 0,
        0x0E00u16 & 7 == 0,
{
}

/// The options word of a gate descriptor.
#[derive(Clone, Copy, PartialEq, Eq, Structural, Debug)]
pub struct EntryOptions(u16);

impl EntryOptions {
    /// The raw word.
    pub closed spec fn value(self) -> u16 {
        self.0
    }

    /// Not present, ring 0, interrupt gate, no IST stack.
    pub fn new() -> (r: Self)
        ensures
            r.value() == 0x0E00,
            !opt_present(r.value()),
            opt_dpl(r.value()) == 0,
            opt_gate(r.value()) == 0xE,
            opt_ist(r.value()) == 0,
    {
        proof { lemma_option_fields(0, 0, 0, 0); }
        EntryOptions(0x0E00)
    }

    /// Sets or clears the present bit; other bits stay.
    pub fn set_present(self, present: bool) -> (r: Self)
        ensures
            opt_present(r.value()) == present,
            r.value() & 0x7FFF == self.value() & 0x7FFF,
    {
        proof { lemma_option_fields(self.0, 0, 0, 0); }
        if present {
            EntryOptions(self.0 | 0x8000)
        } else {
            EntryOptions(self.0 & 0x7FFF)
        }
    }

    /// Sets the lowest privilege level that may invoke this entry; other bits stay.
    pub fn set_privilege_level(self, dpl: PrivilegeLevel) -> (r: Self)
        ensures
            opt_dpl(r.value()) == dpl.spec_bits(),
            r.value() & 0x9FFF == self.value() & 0x9FFF,
    {
        let d = dpl.bits();
        proof { lemma_option_fields(self.0, d, 0, 0); }
        EntryOptions((self.0 & 0x9FFF) | (d << 13u16))
    }

    /// Sets the entry kind (interrupt or trap); other bits stay.
    pub fn set_gate_type(self, gate_type: GateType) -> (r: Self)
        ensures
            opt_gate(r.value()) == gate_type.spec_bits(),
            r.value() & 0xF0FF == self.value() & 0xF0FF,
    {
        let g = gate_type.bits();
        proof { lemma_option_fields(self.0, 0, g, 0); }
        EntryOptions((self.0 & 0xF0FF) | (g << 8u16))
    }

    /// Sets the IST index (low three bits of `ist_index`); other bits stay.
    pub fn set_stack_index(self, ist_index: u8) -> (r: Self)
        ensures
            opt_ist(r.value()) == ist_index as u16 & 7,
            r.value() & 0xFFF8 == self.value() & 0xFFF8,
    {
        proof { lemma_option_fields(self.0, 0, 0, ist_index as u16); }
        EntryOptions((self.0 & 0xFFF8) | (ist_index as u16 & 7))
    }

    /// The raw word.
    pub fn raw(self) -> (r: u16)
        ensures
            r == self.value(),
    {
        self.0
    }
}

pub proof fn lemma_handler_split(h: u64)
    by (bit_vector)
    ensures
        ((h as u16) as u64) | (((h >> 16u64) as u16 as u64) << 16u64) | (((h >> 32u64) as u32 as u64) << 32u64) == h,
        0u64 | (0u64 << 16u64) | (0u64 << 32u64) == 0,
{
}

/// One 16-byte gate descriptor.
#[derive(Clone, Copy, PartialEq, Eq, Structural, Debug)]
pub struct IdtEntry {
    offset_low: u16,
    selector: u16,
    options: EntryOptions,
    offset_mid: u16,
    offset_high: u32,
    reserved: u32,
}

impl IdtEntry {
    /// The handler address the entry holds.
    pub closed spec fn spec_handler(self) -> u64 {
        (self.offset_low as u64) | ((self.offset_mid as u64) << 16u64) | ((self.offset_high as u64) << 32u64)
    }

    /// The code segment selector.
    pub closed spec fn spec_selector(self) -> u16 {
        self.selector
    }

    /// The options word.
    pub closed spec fn spec_options(self) -> EntryOptions {
        self.options
    }

    /// A descriptor with no handler, selector 0 and default (non-present)
    /// options.
    pub fn missing() -> (r: Self)
        ensures
            r.spec_handler() == 0,
            r.spec_selector() == 0,
            r.spec_options().value() == 0x0E00,
    {
        proof { lemma_handler_split(0); }
        IdtEntry {
            offset_low: 0,
            selector: 0,
            options: EntryOptions::new(),
            offset_mid: 0,
            offset_high: 0,
            reserved: 0,
        }
    }

    /// A descriptor for `handler` in code segment `selector`.
    pub fn new(handler: usize, selector: u16, options: EntryOptions) -> (r: Self)
        ensures
            r.spec_handler() == handler,
            r.spec_selector() == selector,
            r.spec_options() == options,
    {
        let h = handler as u64;
        proof { lemma_handler_split(h); }
        IdtEntry {
            offset_low: h as u16,
            selector,
            options,
            offset_mid: (h >> 16u64) as u16,
            offset_high: (h >> 32u64) as u32,
            reserved: 0,
        }
    }

    /// Points the descriptor at `handler`; selector and options stay.
    pub fn set_handler(&mut self, handler: usize)
        ensures
            final(self).spec_handler() == handler,
            final(self).spec_selector() == old(self).spec_selector(),
            final(self).spec_options() == old(self).spec_options(),
    {
        let h = handler as u64;
        proof { lemma_handler_split(h); }
        self.offset_low = h as u16;
        self.offset_mid = (h >> 16u64) as u16;
        self.offset_high = (h >> 32u64) as u32;
    }

    /// Replaces the options; handler and selector stay.
    pub fn set_options(&mut self, options: EntryOptions)
        ensures
            final(self).spec_options() == options,
            final(self).spec_handler() == old(self).spec_handler(),
            final(self).spec_selector() == old(self).spec_selector(),
    {
        self.options = options;
    }

    /// The handler address.
    pub fn handler(&self) -> (r: u64)
        ensures
            r == self.spec_handler(),
    {
        (self.offset_low as u64) | ((self.offset_mid as u64) << 16u64) | ((self.offset_high as u64) << 32u64)
    }
}

/// The table: one descriptor per vector.
pub struct Idt {
    entries: [IdtEntry; 256],
}

impl Idt {
    /// The descriptors by vector.
    pub closed spec fn spec_entries(&self) -> Seq<IdtEntry> {
        self.entries@
    }

    /// A table of missing descriptors.
    pub fn new() -> (r: Self)
        ensures
            r.spec_entries().len() == IDT_ENTRIES,
            forall|i: int| 0 <= i < IDT_ENTRIES ==> #[trigger] r.spec_entries()[i] == IdtEntry::missing_spec(),
            forall|i: int| 0 <= i < IDT_ENTRIES ==> {
                &&& (#[trigger] r.spec_entries()[i]).spec_handler() == 0
                &&& r.spec_entries()[i].spec_selector() == 0
                &&& r.spec_entries()[i].spec_options().value() == 0x0E00
            },
    {
        proof { IdtEntry::lemma_missing_fields(); }
        Idt {
            entries: [IdtEntry {
                offset_low: 0,
                selector: 0,
                options: EntryOptions(0x0E00),
                offset_mid: 0,
                offset_high: 0,
                reserved: 0,
            }; 256],
        }
    }

    /// Installs `handler` for `vector`.
    pub fn set_handler(&mut self, vector: u8, handler: usize, selector: u16, options: EntryOptions)
        ensures
            final(self).spec_entries().len() == IDT_ENTRIES,
            final(self).spec_entries()[vector as int].spec_handler() == handler,
            final(self).spec_entries()[vector as int].spec_selector() == selector,
            final(self).spec_entries()[vector as int].spec_options() == options,
            forall|i: int| 0 <= i < IDT_ENTRIES && i != vector ==>
                #[trigger] final(self).spec_entries()[i] == old(self).spec_entries()[i],
    {
        self.entries[vector as usize] = IdtEntry::new(handler, selector, options);
    }

    /// The descriptor of `vector`.
    pub fn entry(&self, vector: u8) -> (r: &IdtEntry)
        ensures
            *r == self.spec_entries()[vector as int],
    {
        &self.entries[vector as usize]
    }

    /// Replaces the descriptor of `vector`.
    pub fn entry_mut(&mut self, vector: u8, e: IdtEntry)
        ensures
            final(self).spec_entries() == old(self).spec_entries().update(vector as int, e),
    {
        self.entries[vector as usize] = e;
    }
}

impl IdtEntry {
    /// The missing descriptor, as a value.
    pub closed spec fn missing_spec() -> IdtEntry {
        IdtEntry {
            offset_low: 0,
            selector: 0,
            options: EntryOptions(0x0E00),
            offset_mid: 0,
            offset_high: 0,
            reserved: 0,
        }
    }

    /// The missing descriptor has no handler, selector 0 and the default
    /// (non-present interrupt gate) options.
    pub proof fn lemma_missing_fields()
        ensures
            Self::missing_spec().spec_handler() == 0,
            Self::missing_spec().spec_selector() == 0,
            Self::missing_spec().spec_options().value() == 0x0E00,
    {
        assert((0u16 as u64) | ((0u16 as u64) << 16u64) | ((0u32 as u64) << 32u64) == 0) by (bit_vector);
    }
}

} // verus!

//! ACPI: finding the MADT and reading the processors, I/O APICs and
//! interrupt source overrides it lists.
//!
//! Tables are read out of physical memory, given as a byte slice indexed
//! by physical address (the kernel's direct map of RAM).

use vstd::prelude::*;

verus! {

/// An I/O APIC.
#[derive(Clone, Copy, PartialEq, Eq, Structural, Debug)]
pub struct IoApicInfo {
    pub id: u8,
    pub address: u64,
    pub gsi_base: u32,
}

/// An ISA interrupt routed to another global system interrupt.
#[derive(Clone, Copy, PartialEq, Eq, Structural, Debug)]
pub struct IsoOverride {
    pub irq_source: u8,
    pub gsi: u32,
    pub polarity: u8,
    pub trigger: u8,
}

/// A processor's local APIC.
#[derive(Clone, Copy, PartialEq, Eq, Structural, Debug)]
pub struct CpuInfo {
    pub acpi_id: u8,
    pub apic_id: u8,
    pub enabled: bool,
}

/// Most processors recorded.
pub const MAX_CPUS: usize = 16;
/// Most I/O APICs recorded.
pub const MAX_IOAPICS: usize = 4;
/// Most overrides recorded.
pub const MAX_OVERRIDES: usize = 16;
/// Size of the MADT's fixed part (header, local APIC address, flags).
pub const MADT_ENTRIES_OFF: usize = 44;

/// What the MADT describes.
pub struct MadtInfo {
    pub lapic_addr: u64,
    pub cpus: [CpuInfo; 16],
    pub cpu_count: usize,
    pub ioapics: [IoApicInfo; 4],
    pub ioapic_count: usize,
    pub overrides: [IsoOverride; 16],
    pub override_count: usize,
}

/// The recorded entries of a `MadtInfo`, as sequences.
pub struct MadtView {
    pub lapic_addr: u64,
    pub cpus: Seq<CpuInfo>,
    pub ioapics: Seq<IoApicInfo>,
    pub overrides: Seq<IsoOverride>,
}

impl MadtInfo {
    /// The recorded entries.
    pub open spec fn view(&self) -> MadtView {
        MadtView {
            lapic_addr: self.lapic_addr,
            cpus: self.cpus@.subrange(0, self.cpu_count as int),
            ioapics: self.ioapics@.subrange(0, self.ioapic_count as int),
            overrides: self.overrides@.subrange(0, self.override_count as int),
        }
    }

    /// Counts within the arrays.
    pub open spec fn wf(&self) -> bool {
        self.cpu_count <= MAX_CPUS && self.ioapic_count <= MAX_IOAPICS && self.override_count <= MAX_OVERRIDES
    }

    /// Nothing recorded.
    pub fn new() -> (r: Self)
        ensures
            r.wf(),
            r.view().lapic_addr == 0,
            r.view().cpus.len() == 0,
            r.view().ioapics.len() == 0,
            r.view().overrides.len() == 0,
    {
        MadtInfo {
            lapic_addr: 0,
            cpus: [CpuInfo { acpi_id: 0, apic_id: 0, enabled: false }; 16],
            cpu_count: 0,
            ioapics: [IoApicInfo { id: 0, address: 0, gsi_base: 0 }; 4],
            ioapic_count: 0,
            overrides: [IsoOverride { irq_source: 0, gsi: 0, polarity: 0, trigger: 0 }; 16],
            override_count: 0,
        }
    }
}

/// The global system interrupt of ISA `irq`: that of the first override
/// of `irq` from position `k` on, or `irq` itself when none.
pub open spec fn irq_gsi_from(overrides: Seq<IsoOverride>, irq: u8, k: int) -> u32
    decreases overrides.len() - k,
{
    if k < 0 || k >= overrides.len() {
        irq as u32
    } else if overrides[k].irq_source == irq {
        overrides[k].gsi
    } else {
        irq_gsi_from(overrides, irq, k + 1)
    }
}

impl MadtInfo {
    /// The global system interrupt ISA `irq` arrives on: the first
    /// recorded override's, else the same number.
    pub fn gsi_for_irq(&self, irq: u8) -> (r: u32)
        requires
            self.wf(),
        ensures
            r == irq_gsi_from(self.view().overrides, irq, 0),
    {
        let n = self.override_count;
        let mut j: usize = 0;
        while j < n
            invariant
                0 <= j <= n,
                n == self.override_count,
                n <= MAX_OVERRIDES,
                irq_gsi_from(self.view().overrides, irq, 0) == irq_gsi_from(self.view().overrides, irq, j as int),
            decreases n - j,
        {
            if self.overrides[j].irq_source == irq {
                return self.overrides[j].gsi;
            }
            j = j + 1;
        }
        irq as u32
    }
}

/// The little-endian value of `n` bytes at `off`.
pub open spec fn le_n(d: Seq<u8>, off: int, n: nat) -> int
    decreases n,
{
    if n == 0 { 0 } else { d[off] as int + 256 * le_n(d, off + 1, (n - 1) as nat) }
}

/// Reads the little-endian 32-bit value at `off`.
fn rd32(d: &[u8], off: usize) -> (r: u32)
    requires
        off + 4 <= d@.len(),
    ensures
        r == le_n(d@, off as int, 4),
{
    proof { reveal_with_fuel(le_n, 5); }
    d[off] as u32 + d[off + 1] as u32 * 0x100 + d[off + 2] as u32 * 0x1_0000 + d[off + 3] as u32 * 0x100_0000
}

/// Byte `i` of a table; bytes past its end read as zero.
pub open spec fn byte_at(t: Seq<u8>, i: int) -> u8 {
    if 0 <= i < t.len() { t[i] } else { 0 }
}

/// The little-endian value of `n` bytes at `off` of a table, bytes past
/// its end reading as zero.
pub open spec fn le_z(t: Seq<u8>, off: int, n: nat) -> int
    decreases n,
{
    if n == 0 { 0 } else { byte_at(t, off) as int + 256 * le_z(t, off + 1, (n - 1) as nat) }
}

/// The recorded entries after one MADT entry at `off`: a processor
/// (type 0) that is enabled or online-capable, an I/O APIC (type 1) or an
/// override (type 2) is added while there is room, its fields read at
/// their fixed places whatever length the entry declares; other types
/// are ignored.
pub open spec fn madt_entry(t: Seq<u8>, off: int, v: MadtView) -> MadtView {
    let ty = t[off];
    if ty == 0 && v.cpus.len() < MAX_CPUS {
        let flags = le_z(t, off + 4, 4);
        let enabled = flags % 2 == 1;
        let online = (flags / 2) % 2 == 1;
        if enabled || online {
            MadtView { cpus: v.cpus.push(CpuInfo { acpi_id: byte_at(t, off + 2), apic_id: byte_at(t, off + 3), enabled }), ..v }
        } else {
            v
        }
    } else if ty == 1 && v.ioapics.len() < MAX_IOAPICS {
        MadtView {
            ioapics: v.ioapics.push(IoApicInfo {
                id: byte_at(t, off + 2),
                address: le_z(t, off + 4, 4) as u64,
                gsi_base: le_z(t, off + 8, 4) as u32,
            }),
            ..v
        }
    } else if ty == 2 && v.overrides.len() < MAX_OVERRIDES {
        let flags = le_z(t, off + 8, 2);
        MadtView {
            overrides: v.overrides.push(IsoOverride {
                irq_source: byte_at(t, off + 3),
                gsi: le_z(t, off + 4, 4) as u32,
                polarity: (flags % 4) as u8,
                trigger: ((flags / 4) % 4) as u8,
            }),
            ..v
        }
    } else {
        v
    }
}

/// An interrupt source override (type 2) with room left is recorded with
/// its source IRQ (byte 3), and the polarity and trigger mode of its flags
/// word at byte 8 as the MADT lays them out: polarity in bits 0..1 and
/// trigger mode in bits 2..3 (0 conforming, 1 edge, 3 level). Nothing else
/// changes.
pub proof fn lemma_override_entry(t: Seq<u8>, off: int, v: MadtView)
    requires
        0 <= off < t.len(),
        t[off] == 2,
        v.overrides.len() < MAX_OVERRIDES,
    ensures
        madt_entry(t, off, v).overrides.len() == v.overrides.len() + 1,
        madt_entry(t, off, v).overrides.take(v.overrides.len() as int) == v.overrides,
        madt_entry(t, off, v).overrides.last().irq_source == byte_at(t, off + 3),
        madt_entry(t, off, v).overrides.last().polarity == byte_at(t, off + 8) & 3,
        madt_entry(t, off, v).overrides.last().trigger == (byte_at(t, off + 8) >> 2u8) & 3,
        madt_entry(t, off, v).cpus == v.cpus,
        madt_entry(t, off, v).ioapics == v.ioapics,
        madt_entry(t, off, v).lapic_addr == v.lapic_addr,
{
    reveal_with_fuel(le_z, 3);
    let b0 = byte_at(t, off + 8);
    let b1 = byte_at(t, off + 9);
    let flags = le_z(t, off + 8, 2);
    assert(flags == b0 + 256 * b1);
    assert(flags % 4 == b0 % 4 && (flags / 4) % 4 == (b0 / 4) % 4) by (nonlinear_arith)
        requires flags == b0 + 256 * b1, 0 <= b0 < 256, 0 <= b1 < 256;
    assert(b0 & 3 == b0 % 4 && (b0 >> 2u8) & 3 == (b0 / 4) % 4) by (bit_vector);
    let e = madt_entry(t, off, v);
    assert(e.overrides.take(v.overrides.len() as int) =~= v.overrides);
}

/// A processor entry (type 0) with room left is recorded exactly when its
/// flags (byte 4) say enabled (bit 0) or online-capable (bit 1), with its
/// ACPI id (byte 2), APIC id (byte 3) and the enabled bit.
pub proof fn lemma_processor_entry(t: Seq<u8>, off: int, v: MadtView)
    requires
        0 <= off < t.len(),
        t[off] == 0,
        v.cpus.len() < MAX_CPUS,
    ensures
        (byte_at(t, off + 4) & 3 != 0) ==> {
            &&& madt_entry(t, off, v).cpus.len() == v.cpus.len() + 1
            &&& madt_entry(t, off, v).cpus.take(v.cpus.len() as int) == v.cpus
            &&& madt_entry(t, off, v).cpus.last() == (CpuInfo {
                acpi_id: byte_at(t, off + 2), apic_id: byte_at(t, off + 3), enabled: byte_at(t, off + 4) & 1 != 0 })
        },
        (byte_at(t, off + 4) & 3 == 0) ==> madt_entry(t, off, v).cpus == v.cpus,
        madt_entry(t, off, v).ioapics == v.ioapics,
        madt_entry(t, off, v).overrides == v.overrides,
{
    reveal_with_fuel(le_z, 5);
    let b = byte_at(t, off + 4);
    let flags = le_z(t, off + 4, 4);
    assert(flags % 2 == b % 2 && (flags / 2) % 2 == (b / 2) % 2) by (nonlinear_arith)
        requires flags == b + 256 * le_z(t, off + 5, 3), 0 <= b < 256, le_z(t, off + 5, 3) >= 0;
    assert((b & 1 != 0) == (b % 2 == 1) && (b & 2 != 0) == ((b / 2) % 2 == 1) && ((b & 3 != 0) == (b % 2 == 1 || (b / 2) % 2 == 1))) by (bit_vector);
    let e = madt_entry(t, off, v);
    assert(e.cpus.take(v.cpus.len() as int) =~= v.cpus);
}

/// An I/O APIC entry (type 1) with room left is recorded with its id
/// (byte 2), its register address (bytes 4..8, little-endian) and its
/// first global system interrupt (bytes 8..12, little-endian).
pub proof fn lemma_ioapic_entry(t: Seq<u8>, off: int, v: MadtView)
    requires
        0 <= off < t.len(),
        t[off] == 1,
        v.ioapics.len() < MAX_IOAPICS,
    ensures
        madt_entry(t, off, v).ioapics.len() == v.ioapics.len() + 1,
        madt_entry(t, off, v).ioapics.take(v.ioapics.len() as int) == v.ioapics,
        madt_entry(t, off, v).ioapics.last() == (IoApicInfo {
            id: byte_at(t, off + 2),
            address: (byte_at(t, off + 4) + 0x100 * byte_at(t, off + 5) + 0x1_0000 * byte_at(t, off + 6)
                + 0x100_0000 * byte_at(t, off + 7)) as u64,
            gsi_base: (byte_at(t, off + 8) + 0x100 * byte_at(t, off + 9) + 0x1_0000 * byte_at(t, off + 10)
                + 0x100_0000 * byte_at(t, off + 11)) as u32,
        }),
        madt_entry(t, off, v).cpus == v.cpus,
        madt_entry(t, off, v).overrides == v.overrides,
{
    reveal_with_fuel(le_z, 5);
    let e = madt_entry(t, off, v);
    assert(e.ioapics.take(v.ioapics.len() as int) =~= v.ioapics);
}

/// Byte `off + k` of a table, or zero past its end.
fn byte_z(d: &[u8], off: usize, k: usize) -> (r: u8)
    ensures
        r == byte_at(d@, off + k),
{
    if off < d.len() && k < d.len() - off { d[off + k] } else { 0 }
}

/// The little-endian 16-bit value at `off`, bytes past the end reading
/// as zero.
fn rd16z(d: &[u8], off: usize, k: usize) -> (r: u16)
    requires
        k <= 8,
    ensures
        r == le_z(d@, off + k, 2),
{
    proof { reveal_with_fuel(le_z, 3); }
    byte_z(d, off, k) as u16 + byte_z(d, off, k + 1) as u16 * 256
}

/// The little-endian 32-bit value at `off`, bytes past the end reading
/// as zero.
fn rd32z(d: &[u8], off: usize, k: usize) -> (r: u32)
    requires
        k <= 8,
    ensures
        r == le_z(d@, off + k, 4),
{
    proof { reveal_with_fuel(le_z, 5); }
    byte_z(d, off, k) as u32 + byte_z(d, off, k + 1) as u32 * 0x100 + byte_z(d, off, k + 2) as u32 * 0x1_0000
        + byte_z(d, off, k + 3) as u32 * 0x100_0000
}

/// The recorded entries after walking the entries from `off` on: each
/// entry gives its length in its second byte; a length below 2 ends the
/// walk.
pub open spec fn madt_walk(t: Seq<u8>, off: int, v: MadtView) -> MadtView
    decreases (if off < t.len() { t.len() - off } else { 0 }),
{
    if off < 0 || off + 2 > t.len() || t[off + 1] < 2 {
        v
    } else {
        madt_walk(t, off + t[off + 1], madt_entry(t, off, v))
    }
}

/// Reads a MADT: the local APIC address at byte 36, then the entries from
/// byte 44 to the end of the table.
pub fn parse_madt_table(table: &[u8]) -> (r: MadtInfo)
    requires
        table@.len() >= MADT_ENTRIES_OFF,
    ensures
        r.wf(),
        r.view() == madt_walk(table@, MADT_ENTRIES_OFF as int, MadtView {
            lapic_addr: le_n(table@, 36, 4) as u64,
            cpus: Seq::empty(),
            ioapics: Seq::empty(),
            overrides: Seq::empty(),
        }),
{
    let mut info = MadtInfo::new();
    info.lapic_addr = rd32(table, 36) as u64;
    let len = table.len();
    let mut offset: usize = MADT_ENTRIES_OFF;
    let ghost start = info.view();
    proof {
        assert(info.view().cpus =~= Seq::<CpuInfo>::empty());
        assert(info.view().ioapics =~= Seq::<IoApicInfo>::empty());
        assert(info.view().overrides =~= Seq::<IsoOverride>::empty());
    }
    while offset <= len && 2 <= len - offset
        invariant_except_break
            len == table@.len(),
            MADT_ENTRIES_OFF <= offset <= len,
            info.wf(),
            madt_walk(table@, MADT_ENTRIES_OFF as int, start) == madt_walk(table@, offset as int, info.view()),
        ensures
            info.wf(),
            madt_walk(table@, MADT_ENTRIES_OFF as int, start) == info.view(),
        decreases len - offset,
    {
        let entry_type = table[offset];
        let entry_length = table[offset + 1] as usize;
        if entry_length < 2 {
            break;
        }
        let ghost before = info.view();
        if entry_type == 0 && info.cpu_count < MAX_CPUS {
            let flags = rd32z(table, offset, 4);
            let enabled = flags & 1 != 0;
            let online = flags & 2 != 0;
            proof {
                assert((flags & 1 != 0 <==> flags % 2 == 1) && (flags & 2 != 0 <==> (flags / 2) % 2 == 1)) by (bit_vector);
            }
            if enabled || online {
                let k = info.cpu_count;
                let acpi_id = byte_z(table, offset, 2);
                let apic_id = byte_z(table, offset, 3);
                info.cpus[k] = CpuInfo { acpi_id, apic_id, enabled };
                info.cpu_count = k + 1;
                proof {
                    assert(info.view().cpus =~= before.cpus.push(CpuInfo { acpi_id, apic_id, enabled }));
                }
            }
        } else if entry_type == 1 && info.ioapic_count < MAX_IOAPICS {
            let k = info.ioapic_count;
            let id = byte_z(table, offset, 2);
            let address = rd32z(table, offset, 4) as u64;
            let gsi_base = rd32z(table, offset, 8);
            info.ioapics[k] = IoApicInfo { id, address, gsi_base };
            info.ioapic_count = k + 1;
            proof {
                assert(info.view().ioapics =~= before.ioapics.push(IoApicInfo { id, address, gsi_base }));
            }
        } else if entry_type == 2 && info.override_count < MAX_OVERRIDES {
            let k = info.override_count;
            let irq_source = byte_z(table, offset, 3);
            let gsi = rd32z(table, offset, 4);
            let flags = rd16z(table, offset, 8);
            let polarity = (flags & 0x03) as u8;
            let trigger = ((flags >> 2u16) & 0x03) as u8;
            proof {
                assert(flags & 0x03 == flags % 4 && (flags >> 2u16) & 0x03 == (flags / 4) % 4) by (bit_vector);
            }
            info.overrides[k] = IsoOverride { irq_source, gsi, polarity, trigger };
            info.override_count = k + 1;
            proof {
                assert(info.view().overrides =~= before.overrides.push(IsoOverride { irq_source, gsi, polarity, trigger }));
            }
        }
        proof {
            assert(info.view() == madt_entry(table@, offset as int, before));
        }
        if entry_length > len - offset {
            proof {
                let nv = madt_entry(table@, offset as int, before);
                assert(madt_walk(table@, offset + entry_length, nv) == nv);
            }
            break;
        }
        offset = offset + entry_length;
    }
    info
}

/// Size of a system description table header.
pub const SDT_HEADER_SIZE: usize = 36;

/// The four bytes at `off` are `a b c d`.
pub open spec fn sig4(m: Seq<u8>, off: int, a: u8, b: u8, c: u8, d: u8) -> bool {
    m[off] == a && m[off + 1] == b && m[off + 2] == c && m[off + 3] == d
}

/// The RSDP at `rsdp` is signed `RSD PTR `.
pub open spec fn rsdp_signed(m: Seq<u8>, rsdp: int) -> bool {
    sig4(m, rsdp, 0x52, 0x53, 0x44, 0x20) && sig4(m, rsdp + 4, 0x50, 0x54, 0x52, 0x20)
}

/// The root table the RSDP at `rsdp` names and the width of its entries:
/// the XSDT (8-byte entries) from revision 2 on, the RSDT (4-byte
/// entries) before.
pub open spec fn rsdp_root(m: Seq<u8>, rsdp: int) -> Option<(int, int)> {
    if rsdp + 20 > m.len() || !rsdp_signed(m, rsdp) {
        None
    } else if m[rsdp + 15] < 2 {
        Some((le_n(m, rsdp + 16, 4), 4))
    } else if rsdp + 32 > m.len() {
        None
    } else {
        Some((le_n(m, rsdp + 24, 8), 8))
    }
}

/// The number of entries of the root table at `root`.
pub open spec fn root_entries(m: Seq<u8>, root: int, w: int) -> int {
    let len = le_n(m, root + 4, 4);
    if len <= SDT_HEADER_SIZE { 0 } else { (len - SDT_HEADER_SIZE) / w }
}

/// The first table, among the root's entries `i..count`, signed `APIC`.
/// The walk ends at an entry outside memory; a table whose header lies
/// outside memory does not match.
pub open spec fn first_apic(m: Seq<u8>, root: int, w: int, count: int, i: int) -> Option<int>
    decreases count - i,
{
    if i >= count {
        None
    } else {
        let e = root + SDT_HEADER_SIZE + i * w;
        if e + w > m.len() {
            None
        } else {
            let t = le_n(m, e, w as nat);
            if t + SDT_HEADER_SIZE <= m.len() && sig4(m, t, 0x41, 0x50, 0x49, 0x43) {
                Some(t)
            } else {
                first_apic(m, root, w, count, i + 1)
            }
        }
    }
}

/// Where the MADT lies in physical memory `m`, found from the RSDP at
/// `rsdp`: its address and the bytes to read (its length, at least the
/// 44 bytes before its entries). `None` when the RSDP or the root table
/// is not signed as it should be, no table is signed `APIC`, or the MADT
/// does not fit in memory.
pub open spec fn madt_location(m: Seq<u8>, rsdp: int) -> Option<(int, int)> {
    match rsdp_root(m, rsdp) {
        None => None,
        Some((root, w)) => {
            if root + SDT_HEADER_SIZE > m.len() {
                None
            } else if !(if w == 8 { sig4(m, root, 0x58, 0x53, 0x44, 0x54) } else { sig4(m, root, 0x52, 0x53, 0x44, 0x54) }) {
                None
            } else {
                match first_apic(m, root, w, root_entries(m, root, w), 0) {
                    None => None,
                    Some(t) => {
                        let len = le_n(m, t + 4, 4);
                        let span = if len < MADT_ENTRIES_OFF { MADT_ENTRIES_OFF as int } else { len };
                        if 0 <= t && t + span <= m.len() { Some((t, span)) } else { None }
                    },
                }
            }
        },
    }
}

/// Reads the little-endian 64-bit value at `off`.
fn rd64(d: &[u8], off: usize) -> (r: u64)
    requires
        off + 8 <= d@.len(),
    ensures
        r == le_n(d@, off as int, 8),
{
    proof { reveal_with_fuel(le_n, 9); }
    d[off] as u64 + d[off + 1] as u64 * 0x100 + d[off + 2] as u64 * 0x1_0000 + d[off + 3] as u64 * 0x100_0000
        + d[off + 4] as u64 * 0x1_0000_0000 + d[off + 5] as u64 * 0x100_0000_0000
        + d[off + 6] as u64 * 0x1_0000_0000_0000 + d[off + 7] as u64 * 0x100_0000_0000_0000
}

proof fn lemma_le_n_bound(d: Seq<u8>, off: int, n: nat)
    ensures
        0 <= le_n(d, off, n),
        n == 4 ==> le_n(d, off, n) < 0x1_0000_0000,
        n == 8 ==> le_n(d, off, n) < 0x1_0000_0000_0000_0000,
    decreases n,
{
    if n > 0 {
        lemma_le_n_bound(d, off + 1, (n - 1) as nat);
        reveal_with_fuel(le_n, 9);
    }
}

/// Finds the MADT from the RSDP at physical address `rsdp_phys` in
/// physical memory `mem` (see `madt_location`).
pub fn find_madt(mem: &[u8], rsdp_phys: u64) -> (r: Option<(usize, usize)>)
    ensures
        match madt_location(mem@, rsdp_phys as int) {
            Some((t, span)) => r == Some((t as usize, span as usize)),
            None => r is None,
        },
{
    let n = mem.len();
    if rsdp_phys >= n as u64 || n - (rsdp_phys as usize) < 20 {
        return None;
    }
    let r = rsdp_phys as usize;
    if !(mem[r] == 0x52 && mem[r + 1] == 0x53 && mem[r + 2] == 0x44 && mem[r + 3] == 0x20
        && mem[r + 4] == 0x50 && mem[r + 5] == 0x54 && mem[r + 6] == 0x52 && mem[r + 7] == 0x20) {
        return None;
    }
    let (root, w): (u64, usize) = if mem[r + 15] < 2 {
        (rd32(mem, r + 16) as u64, 4)
    } else {
        if n - r < 32 {
            return None;
        }
        (rd64(mem, r + 24), 8)
    };
    if root >= n as u64 || n - (root as usize) < SDT_HEADER_SIZE {
        return None;
    }
    let rt = root as usize;
    let signed = if w == 8 {
        mem[rt] == 0x58 && mem[rt + 1] == 0x53 && mem[rt + 2] == 0x44 && mem[rt + 3] == 0x54
    } else {
        mem[rt] == 0x52 && mem[rt + 1] == 0x53 && mem[rt + 2] == 0x44 && mem[rt + 3] == 0x54
    };
    if !signed {
        return None;
    }
    let len = rd32(mem, rt + 4) as usize;
    let count: usize = if len <= SDT_HEADER_SIZE { 0 } else { (len - SDT_HEADER_SIZE) / w };
    let ghost m = mem@;
    let mut i: usize = 0;
    let mut found: Option<u64> = None;
    proof {
        lemma_le_n_bound(m, rt + 4, 4);
        if len > SDT_HEADER_SIZE {
            vstd::arithmetic::div_mod::lemma_fundamental_div_mod((len - SDT_HEADER_SIZE) as int, w as int);
            assert(count * w <= len) by (nonlinear_arith)
                requires count == (len - 36) / (w as int), len - 36 == w * ((len - 36) / (w as int)) + (len - 36) % (w as int),
                    (len - 36) % (w as int) >= 0, len > 36, w > 0;
        }
    }
    while i < count
        invariant_except_break
            0 <= i <= count,
            count * w <= len,
            len < 0x1_0000_0000,
            m == mem@,
            n == mem@.len(),
            rt == root,
            rt + SDT_HEADER_SIZE <= n,
            w == 4 || w == 8,
            count == root_entries(m, root as int, w as int),
            first_apic(m, root as int, w as int, count as int, 0) == first_apic(m, root as int, w as int, count as int, i as int),
            found is None,
        ensures
            first_apic(m, root as int, w as int, count as int, 0) == (match found { Some(t) => Some(t as int), None => None::<int> }),
            found matches Some(t) ==> t + SDT_HEADER_SIZE <= n,
        decreases count - i,
    {
        proof {
            assert(i * w <= count * w) by (nonlinear_arith) requires i <= count, w >= 0;
        }
        if n - rt - SDT_HEADER_SIZE < i * w || n - rt - SDT_HEADER_SIZE - i * w < w {
            break;
        }
        let e = rt + SDT_HEADER_SIZE + i * w;
        let t: u64 = if w == 8 { rd64(mem, e) } else { rd32(mem, e) as u64 };
        if t < n as u64 && n - (t as usize) >= SDT_HEADER_SIZE {
            let tt = t as usize;
            if mem[tt] == 0x41 && mem[tt + 1] == 0x50 && mem[tt + 2] == 0x49 && mem[tt + 3] == 0x43 {
                found = Some(t);
                break;
            }
        }
        i = i + 1;
    }
    let t = match found {
        None => return None,
        Some(t) => t as usize,
    };
    proof { lemma_le_n_bound(m, t + 4, 4); }
    let tlen = rd32(mem, t + 4) as usize;
    let span = if tlen < MADT_ENTRIES_OFF { MADT_ENTRIES_OFF } else { tlen };
    if span > n - t {
        return None;
    }
    Some((t, span))
}

/// Parses the MADT the RSDP at `rsdp_phys` leads to; the tables must be
/// as `madt_location` requires (see `find_madt`).
pub fn parse_madt(mem: &[u8], rsdp_phys: u64) -> (r: MadtInfo)
    requires
        madt_location(mem@, rsdp_phys as int) is Some,
    ensures
        r.wf(),
        ({
            let (t, span) = madt_location(mem@, rsdp_phys as int)->0;
            r.view() == madt_walk(mem@.subrange(t, t + span), MADT_ENTRIES_OFF as int, MadtView {
                lapic_addr: le_n(mem@, t + 36, 4) as u64,
                cpus: Seq::empty(),
                ioapics: Seq::empty(),
                overrides: Seq::empty(),
            })
        }),
{
    let (t, span) = match find_madt(mem, rsdp_phys) {
        Some(p) => p,
        None => { proof { assert(false); } return MadtInfo::new(); },
    };
    let n = mem.len();
    proof {
        let (tt, ss) = madt_location(mem@, rsdp_phys as int)->0;
        assert(tt + ss <= n);
        assert(tt >= 0 && ss >= 0);
        assert(t == tt && span == ss);
    }
    let table = vstd::slice::slice_subrange(mem, t, t + span);
    proof {
        assert forall|k: nat| k <= 4 implies le_n(table@, 36, k) == le_n(mem@, t + 36, k) by {
            lemma_le_n_shift(mem@, t as int, span as int, 36, k);
        }
    }
    parse_madt_table(table)
}

proof fn lemma_le_n_shift(m: Seq<u8>, t: int, span: int, off: int, k: nat)
    requires
        0 <= t,
        t + span <= m.len(),
        0 <= off,
        off + k <= span,
    ensures
        le_n(m.subrange(t, t + span), off, k) == le_n(m, t + off, k),
    decreases k,
{
    if k > 0 {
        lemma_le_n_shift(m, t, span, off + 1, (k - 1) as nat);
    }
}

} // verus!

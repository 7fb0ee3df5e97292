//! PCI configuration space: addresses, register fields and class names.

use vstd::prelude::*;

verus! {

/// Configuration-address port.
pub const CONFIG_ADDRESS: u16 = 0xCF8;
/// Configuration-data port.
pub const CONFIG_DATA: u16 = 0xCFC;

/// The CONFIG_ADDRESS value selecting dword `offset` of a function:
/// enable bit, bus, device, function and the dword-aligned offset.
pub fn config_address(bus: u8, device: u8, func: u8, offset: u8) -> (r: u32)
    ensures
        r == 0x8000_0000u32 | ((bus as u32) << 16u32) | ((device as u32) << 11u32) | ((func as u32) << 8u32)
            | ((offset as u32) & 0xFC),
{
    0x8000_0000u32 | ((bus as u32) << 16u32) | ((device as u32) << 11u32) | ((func as u32) << 8u32) | ((offset as u32) & 0xFC)
}

/// A function is present: its vendor id (low half of dword 0) is not
/// all ones.
pub fn is_present(reg0: u32) -> (r: bool)
    ensures
        r == (reg0 & 0xFFFF != 0xFFFF),
{
    reg0 & 0xFFFF != 0xFFFF
}

/// A device has several functions: bit 7 of its header type (bits 16..23
/// of dword 3).
pub fn is_multifunction(reg3: u32) -> (r: bool)
    ensures
        r == (((reg3 >> 16u32) & 0xFF) & 0x80 != 0),
{
    ((reg3 >> 16u32) & 0xFF) & 0x80 != 0
}

/// Class and subclass from dword 2.
pub fn class_of(reg2: u32) -> (r: (u32, u32))
    ensures
        r == ((reg2 >> 24u32) & 0xFF, (reg2 >> 16u32) & 0xFF),
{
    ((reg2 >> 24u32) & 0xFF, (reg2 >> 16u32) & 0xFF)
}

/// The name of a class/subclass pair ("Unknown" for others).
pub open spec fn pci_class_name(class: u32, subclass: u32) -> Seq<char> {
    if class == 0x00 && subclass == 0x00 { "Non-VGA Unclassified"@ }
    else if class == 0x00 && subclass == 0x01 { "VGA-Compatible Unclassified"@ }
    else if class == 0x01 && subclass == 0x00 { "SCSI Bus Controller"@ }
    else if class == 0x01 && subclass == 0x01 { "IDE Controller"@ }
    else if class == 0x01 && subclass == 0x06 { "SATA Controller"@ }
    else if class == 0x01 && subclass == 0x08 { "NVM Controller"@ }
    else if class == 0x02 && subclass == 0x00 { "Ethernet Controller"@ }
    else if class == 0x03 && subclass == 0x00 { "VGA Controller"@ }
    else if class == 0x04 && subclass == 0x00 { "Video Device"@ }
    else if class == 0x04 && subclass == 0x01 { "Audio Device"@ }
    else if class == 0x06 && subclass == 0x00 { "Host Bridge"@ }
    else if class == 0x06 && subclass == 0x01 { "ISA Bridge"@ }
    else if class == 0x06 && subclass == 0x04 { "PCI-to-PCI Bridge"@ }
    else if class == 0x06 && subclass == 0x80 { "Other Bridge"@ }
    else if class == 0x07 && subclass == 0x00 { "Serial Controller"@ }
    else if class == 0x08 && subclass == 0x00 { "PIC"@ }
    else if class == 0x08 && subclass == 0x80 { "Other System Peripheral"@ }
    else if class == 0x0C && subclass == 0x03 { "USB Controller"@ }
    else if class == 0x0C && subclass == 0x05 { "SMBus Controller"@ }
    else { "Unknown"@ }
}

/// A readable name for a class/subclass pair.
pub fn class_name(class: u32, subclass: u32) -> (r: &'static str)
    ensures
        r@ == pci_class_name(class, subclass),
{
    if class == 0x00 && subclass == 0x00 { "Non-VGA Unclassified" }
    else if class == 0x00 && subclass == 0x01 { "VGA-Compatible Unclassified" }
    else if class == 0x01 && subclass == 0x00 { "SCSI Bus Controller" }
    else if class == 0x01 && subclass == 0x01 { "IDE Controller" }
    else if class == 0x01 && subclass == 0x06 { "SATA Controller" }
    else if class == 0x01 && subclass == 0x08 { "NVM Controller" }
    else if class == 0x02 && subclass == 0x00 { "Ethernet Controller" }
    else if class == 0x03 && subclass == 0x00 { "VGA Controller" }
    else if class == 0x04 && subclass == 0x00 { "Video Device" }
    else if class == 0x04 && subclass == 0x01 { "Audio Device" }
    else if class == 0x06 && subclass == 0x00 { "Host Bridge" }
    else if class == 0x06 && subclass == 0x01 { "ISA Bridge" }
    else if class == 0x06 && subclass == 0x04 { "PCI-to-PCI Bridge" }
    else if class == 0x06 && subclass == 0x80 { "Other Bridge" }
    else if class == 0x07 && subclass == 0x00 { "Serial Controller" }
    else if class == 0x08 && subclass == 0x00 { "PIC" }
    else if class == 0x08 && subclass == 0x80 { "Other System Peripheral" }
    else if class == 0x0C && subclass == 0x03 { "USB Controller" }
    else if class == 0x0C && subclass == 0x05 { "SMBus Controller" }
    else { "Unknown" }
}

/// What the bus scan waits for.
#[derive(Clone, Copy, PartialEq, Eq, Structural, Debug)]
pub enum ScanPhase {
    /// The vendor dword of function 0.
    Vendor0,
    /// The header-type dword of function 0.
    Header,
    /// The vendor dword of function `func` (1 to 7).
    FuncVendor,
    /// Every bus was scanned.
    Done,
}

/// A scan of every bus, device and function, one configuration read at
/// a time: the scanner names the dword to read, the caller reads it and
/// feeds the value back.
#[derive(Clone, Copy, PartialEq, Eq, Structural, Debug)]
pub struct PciScanner {
    pub bus: u16,
    pub device: u8,
    pub func: u8,
    pub phase: ScanPhase,
    pub count: u32,
}

/// The position after device `device` of bus `bus`: the next device, the
/// next bus, or the end after bus 255.
pub open spec fn after_device(s: PciScanner) -> PciScanner {
    if s.device < 31 {
        PciScanner { device: (s.device + 1) as u8, func: 0, phase: ScanPhase::Vendor0, ..s }
    } else if s.bus < 255 {
        PciScanner { bus: (s.bus + 1) as u16, device: 0, func: 0, phase: ScanPhase::Vendor0, ..s }
    } else {
        PciScanner { phase: ScanPhase::Done, ..s }
    }
}

/// One step of the scan on the value read: the next state and the
/// function found present, if any.
pub open spec fn scan_step(s: PciScanner, value: u32) -> (PciScanner, Option<(u8, u8, u8)>) {
    match s.phase {
        ScanPhase::Vendor0 => {
            if value & 0xFFFF == 0xFFFF {
                (after_device(s), None)
            } else {
                (PciScanner { phase: ScanPhase::Header, count: (s.count + 1) as u32, ..s }, Some((s.bus as u8, s.device, 0u8)))
            }
        },
        ScanPhase::Header => {
            if ((value >> 16u32) & 0xFF) & 0x80 != 0 {
                (PciScanner { phase: ScanPhase::FuncVendor, func: 1, ..s }, None)
            } else {
                (after_device(s), None)
            }
        },
        ScanPhase::FuncVendor => {
            let found = value & 0xFFFF != 0xFFFF;
            let s1 = if found { PciScanner { count: (s.count + 1) as u32, ..s } } else { s };
            let next = if s.func < 7 { PciScanner { func: (s.func + 1) as u8, ..s1 } } else { after_device(s1) };
            (next, if found { Some((s.bus as u8, s.device, s.func)) } else { None })
        },
        ScanPhase::Done => (s, None),
    }
}

/// Functions of the current device already examined.
pub open spec fn examined(s: PciScanner) -> int {
    match s.phase {
        ScanPhase::Vendor0 => 0,
        ScanPhase::Header => 1,
        ScanPhase::FuncVendor => s.func as int,
        ScanPhase::Done => 8,
    }
}

impl PciScanner {
    /// The position stays in range, and the count of functions found
    /// stays below the number of positions scanned.
    pub open spec fn wf(&self) -> bool {
        &&& self.bus <= 255
        &&& self.device < 32
        &&& self.func < 8
        &&& (self.phase is FuncVendor ==> self.func >= 1)
        &&& self.count <= (self.bus as int * 32 + self.device as int) * 8 + examined(*self)
    }

    /// The scan starts at bus 0, device 0, with nothing found.
    pub fn new() -> (r: Self)
        ensures
            r.wf(),
            r == (PciScanner { bus: 0, device: 0, func: 0, phase: ScanPhase::Vendor0, count: 0 }),
    {
        PciScanner { bus: 0, device: 0, func: 0, phase: ScanPhase::Vendor0, count: 0 }
    }

    /// The configuration dword to read next, as (bus, device, function,
    /// offset); `None` once the scan is over.
    pub fn next_read(&self) -> (r: Option<(u8, u8, u8, u8)>)
        requires
            self.wf(),
        ensures
            match self.phase {
                ScanPhase::Vendor0 => r == Some((self.bus as u8, self.device, 0u8, 0u8)),
                ScanPhase::Header => r == Some((self.bus as u8, self.device, 0u8, 0x0Cu8)),
                ScanPhase::FuncVendor => r == Some((self.bus as u8, self.device, self.func, 0u8)),
                ScanPhase::Done => r is None,
            },
    {
        match self.phase {
            ScanPhase::Vendor0 => Some((self.bus as u8, self.device, 0, 0)),
            ScanPhase::Header => Some((self.bus as u8, self.device, 0, 0x0C)),
            ScanPhase::FuncVendor => Some((self.bus as u8, self.device, self.func, 0)),
            ScanPhase::Done => None,
        }
    }

    /// Takes the value of the dword `next_read` named; returns the
    /// function found present, if any, for the caller to report.
    pub fn feed(&mut self, value: u32) -> (r: Option<(u8, u8, u8)>)
        requires
            old(self).wf(),
        ensures
            final(self).wf(),
            (*final(self), r) == scan_step(*old(self), value),
    {
        let s = *self;
        proof {
            assert((s.bus as int * 32 + s.device as int) * 8 + 8 <= 255 * 256 + 31 * 8 + 8);
        }
        let (next, found) = match self.phase {
            ScanPhase::Vendor0 => {
                if value & 0xFFFF == 0xFFFF {
                    (Self::after_device(s), None)
                } else {
                    (PciScanner { phase: ScanPhase::Header, count: s.count + 1, ..s }, Some((s.bus as u8, s.device, 0u8)))
                }
            },
            ScanPhase::Header => {
                if ((value >> 16u32) & 0xFF) & 0x80 != 0 {
                    (PciScanner { phase: ScanPhase::FuncVendor, func: 1, ..s }, None)
                } else {
                    (Self::after_device(s), None)
                }
            },
            ScanPhase::FuncVendor => {
                let present = value & 0xFFFF != 0xFFFF;
                let s1 = if present { PciScanner { count: s.count + 1, ..s } } else { s };
                let next = if s.func < 7 { PciScanner { func: s.func + 1, ..s1 } } else { Self::after_device(s1) };
                (next, if present { Some((s.bus as u8, s.device, s.func)) } else { None })
            },
            ScanPhase::Done => (s, None),
        };
        *self = next;
        found
    }

    /// The position after the current device.
    fn after_device(s: PciScanner) -> (r: PciScanner)
        requires
            s.bus <= 255,
            s.device < 32,
            s.func < 8,
            s.count <= (s.bus as int * 32 + s.device as int) * 8 + 8,
        ensures
            r == after_device(s),
            r.wf(),
    {
        if s.device < 31 {
            PciScanner { device: s.device + 1, func: 0, phase: ScanPhase::Vendor0, ..s }
        } else if s.bus < 255 {
            PciScanner { bus: s.bus + 1, device: 0, func: 0, phase: ScanPhase::Vendor0, ..s }
        } else {
            PciScanner { phase: ScanPhase::Done, ..s }
        }
    }
}

} // verus!

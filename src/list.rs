//! USB identifiers of FTDI and FTDI-compatible devices.
use crate::ChipType;
use vstd::prelude::*;

verus! {

/// The chip assumed for a known vendor/product pair when its `bcdDevice`
/// does not settle it.
pub open spec fn spec_fallback_chip(vid: u16, pid: u16) -> Option<ChipType> {
    if vid == 0x0403 && pid == 0x6010 {
        Some(ChipType::FT2232H)
    } else if vid == 0x0403 && pid == 0x6011 {
        Some(ChipType::FT4232H)
    } else if vid == 0x0403 && pid == 0x6014 {
        Some(ChipType::FT232H)
    } else if vid == 0x15ba && (pid == 0x0003 || pid == 0x0004) {
        Some(ChipType::FT2232C)
    } else if vid == 0x15ba && (pid == 0x002a || pid == 0x002b) {
        Some(ChipType::FT2232H)
    } else {
        None
    }
}

/// Whether a USB device is one the driver knows, and which chip to assume.
pub fn fallback_chip(vid: u16, pid: u16) -> (r: Option<ChipType>)
    ensures
        r == spec_fallback_chip(vid, pid),
{
    match (vid, pid) {
        (0x0403, 0x6010) => Some(ChipType::FT2232H),
        (0x0403, 0x6011) => Some(ChipType::FT4232H),
        (0x0403, 0x6014) => Some(ChipType::FT232H),
        (0x15ba, 0x0003) | (0x15ba, 0x0004) => Some(ChipType::FT2232C),
        (0x15ba, 0x002a) | (0x15ba, 0x002b) => Some(ChipType::FT2232H),
        _ => None,
    }
}

} // verus!

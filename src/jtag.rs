//! JTAG: TAP traversal, IR/DR shifts and IDCODE chain scans on the MPSSE,
//! and blind discovery of which pins carry TCK, TMS, TDI and TDO.
pub mod hw_jtag;
pub mod jtag_detect;

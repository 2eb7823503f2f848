use ftdi_tools::ftdaye::{absorb_packet, bitmode_value, BitMode};
use ftdi_tools::gpio::{claim_input, claim_output, claim_pins, release_pins};
use ftdi_tools::list::fallback_chip;
use ftdi_tools::mpsse::{check_device, frequency_command, open_command, pin_level, read_bank_command, PinRegistry};
use ftdi_tools::{ChipType, FtdiError, Interface, Pin, PinUse};

#[test]
fn chip_capabilities() {
    assert_eq!(ChipType::FT4232H.interface_list(), vec![Interface::A, Interface::B, Interface::C, Interface::D]);
    assert_eq!(ChipType::FT2232H.interface_list(), vec![Interface::A, Interface::B]);
    assert_eq!(ChipType::FT232H.interface_list(), vec![Interface::A]);
    assert!(ChipType::Am.interface_list().is_empty());
    assert_eq!(ChipType::FT4232H.mpsse_list(), vec![Interface::A, Interface::B]);
    assert_eq!(ChipType::FT2232D.mpsse_list(), vec![Interface::A]);
    assert!(ChipType::R.mpsse_list().is_empty());
    assert!(ChipType::FT4232H.has_mpsse(Interface::B));
    assert!(!ChipType::FT4232H.has_mpsse(Interface::C));
    assert_eq!(ChipType::FT232H.upper_pins(), 8);
    assert_eq!(ChipType::FT2232D.upper_pins(), 4);
    assert_eq!(ChipType::FT4232H.upper_pins(), 0);
    assert_eq!(ChipType::FT232H.max_frequency(), 30_000_000);
    assert_eq!(ChipType::FT2232D.max_frequency(), 6_000_000);
    assert!(ChipType::FT2232H.has_devide_by5());
    assert!(!ChipType::FT2232D.has_devide_by5());
    assert_eq!(ChipType::FT232H.max_frequecny(), (30_000_000, Some(false)));
    assert_eq!(ChipType::FT2232D.max_frequecny(), (6_000_000, None));
    assert_eq!(ChipType::FT232H.max_packet_size(), 512);
    assert_eq!(ChipType::FT2232D.max_packet_size(), 64);
}

#[test]
fn interface_endpoints() {
    assert_eq!((Interface::A.read_ep(), Interface::A.write_ep(), Interface::A.index()), (0x81, 0x02, 1));
    assert_eq!((Interface::B.read_ep(), Interface::B.write_ep(), Interface::B.index()), (0x83, 0x04, 2));
    assert_eq!((Interface::C.read_ep(), Interface::C.write_ep(), Interface::C.index()), (0x85, 0x06, 3));
    assert_eq!((Interface::D.read_ep(), Interface::D.write_ep(), Interface::D.index()), (0x87, 0x08, 4));
    assert_eq!(Interface::D.interface_number(), 3);
    assert_eq!(Pin::Upper(5).mask(), 0x20);
}

#[test]
fn device_identification() {
    assert_eq!(check_device(0x900, false, Interface::A).unwrap(), ChipType::FT232H);
    assert_eq!(check_device(0x700, false, Interface::B).unwrap(), ChipType::FT2232H);
    assert_eq!(check_device(0x500, false, Interface::A).unwrap(), ChipType::FT2232D);
    assert!(matches!(
        check_device(0x900, false, Interface::B),
        Err(FtdiError::ChannelNotMpsse { chip: ChipType::FT232H, interface: Interface::B })
    ));
    assert!(matches!(
        check_device(0x800, false, Interface::C),
        Err(FtdiError::ChannelNotMpsse { chip: ChipType::FT4232H, interface: Interface::C })
    ));
    assert!(matches!(check_device(0x600, false, Interface::A), Err(FtdiError::UnsupportedChip(ChipType::R))));
    assert!(matches!(check_device(0x200, true, Interface::A), Err(FtdiError::UnsupportedChip(ChipType::Bm))));
    assert!(matches!(check_device(0x200, false, Interface::A), Err(FtdiError::UnsupportedChip(ChipType::Am))));
    assert!(matches!(check_device(0x400, false, Interface::A), Err(FtdiError::UnsupportedChip(ChipType::Bm))));
    assert!(matches!(check_device(0x1000, false, Interface::A), Err(FtdiError::UnsupportedChip(ChipType::FT230X))));
    assert!(matches!(check_device(0x1234, false, Interface::A), Err(FtdiError::UnsupportedChip(ChipType::Unknown))));
}

#[test]
fn open_command_resets_the_channel() {
    assert_eq!(
        open_command(ChipType::FT232H).as_slice(),
        &[0x80, 0, 0, 0x82, 0, 0, 0x85, 0x8d, 0x97, 0x8a, 0x86, 0, 0]
    );
    assert_eq!(open_command(ChipType::FT2232D).as_slice(), &[0x80, 0, 0, 0x82, 0, 0, 0x85, 0x86, 0, 0]);
}

#[test]
fn clock_divisor_rounds_towards_slower() {
    let (cmd, rate) = frequency_command(ChipType::FT232H, 150_000);
    assert_eq!(cmd.as_slice(), &[0x8a, 0x86, 199, 0]);
    assert_eq!(rate, 150_000);
    let (cmd, rate) = frequency_command(ChipType::FT232H, 7_000_000);
    assert_eq!(cmd.as_slice(), &[0x8a, 0x86, 4, 0]);
    assert_eq!(rate, 6_000_000);
    let (cmd, rate) = frequency_command(ChipType::FT2232D, 1_000_000);
    assert_eq!(cmd.as_slice(), &[0x86, 5, 0]);
    assert_eq!(rate, 1_000_000);
}

#[test]
fn clock_out_of_range_is_clamped() {
    let (cmd, rate) = frequency_command(ChipType::FT232H, 60_000_000);
    assert_eq!(cmd.as_slice(), &[0x8a, 0x86, 0, 0]);
    assert_eq!(rate, 30_000_000);
    let (cmd, rate) = frequency_command(ChipType::FT232H, 10);
    assert_eq!(cmd.as_slice(), &[0x8a, 0x86, 0xff, 0xff]);
    assert_eq!(rate, 457);
}

#[test]
fn alloc_then_free_restores_registry() {
    let mut reg = PinRegistry::new(ChipType::FT232H, Interface::A);
    reg.alloc_pin(Pin::Lower(3), PinUse::Spi).unwrap();
    assert_eq!(reg.lower.pins[3], Some(PinUse::Spi));
    let cmd = reg.free_pin(Pin::Lower(3));
    assert_eq!(cmd.as_slice(), &[0x80, 0, 0]);
    assert_eq!(reg.lower.pins, [None; 8]);
    assert_eq!((reg.lower.direction, reg.lower.value), (0, 0));
    // freeing a pin never taken is fine
    let cmd = reg.free_pin(Pin::Upper(7));
    assert_eq!(cmd.as_slice(), &[0x82, 0, 0]);
}

#[test]
fn free_drives_pin_back_to_input_low() {
    let mut reg = PinRegistry::new(ChipType::FT232H, Interface::A);
    let cmd = claim_output(&mut reg, Pin::Lower(5)).unwrap();
    assert_eq!(cmd.as_slice(), &[0x80, 0, 0x20]);
    let cmd = reg.set_level(Pin::Lower(5), true);
    assert_eq!(cmd.as_slice(), &[0x80, 0x20, 0x20]);
    let cmd = reg.free_pin(Pin::Lower(5));
    assert_eq!(cmd.as_slice(), &[0x80, 0, 0]);
    assert_eq!(reg.lower.pins[5], None);
}

#[test]
fn double_allocation_names_the_holder() {
    let mut reg = PinRegistry::new(ChipType::FT232H, Interface::A);
    reg.alloc_pin(Pin::Lower(1), PinUse::I2c).unwrap();
    let r = reg.alloc_pin(Pin::Lower(1), PinUse::Spi);
    assert!(matches!(
        r,
        Err(FtdiError::PinInUsed { pin: Pin::Lower(1), purpose: PinUse::Spi, current: PinUse::I2c })
    ));
    assert_eq!(reg.lower.pins[1], Some(PinUse::I2c));
}

#[test]
fn pins_out_of_range_and_wrong_channel() {
    let mut reg = PinRegistry::new(ChipType::FT4232H, Interface::A);
    assert!(matches!(reg.alloc_pin(Pin::Upper(0), PinUse::Output), Err(FtdiError::PinNotVaild { .. })));
    assert!(matches!(reg.alloc_pin(Pin::Lower(8), PinUse::Output), Err(FtdiError::PinNotVaild { .. })));
    let mut reg = PinRegistry::new(ChipType::FT2232D, Interface::A);
    assert!(reg.alloc_pin(Pin::Upper(3), PinUse::Output).is_ok());
    assert!(matches!(reg.alloc_pin(Pin::Upper(4), PinUse::Output), Err(FtdiError::PinNotVaild { .. })));
    let mut reg = PinRegistry::new(ChipType::FT4232H, Interface::C);
    assert!(matches!(
        reg.alloc_pin(Pin::Lower(0), PinUse::I2c),
        Err(FtdiError::IncorrectUsage { usage: PinUse::I2c, .. })
    ));
    assert!(reg.alloc_pin(Pin::Lower(0), PinUse::Output).is_ok());
}

#[test]
fn claiming_a_group_is_all_or_nothing() {
    let mut reg = PinRegistry::new(ChipType::FT232H, Interface::A);
    claim_pins(&mut reg, &[Pin::Lower(0), Pin::Lower(1)], PinUse::I2c).unwrap();
    let r = claim_pins(&mut reg, &[Pin::Lower(2), Pin::Lower(1)], PinUse::Spi);
    assert!(matches!(r, Err(FtdiError::PinInUsed { current: PinUse::I2c, .. })));
    assert_eq!(reg.lower.pins[2], None);
    let cmd = release_pins(&mut reg, &[Pin::Lower(0), Pin::Lower(1)]);
    assert_eq!(cmd.as_slice(), &[0x80, 0, 0, 0x82, 0, 0]);
    assert_eq!(reg.lower.pins, [None; 8]);
}

#[test]
fn input_pins_read_their_level() {
    let mut reg = PinRegistry::new(ChipType::FT232H, Interface::A);
    let cmd = claim_input(&mut reg, Pin::Upper(2)).unwrap();
    assert_eq!(cmd.as_slice(), &[0x82, 0, 0]);
    assert_eq!(reg.upper.pins[2], Some(PinUse::Input));
    let read = read_bank_command(Pin::Upper(2));
    assert_eq!(read.as_slice(), &[0x83]);
    assert_eq!(read.read_len(), 1);
    assert!(pin_level(0b0000_0100, Pin::Upper(2)));
    assert!(!pin_level(0b1111_1011, Pin::Upper(2)));
}

#[test]
fn bulk_in_packets_lose_their_status_bytes() {
    let mut got = Vec::new();
    absorb_packet(&mut got, &[0x32, 0x60], 3).unwrap();
    assert!(got.is_empty());
    absorb_packet(&mut got, &[0x32, 0x60, 1, 2], 3).unwrap();
    absorb_packet(&mut got, &[0x32, 0x60, 3, 4, 5], 3).unwrap();
    assert_eq!(got, vec![1, 2, 3]);
    let r = absorb_packet(&mut got, &[0xfa, 0x8e, 0], 5);
    assert!(matches!(r, Err(FtdiError::BadMpsseCommand(0x8e))));
    assert_eq!(got, vec![1, 2, 3]);
}

#[test]
fn control_values_and_known_devices() {
    assert_eq!(bitmode_value(0, BitMode::Mpsse), 0x0200);
    assert_eq!(bitmode_value(0x0b, BitMode::Reset), 0x000b);
    assert_eq!(fallback_chip(0x0403, 0x6014), Some(ChipType::FT232H));
    assert_eq!(fallback_chip(0x0403, 0x6010), Some(ChipType::FT2232H));
    assert_eq!(fallback_chip(0x15ba, 0x0004), Some(ChipType::FT2232C));
    assert_eq!(fallback_chip(0x15ba, 0x002b), Some(ChipType::FT2232H));
    assert_eq!(fallback_chip(0x1234, 0x0001), None);
}

use ftdi_tools::i2c::{
    after_exchange, exchange_verdict, fast_command, mpsse_rate, parse_fast_response, scan_responders,
    start_command, stop_command, transaction_plan, I2cCheck, I2cCmdBuilder, I2cOperation,
    NoAckSource,
};
use ftdi_tools::mpsse::{BankSnapshot, PinRegistry};
use ftdi_tools::spi::{
    clock_idle_level, device_command, half_duplex_read_command, read_command, set_mode,
    split_response, transfer_command, write_command, FtdiSpiError, SpiMode, SpiOperation,
};
use ftdi_tools::swd::{
    build_request, decode_ack, enable_command, parity32, parse_read_data, read_after_ack,
    read_request_command, write_after_ack, FtdiSwdError, SwdAddr,
};
use ftdi_tools::{ChipType, Interface, Pin, PinUse};

fn idle_bank() -> BankSnapshot {
    BankSnapshot { lower_value: 0, lower_direction: 0, upper_value: 0, upper_direction: 0, direction_pin: None }
}

#[test]
fn i2c_start_and_stop_conditions() {
    assert_eq!(start_command(idle_bank(), 1).as_slice(), &[0x80, 3, 3, 0x80, 1, 3, 0x80, 0, 3]);
    assert_eq!(stop_command(idle_bank(), 1).as_slice(), &[0x80, 0, 3, 0x80, 1, 3, 0x80, 3, 3]);
    assert_eq!(start_command(idle_bank(), 3).as_slice().len(), 27);
}

#[test]
fn i2c_direction_pin_enables_the_sda_driver() {
    let bank = BankSnapshot { direction_pin: Some(Pin::Lower(4)), lower_direction: 0x10, ..idle_bank() };
    assert_eq!(start_command(bank, 1).as_slice(), &[0x80, 0x13, 0x13, 0x80, 0x11, 0x13, 0x80, 0x10, 0x13]);
    let bank = BankSnapshot { direction_pin: Some(Pin::Upper(1)), upper_direction: 2, ..idle_bank() };
    assert_eq!(stop_command(bank, 1).as_slice()[0..6], [0x80, 0, 3, 0x82, 2, 2]);
}

#[test]
fn i2c_address_byte_is_address_shifted_with_direction_bit() {
    let mut b = I2cCmdBuilder::new(idle_bank());
    b.i2c_addr(0x44, true);
    assert_eq!(b.cmd.as_slice(), &[0x13, 7, 0x89, 0x80, 0, 1, 0x22, 0]);
    assert_eq!(b.cmd.read_len(), 1);
    let mut b = I2cCmdBuilder::new(idle_bank());
    b.i2c_addr(0x48, false);
    assert_eq!(b.cmd.as_slice()[2], 0x90);
    let mut b = I2cCmdBuilder::new(idle_bank());
    b.i2c_addr(0x7f, true);
    assert_eq!(b.cmd.as_slice()[2], 0xff);
}

#[test]
fn i2c_byte_read_and_write() {
    let mut b = I2cCmdBuilder::new(idle_bank());
    b.i2c_read(true);
    b.i2c_read(false);
    b.i2c_write(0xa5);
    assert_eq!(
        b.cmd.as_slice(),
        &[
            0x80, 0, 1, 0x22, 7, 0x80, 0, 3, 0x13, 0, 0, 0x80, 0, 1, 0x22, 7, 0x80, 0, 3, 0x13, 0,
            0xff, 0x80, 0, 3, 0x13, 7, 0xa5, 0x80, 0, 1, 0x22, 0
        ]
    );
    assert_eq!(b.cmd.read_len(), 3);
}

fn lm75_ops() -> Vec<I2cOperation> {
    vec![I2cOperation::Write(vec![0x00]), I2cOperation::Read(2)]
}

#[test]
fn i2c_lm75_transaction_plan() {
    let plan = transaction_plan(idle_bank(), 3, 0x48, &lm75_ops());
    let checks: Vec<I2cCheck> = plan.iter().map(|e| e.check).collect();
    assert_eq!(
        checks,
        vec![
            I2cCheck::NoResponse,
            I2cCheck::Address,
            I2cCheck::LastData,
            I2cCheck::Address,
            I2cCheck::ReadInto(1),
            I2cCheck::NoResponse
        ]
    );
    let lens: Vec<usize> = plan.iter().map(|e| e.cmd.read_len()).collect();
    assert_eq!(lens, vec![0, 1, 1, 1, 2, 0]);
    assert_eq!(plan[1].cmd.as_slice()[2], 0x90);
    // repeated start, then the read address
    let rs = plan[3].cmd.as_slice();
    assert_eq!(&rs[0..3], &[0x80, 2, 3]);
    assert_eq!(rs[3 * 12 + 2], 0x91);
}

#[test]
fn i2c_lm75_fast_read_decodes_temperature() {
    let plan = transaction_plan(idle_bank(), 3, 0x48, &lm75_ops());
    let cmd = fast_command(&plan);
    assert_eq!(cmd.read_len(), 5);
    let reads = parse_fast_response(&plan, &[0, 0, 0, 0x19, 0x80], false).unwrap();
    assert_eq!(reads, vec![vec![0x19, 0x80]]);
    let raw = i16::from_be_bytes([reads[0][0], reads[0][1]]) >> 7;
    assert_eq!(raw as f32 * 0.5, 25.5);
}

#[test]
fn i2c_missing_slave_is_an_address_nack() {
    let plan = transaction_plan(idle_bank(), 3, 0x48, &lm75_ops());
    assert_eq!(parse_fast_response(&plan, &[1, 0, 0, 0, 0], false), Err(NoAckSource::Address));
    assert_eq!(exchange_verdict(I2cCheck::Address, &[0xff], false), Some(NoAckSource::Address));
    assert_eq!(exchange_verdict(I2cCheck::Address, &[0xfe], false), None);
}

#[test]
fn i2c_nack_on_last_written_byte_is_accepted_unless_strict() {
    let plan = transaction_plan(idle_bank(), 1, 0x48, &lm75_ops());
    assert!(parse_fast_response(&plan, &[0, 1, 0, 7, 7], false).is_ok());
    assert_eq!(parse_fast_response(&plan, &[0, 1, 0, 7, 7], true), Err(NoAckSource::Data));
    let ops = vec![I2cOperation::Write(vec![1, 2])];
    let plan = transaction_plan(idle_bank(), 1, 0x20, &ops);
    assert_eq!(parse_fast_response(&plan, &[0, 1, 0], false), Err(NoAckSource::Data));
    assert_eq!(exchange_verdict(I2cCheck::Data, &[1], false), Some(NoAckSource::Data));
    assert_eq!(exchange_verdict(I2cCheck::LastData, &[1], false), None);
}

#[test]
fn i2c_serial_nack_sends_stop() {
    assert!(after_exchange(idle_bank(), 1, I2cCheck::Address, &[0], false).is_ok());
    match after_exchange(idle_bank(), 1, I2cCheck::Address, &[1], false) {
        Err((NoAckSource::Address, stop)) => {
            assert_eq!(stop.as_slice(), &[0x80, 0, 3, 0x80, 1, 3, 0x80, 3, 3])
        }
        _ => panic!("address nack expected"),
    }
    assert!(after_exchange(idle_bank(), 1, I2cCheck::ReadInto(0), &[1, 1], true).is_ok());
}

#[test]
fn i2c_consecutive_writes_share_one_address_phase() {
    let ops = vec![I2cOperation::Write(vec![1]), I2cOperation::Write(vec![2, 3]), I2cOperation::Read(0)];
    let plan = transaction_plan(idle_bank(), 1, 0x10, &ops);
    let checks: Vec<I2cCheck> = plan.iter().map(|e| e.check).collect();
    assert_eq!(
        checks,
        vec![
            I2cCheck::NoResponse,
            I2cCheck::Address,
            I2cCheck::LastData,
            I2cCheck::Data,
            I2cCheck::LastData,
            I2cCheck::Address,
            I2cCheck::NoResponse
        ]
    );
}

#[test]
fn i2c_scan_finds_the_one_device() {
    let mut acked = vec![false; 128];
    acked[0x44] = true;
    assert_eq!(scan_responders(&acked), vec![0x44]);
    assert!(scan_responders(&[false; 128]).is_empty());
    assert_eq!(mpsse_rate(100_000), 150_000);
}

#[test]
fn swd_request_bytes() {
    assert_eq!(build_request(true, SwdAddr::Dp(0)), 0xa5);
    assert_eq!(build_request(false, SwdAddr::Dp(8)), 0xb1);
    assert_eq!(build_request(true, SwdAddr::Dp(0xc)), 0xbd);
    assert_eq!(build_request(true, SwdAddr::Ap(0xc)), 0x9f);
    assert_eq!(build_request(false, SwdAddr::Ap(0)), 0xa3);
    assert_eq!(u8::from(SwdAddr::Ap(4)), 0x0a);
    assert_eq!(u8::from(SwdAddr::Dp(8)), 0x10);
}

#[test]
fn swd_parity_is_popcount_mod_2() {
    assert_eq!(parity32(0), 0);
    assert_eq!(parity32(1), 1);
    assert_eq!(parity32(0xffff_ffff), 0);
    assert_eq!(parity32(0x8000_0001), 0);
    assert_eq!(parity32(0x0700_0000), 1);
    assert_eq!(parity32(0x2ba0_1477), (0x2ba0_1477u32.count_ones() & 1) as u8);
}

#[test]
fn swd_idcode_read_parses_with_parity() {
    let resp = [0x77, 0x14, 0xa0, 0x2b, 0x00];
    assert_eq!(parse_read_data(&resp).ok(), Some(0x2ba0_1477));
    let bad = [0x77, 0x14, 0xa0, 0x2b, 0x80];
    assert!(matches!(parse_read_data(&bad), Err(FtdiSwdError::ParityError)));
    let odd = [0x01, 0, 0, 0, 0x80];
    assert_eq!(parse_read_data(&odd).ok(), Some(1));
}

#[test]
fn swd_write_frame_reads_back_through_loopback() {
    for w in [0u32, 1, 0xdead_beef, 0x2ba0_1477, 0xffff_ffff, 0x8000_0000] {
        let cmd = write_after_ack(idle_bank(), 0x20, w).ok().unwrap();
        let bytes = cmd.as_slice();
        // out: set bank, 4 data bytes, then one parity bit
        assert_eq!(&bytes[0..3], &[0x80, 0, 3]);
        assert_eq!(&bytes[3..6], &[0x19, 3, 0]);
        let data = &bytes[6..10];
        assert_eq!(&bytes[10..12], &[0x1b, 0]);
        let parity_bit = bytes[12] & 1;
        let looped = [data[0], data[1], data[2], data[3], parity_bit << 7];
        assert_eq!(parse_read_data(&looped).ok(), Some(w));
    }
}

#[test]
fn swd_acknowledge_outcomes() {
    assert!(decode_ack(0x20).is_ok());
    assert!(matches!(decode_ack(0x40), Err(FtdiSwdError::AckWait)));
    assert!(matches!(decode_ack(0x80), Err(FtdiSwdError::AckFailed)));
    assert!(matches!(decode_ack(0xe0), Err(FtdiSwdError::UnknownAck(7))));
    assert!(matches!(decode_ack(0x00), Err(FtdiSwdError::UnknownAck(0))));
    match read_after_ack(idle_bank(), 0x40) {
        Err((FtdiSwdError::AckWait, trn)) => assert_eq!(trn.as_slice(), &[0x80, 0, 1, 0x1b, 0, 0xff]),
        _ => panic!("wait expected"),
    }
    let data = read_after_ack(idle_bank(), 0x20).ok().unwrap();
    assert_eq!(data.read_len(), 5);
    assert!(matches!(write_after_ack(idle_bank(), 0x80, 5), Err(FtdiSwdError::AckFailed)));
}

#[test]
fn swd_activation_and_request_commands() {
    let mut expected = vec![0x80, 0, 3, 0x19, 6, 0];
    expected.extend([0xff; 7]);
    expected.extend([0x19, 1, 0, 0x9e, 0xe7]);
    expected.extend([0x80, 0, 3, 0x19, 6, 0]);
    expected.extend([0xff; 7]);
    expected.extend([0x1b, 1, 0]);
    assert_eq!(enable_command(idle_bank()).as_slice(), expected.as_slice());
    let req = read_request_command(idle_bank(), SwdAddr::Dp(0));
    assert_eq!(
        req.as_slice(),
        &[0x80, 0, 3, 0x19, 0, 0, 0xa5, 0x80, 0, 1, 0x1b, 0, 0xff, 0x80, 0, 1, 0x2a, 2]
    );
    assert_eq!(req.read_len(), 1);
}

#[test]
fn spi_modes() {
    let m0 = SpiMode { idle_high: false, capture_on_second: false };
    let m1 = SpiMode { idle_high: false, capture_on_second: true };
    let m2 = SpiMode { idle_high: true, capture_on_second: false };
    let m3 = SpiMode { idle_high: true, capture_on_second: true };
    assert_eq!(clock_idle_level(m0).ok(), Some(false));
    assert_eq!(clock_idle_level(m2).ok(), Some(true));
    assert!(matches!(clock_idle_level(m1), Err(FtdiSpiError::NotSupported(_))));
    assert!(matches!(clock_idle_level(m3), Err(FtdiSpiError::NotSupported(_))));
    let mut reg = PinRegistry::new(ChipType::FT232H, Interface::A);
    reg.alloc_pin(Pin::Lower(0), PinUse::Spi).unwrap();
    let (idle, cmd) = set_mode(&mut reg, m2).ok().unwrap();
    assert!(idle);
    assert_eq!(cmd.as_slice(), &[0x80, 1, 0]);
    assert!(set_mode(&mut reg, m3).is_err());
    assert_eq!(reg.lower.value, 1);
}

#[test]
fn spi_jedec_id_transfer() {
    let cmd = transfer_command(false, false, 4, &[0x9f, 0, 0, 0]);
    assert_eq!(cmd.as_slice(), &[0x31, 3, 0, 0x9f, 0, 0, 0]);
    assert_eq!(cmd.read_len(), 4);
    let padded = transfer_command(false, false, 3, &[0x9f]);
    assert_eq!(padded.as_slice(), &[0x31, 2, 0, 0x9f, 0, 0]);
    assert_eq!(read_command(true, true, 2).as_slice(), &[0x2c, 1, 0]);
    assert_eq!(write_command(false, false, &[1, 2]).as_slice(), &[0x11, 1, 0, 1, 2]);
}

#[test]
fn spi_half_duplex_releases_mosi_for_reads() {
    let bank = BankSnapshot { lower_direction: 0x0b, lower_value: 0x08, ..idle_bank() };
    assert_eq!(half_duplex_read_command(bank, false, false, 1).as_slice(), &[0x80, 0x08, 0x09, 0x20, 0, 0]);
}

#[test]
fn spi_device_transaction_is_framed_by_chip_select() {
    let bank = BankSnapshot { lower_direction: 0x0b, lower_value: 0x08, ..idle_bank() };
    let ops = vec![
        SpiOperation::Write(vec![0x9f]),
        SpiOperation::Read(3),
        SpiOperation::DelayNs(10),
        SpiOperation::TransferInPlace(vec![5, 6]),
    ];
    let cmd = device_command(bank, false, false, &ops);
    assert_eq!(
        cmd.as_slice(),
        &[0x80, 0x00, 0x0b, 0x11, 0, 0, 0x9f, 0x20, 2, 0, 0x31, 1, 0, 5, 6, 0x80, 0x08, 0x0b]
    );
    assert_eq!(cmd.read_len(), 5);
    let parts = split_response(&ops, &[0xef, 0x40, 0x18, 0xaa, 0xbb]);
    assert_eq!(parts, vec![vec![0xef, 0x40, 0x18], vec![0xaa, 0xbb]]);
}

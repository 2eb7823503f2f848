use ftdi_tools::mpsse_cmd::{MpsseCmdBuilder, MpsseShiftCmd};

#[test]
fn mpsse_shift_cmd_write_box_test() {
    // AN108 3.3
    assert_eq!(
        0x10u8,
        MpsseShiftCmd::shift(true, false, false, true, false)
    );
    assert_eq!(
        0x11u8,
        MpsseShiftCmd::shift(false, false, false, true, false)
    );
    assert_eq!(0x12u8, MpsseShiftCmd::shift(true, true, false, true, false));
    assert_eq!(
        0x13u8,
        MpsseShiftCmd::shift(false, true, false, true, false)
    );

    assert_eq!(
        0x20u8,
        MpsseShiftCmd::shift(false, false, false, false, true)
    );
    assert_eq!(
        0x24u8,
        MpsseShiftCmd::shift(true, false, false, false, true)
    );
    assert_eq!(
        0x22u8,
        MpsseShiftCmd::shift(false, true, false, false, true)
    );
    assert_eq!(0x26u8, MpsseShiftCmd::shift(true, true, false, false, true));

    assert_eq!(
        0x31u8,
        MpsseShiftCmd::shift(false, false, false, true, true)
    );
    assert_eq!(0x34u8, MpsseShiftCmd::shift(true, false, false, true, true));
    assert_eq!(0x33u8, MpsseShiftCmd::shift(false, true, false, true, true));
    assert_eq!(0x36u8, MpsseShiftCmd::shift(true, true, false, true, true));

    // AN108-3.4
    assert_eq!(0x18u8, MpsseShiftCmd::shift(true, false, true, true, false));
    assert_eq!(
        0x19u8,
        MpsseShiftCmd::shift(false, false, true, true, false)
    );
    assert_eq!(0x1au8, MpsseShiftCmd::shift(true, true, true, true, false));
    assert_eq!(0x1bu8, MpsseShiftCmd::shift(false, true, true, true, false));

    assert_eq!(
        0x28u8,
        MpsseShiftCmd::shift(false, false, true, false, true)
    );
    assert_eq!(0x2cu8, MpsseShiftCmd::shift(true, false, true, false, true));
    assert_eq!(0x2au8, MpsseShiftCmd::shift(false, true, true, false, true));
    assert_eq!(0x2eu8, MpsseShiftCmd::shift(true, true, true, false, true));

    assert_eq!(0x39u8, MpsseShiftCmd::shift(false, false, true, true, true));
    assert_eq!(0x3cu8, MpsseShiftCmd::shift(true, false, true, true, true));
    assert_eq!(0x3bu8, MpsseShiftCmd::shift(false, true, true, true, true));
    assert_eq!(0x3eu8, MpsseShiftCmd::shift(true, true, true, true, true));

    // AN108-3.5
    // NOTE: The table in 3.5 is not correct.
    assert_eq!(0x4au8, MpsseShiftCmd::_tms_shift(true, false, false)); // Not used.
    assert_eq!(0x4au8, MpsseShiftCmd::_tms_shift(true, true, false)); // Not used.
    assert_eq!(0x4bu8, MpsseShiftCmd::_tms_shift(false, false, false));
    assert_eq!(0x4bu8, MpsseShiftCmd::tms_shift(false));
    assert_eq!(0x4bu8, MpsseShiftCmd::_tms_shift(false, true, false)); // Not used.
    assert_eq!(0x6au8, MpsseShiftCmd::_tms_shift(true, false, true)); // Not used.
    assert_eq!(0x6bu8, MpsseShiftCmd::_tms_shift(false, false, true));
    assert_eq!(0x6bu8, MpsseShiftCmd::tms_shift(true));
    assert_eq!(0x6eu8, MpsseShiftCmd::_tms_shift(true, true, true)); // Not used.
    assert_eq!(0x6fu8, MpsseShiftCmd::_tms_shift(false, true, true)); // Not used.
}

#[test]
fn mpsse_shift_cmd_black_box_test() {
    let mut set = Vec::new();
    for i in 0..32u32 {
        let p = [i & 1 != 0, i & 2 != 0, i & 4 != 0, i & 8 != 0, i & 16 != 0];
        if p[3] || p[4] {
            set.push(MpsseShiftCmd::shift(p[0], p[1], p[2], p[3], p[4]));
        }
    }
    for i in 0..8u32 {
        set.push(MpsseShiftCmd::_tms_shift(i & 1 != 0, i & 2 != 0, i & 4 != 0));
    }
    set.sort();
    set.dedup();
    assert_eq!(
        set,
        vec![
            0x10, 0x11, 0x12, 0x13, 0x18, 0x19, 0x1a, 0x1b, 0x20, 0x22, 0x24, 0x26, 0x28, 0x2a,
            0x2c, 0x2e, 0x31, 0x33, 0x34, 0x36, 0x39, 0x3b, 0x3c, 0x3e, 0x4a, 0x4b, 0x6a, 0x6b,
            0x6e, 0x6f
        ]
    );
}

#[test]
fn response_length_counts_every_reading_command() {
    let mut b = MpsseCmdBuilder::new();
    b.gpio_lower();
    b.gpio_upper();
    b.shift_bytes_in(false, false, 10);
    b.shift_bits_in(false, true, 3);
    b.clock_tms(true, 1, 1);
    b.shift_bytes_out(false, false, &[1, 2, 3]);
    b.shift_bits_out(false, false, 0xaa, 8);
    b.clock_tms_out(false, 0x1f, 6);
    b.shift_bits(false, true, 0x55, 8);
    b.shift_bytes(false, true, &[9, 8, 7, 6, 5]);
    b.set_gpio_lower(1, 3);
    assert_eq!(b.read_len(), 2 + 10 + 1 + 1 + 1 + 5);
    let (cmd, resp) = b.destruct();
    assert_eq!(resp, vec![0u8; 20]);
    assert_eq!(*cmd.last().unwrap(), 0x87);
}

#[test]
fn zero_length_shifts_emit_nothing() {
    let mut b = MpsseCmdBuilder::new();
    b.shift_bytes_out(false, false, &[]);
    b.shift_bytes_in(false, false, 0);
    b.shift_bytes(true, true, &[]);
    b.shift_bits_out(false, false, 0, 0);
    b.shift_bits_in(false, false, 0);
    b.clock_tms_out(true, 0, 0);
    assert!(b.as_slice().is_empty());
    assert_eq!(b.read_len(), 0);
}

#[test]
fn long_byte_shifts_are_cut_at_65536() {
    let data: Vec<u8> = (0..(65536 * 2 + 5)).map(|i| (i % 251) as u8).collect();
    let mut b = MpsseCmdBuilder::new();
    b.shift_bytes_out(false, false, &data);
    let out = b.as_slice();
    assert_eq!(out.len(), 3 * 3 + data.len());
    assert_eq!(&out[0..3], &[0x11, 0xff, 0xff]);
    assert_eq!(&out[3..65539], &data[0..65536]);
    assert_eq!(&out[65539..65542], &[0x11, 0xff, 0xff]);
    assert_eq!(&out[65542..131078], &data[65536..131072]);
    assert_eq!(&out[131078..131081], &[0x11, 4, 0]);
    assert_eq!(&out[131081..], &data[131072..]);
    assert_eq!(b.read_len(), 0);

    let mut r = MpsseCmdBuilder::new();
    r.shift_bytes_in(false, false, 65537);
    assert_eq!(r.as_slice(), &[0x20, 0xff, 0xff, 0x20, 0, 0]);
    assert_eq!(r.read_len(), 65537);

    let mut e = MpsseCmdBuilder::new();
    e.shift_bytes_in(false, false, 65536);
    assert_eq!(e.as_slice(), &[0x20, 0xff, 0xff]);
}

#[test]
fn fixed_opcodes() {
    let mut b = MpsseCmdBuilder::new();
    b.set_clock(0x1234, Some(true));
    b.set_clock(5, None);
    b.enable_loopback(true);
    b.enable_loopback(false);
    b.enable_3phase_data_clocking(true);
    b.enable_3phase_data_clocking(false);
    b.enable_adaptive_clocking(true);
    b.enable_adaptive_clocking(false);
    b.set_gpio_upper(0x0f, 0xf0);
    b.send_immediate();
    b._wait_on_io_high();
    b._wait_on_io_low();
    assert_eq!(
        b.as_slice(),
        &[
            0x8b, 0x86, 0x34, 0x12, 0x86, 5, 0, 0x84, 0x85, 0x8c, 0x8d, 0x96, 0x97, 0x82, 0x0f,
            0xf0, 0x87, 0x88, 0x89
        ]
    );
}

#[test]
fn tms_payload_carries_tdi_in_bit_7() {
    let mut b = MpsseCmdBuilder::new();
    b.clock_tms_out(true, 0b0001_1111, 6);
    b.clock_tms(false, 1, 1);
    assert_eq!(b.as_slice(), &[0x4b, 5, 0x9f, 0x6b, 0, 1]);
    assert_eq!(b.read_len(), 1);
}

#[test]
fn appended_builders_keep_both_answers() {
    let mut a = MpsseCmdBuilder::new();
    a.gpio_lower();
    let mut b = MpsseCmdBuilder::new();
    b.shift_bytes_in(true, true, 3);
    a.append(&b);
    assert_eq!(a.as_slice(), &[0x81, 0x2c, 2, 0]);
    assert_eq!(a.read_len(), 4);
}

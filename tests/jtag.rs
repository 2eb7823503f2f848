use ftdi_tools::jtag::hw_jtag::{
    goto_idle_command, read_command, scan_chunk_command, scan_start_command, write_command,
    write_read_command, IdcodeScanner, JtagCmdBuilder,
};
use ftdi_tools::jtag::jtag_detect::{pinout_confirmed, reset2dr, tdi_probe, tdo_candidates, tdo_probe};
use ftdi_tools::FtdiError;

const DAP: u32 = 0x3ba0_0477;

fn id_bytes(ids: &[u32]) -> Vec<u8> {
    ids.iter().flat_map(|id| id.to_le_bytes()).collect()
}

#[test]
fn tap_moves() {
    assert_eq!(goto_idle_command().as_slice(), &[0x4b, 5, 0x9f]);
    assert_eq!(scan_start_command().as_slice(), &[0x4b, 5, 0x9f, 0x4b, 2, 0x81]);
    let mut b = JtagCmdBuilder::new();
    b.jtag_idle2ir();
    b.jtag_ir_exit2dr();
    b.jtag_dr_exit2idle();
    b.jtag_idle_cycle();
    assert_eq!(b.0.as_slice(), &[0x4b, 3, 0x83, 0x4b, 3, 0x83, 0x4b, 1, 0x81, 0x4b, 6, 0x80]);
}

#[test]
fn shifts_end_with_a_tms_bit() {
    let mut b = JtagCmdBuilder::new();
    b.jtag_shift(&[0xab, 0x0d], 12);
    assert_eq!(b.0.as_slice(), &[0x39, 0, 0, 0xab, 0x3b, 2, 0x0d, 0x6b, 0, 0x81]);
    assert_eq!(b.0.read_len(), 3);
    let mut w = JtagCmdBuilder::new();
    w.jtag_shift_write(&[0x05], 4);
    assert_eq!(w.0.as_slice(), &[0x1b, 2, 0x05, 0x4b, 0, 0x01]);
    let mut r = JtagCmdBuilder::new();
    r.jtag_shift_read(8);
    assert_eq!(r.0.as_slice(), &[0x2a, 6, 0x6b, 0, 0x01]);
    assert_eq!(r.0.read_len(), 2);
    let mut one = JtagCmdBuilder::new();
    one.jtag_shift_write(&[0x01], 1);
    assert_eq!(one.0.as_slice(), &[0x4b, 0, 0x81]);
}

#[test]
fn shift_answers_are_realigned() {
    let r = JtagCmdBuilder::jtag_parse_single_shift(&[0xab, 0xa0, 0x80], 12);
    assert_eq!(r, vec![0xab, 0x0d]);
    let r = JtagCmdBuilder::jtag_parse_single_shift(&[0x11, 0x80], 9);
    assert_eq!(r, vec![0x11, 0x01]);
}

#[test]
fn ir_dr_operation_commands() {
    let w = write_command(true, &[0x0e], 4, &[0x12, 0x34], 16);
    assert_eq!(w.read_len(), 0);
    assert_eq!(&w.as_slice()[0..3], &[0x4b, 3, 0x83]);
    let r = read_command(false, &[0x0e], 4, 32);
    assert_eq!(&r.as_slice()[0..3], &[0x4b, 5, 0x9f]);
    assert_eq!(r.read_len(), 3 + 1 + 1);
    let wr = write_read_command(true, &[0x0e], 4, &[1, 2, 3, 4], 32);
    assert_eq!(wr.read_len(), 5);
}

#[test]
fn chain_scan_single_dap_with_tdi_high() {
    let chunk = scan_chunk_command(true);
    assert_eq!(chunk.as_slice(), &[0x39, 7, 0, 0xff, 0xff, 0xff, 0xff, 0xff, 0xff, 0xff, 0xff]);
    assert_eq!(chunk.read_len(), 8);
    let mut s = IdcodeScanner::new();
    let mut tdo = id_bytes(&[DAP]);
    tdo.extend([0xff; 4]);
    assert!(s.feed_bytes(&tdo));
    assert_eq!(s.chain(), vec![Some(DAP)]);
}

#[test]
fn idcode_parser_reads_ids_then_stops_on_32_zeros() {
    let ids = [DAP, 0x0641_3041, 0x4ba0_0477];
    let mut tdo = id_bytes(&ids);
    tdo.extend([0u8; 4]);
    let mut s = IdcodeScanner::new();
    assert!(s.feed_bytes(&tdo));
    assert_eq!(s.chain(), vec![Some(DAP), Some(0x0641_3041), Some(0x4ba0_0477)]);
    let mut more = IdcodeScanner::new();
    more.feed_bytes(&id_bytes(&[DAP]));
    assert!(!more.is_done());
    assert_eq!(more.chain(), vec![Some(DAP)]);
}

#[test]
fn bypassed_devices_show_as_single_zero_bits() {
    // one device in bypass (a single 0 bit) before the DAP's IDCODE
    let bits: Vec<bool> = std::iter::once(false)
        .chain((0..32).map(|i| (DAP >> i) & 1 == 1))
        .chain(std::iter::repeat(true).take(32))
        .collect();
    let samples: Vec<u8> = bits.iter().map(|&b| if b { 0x04 } else { 0 }).collect();
    let mut s = IdcodeScanner::new();
    assert!(s.feed_samples(&samples, 0x04));
    assert_eq!(s.chain(), vec![None, Some(DAP)]);
    assert_eq!(s.slots(), vec![0, DAP]);
}

fn chain_samples(tdi: bool) -> Vec<u8> {
    let bits: Vec<bool> = (0..32).map(|i| (DAP >> i) & 1 == 1).chain(std::iter::repeat(tdi).take(32)).collect();
    bits.iter().map(|&b| if b { 0x04 } else { 0 }).collect()
}

#[test]
fn detector_identity_on_a_correct_pinout() {
    let mut low = IdcodeScanner::new();
    assert!(low.feed_samples(&chain_samples(false), 0x04));
    let mut high = IdcodeScanner::new();
    assert!(high.feed_samples(&chain_samples(true), 0x04));
    let (r0, r1) = (low.slots(), high.slots());
    assert_eq!(r1, vec![DAP]);
    assert_eq!(r0.len(), 33);
    assert!(pinout_confirmed(r0.len(), r1.len()));
    assert!(!pinout_confirmed(r1.len(), r1.len()));
    assert!(!pinout_confirmed(5, 0));
}

#[test]
fn detector_finds_tdo_on_ad2() {
    let probe = tdo_probe(0, 3).ok().unwrap();
    assert_eq!((probe.tck_mask, probe.tms_mask), (0x01, 0x08));
    // AD2 carries the DAP's IDCODE; AD5 is stuck high; the others stay low.
    let samples: Vec<u8> = (0..64)
        .map(|i| {
            let tdo = if i < 32 && (DAP >> i) & 1 == 1 { 0x04 } else { 0 };
            tdo | 0x20 | 0x01
        })
        .collect();
    assert_eq!(tdo_candidates(&probe, &samples), vec![2]);
    assert_eq!(probe.shift_dr(2).as_slice(), &[0x80, 0, 0x09, 0x80, 0x01, 0x09, 0x81, 0x80, 0, 0x09, 0x80, 0x01, 0x09, 0x81]);
    assert_eq!(probe.shift_dr(64).read_len(), 64);
}

#[test]
fn detector_probes_need_distinct_pins() {
    assert!(matches!(tdo_probe(2, 2), Err(FtdiError::Other(_))));
    assert!(matches!(tdo_probe(8, 1), Err(FtdiError::Other(_))));
    assert!(matches!(tdi_probe(0, 1, 1, 3), Err(FtdiError::Other(_))));
    let p = tdi_probe(0, 1, 2, 3).ok().unwrap();
    assert_eq!((p.tck_mask, p.tdi_mask, p.tdo_mask, p.tms_mask), (1, 2, 4, 8));
    assert_eq!(p.shift_dr(true, 1).as_slice(), &[0x80, 0x02, 0xfb, 0x80, 0x03, 0xfb, 0x81]);
}

#[test]
fn reset_to_shift_dr_by_bank_writes() {
    let cmd = reset2dr(0x01, 0x08);
    let b = cmd.as_slice();
    assert_eq!(b.len(), 3 + 9 * 6);
    assert_eq!(&b[0..3], &[0x80, 0x01, 0x09]);
    assert_eq!(&b[3..9], &[0x80, 0x08, 0x09, 0x80, 0x09, 0x09]);
    assert_eq!(&b[33..39], &[0x80, 0x00, 0x09, 0x80, 0x01, 0x09]);
    assert_eq!(&b[39..45], &[0x80, 0x08, 0x09, 0x80, 0x09, 0x09]);
    assert_eq!(cmd.read_len(), 0);
}

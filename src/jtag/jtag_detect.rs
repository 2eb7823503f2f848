//! Blind discovery of the JTAG pins among the lower bank, by driving TCK
//! and TMS on candidate pins and watching the other pins for IDCODEs.
use crate::i2c::rep;
use crate::jtag::hw_jtag::{project, scan_from, scan_init, IdcodeScanner, ScanState};
use crate::mpsse_cmd::{MpsseCmdBuilder, GET_GPIO_LOWER, SET_GPIO_LOWER};
use crate::{bit_mask, FtdiError};
use vstd::prelude::*;

verus! {

/// Bank samples taken while shifting DR in the first phase: two IDCODEs'
/// worth.
pub const TDO_SAMPLES: usize = 64;

/// TCK and TMS of a first-phase probe, as bank bits.
#[derive(Clone, Copy)]
pub struct TdoProbe {
    pub tck_mask: u8,
    pub tms_mask: u8,
}

/// TCK, TDI, TDO and TMS of a second-phase probe, as bank bits.
#[derive(Clone, Copy)]
pub struct TdiProbe {
    pub tck_mask: u8,
    pub tdi_mask: u8,
    pub tdo_mask: u8,
    pub tms_mask: u8,
}

/// Choose TCK and TMS among the lower pins; they must differ.
pub fn tdo_probe(tck: usize, tms: usize) -> (r: Result<TdoProbe, FtdiError>)
    ensures
        tck < 8 && tms < 8 && tck != tms ==> r == Ok::<TdoProbe, FtdiError>(
            TdoProbe { tck_mask: bit_mask(tck as int), tms_mask: bit_mask(tms as int) },
        ),
        !(tck < 8 && tms < 8 && tck != tms) ==> r is Err,
{
    if tck >= 8 || tms >= 8 || tck == tms {
        return Err(FtdiError::Other("tck cannot be same to tms."));
    }
    Ok(TdoProbe { tck_mask: 1u8 << (tck as u8), tms_mask: 1u8 << (tms as u8) })
}

/// Choose TCK, TDI, TDO and TMS among the lower pins; all must differ.
pub fn tdi_probe(tck: usize, tdi: usize, tdo: usize, tms: usize) -> (r: Result<TdiProbe, FtdiError>)
    ensures
        ({
            let ok = tck < 8 && tdi < 8 && tdo < 8 && tms < 8 && tck != tdi && tck != tdo && tck
                != tms && tdi != tdo && tdi != tms && tdo != tms;
            &&& ok ==> r == Ok::<TdiProbe, FtdiError>(
                TdiProbe {
                    tck_mask: bit_mask(tck as int),
                    tdi_mask: bit_mask(tdi as int),
                    tdo_mask: bit_mask(tdo as int),
                    tms_mask: bit_mask(tms as int),
                },
            )
            &&& !ok ==> r is Err
        }),
{
    if tck >= 8 || tdi >= 8 || tdo >= 8 || tms >= 8 || tck == tdi || tck == tdo || tck == tms || tdi
        == tdo || tdi == tms || tdo == tms {
        return Err(FtdiError::Other("any one of tck/tms/tdi/tdo cannot be same to others."));
    }
    Ok(
        TdiProbe {
            tck_mask: 1u8 << (tck as u8),
            tdi_mask: 1u8 << (tdi as u8),
            tdo_mask: 1u8 << (tdo as u8),
            tms_mask: 1u8 << (tms as u8),
        },
    )
}

/// One TCK cycle driven by bank writes: TCK low with TMS at `tms`, then TCK
/// high.
pub open spec fn tck_cycle(tck: u8, tms: u8, dir: u8, tms_high: bool) -> Seq<u8> {
    let t: u8 = if tms_high {
        tms
    } else {
        0u8
    };
    seq![SET_GPIO_LOWER, t, dir, SET_GPIO_LOWER, (tck | t) as u8, dir]
}

/// To Test-Logic-Reset (TMS high five times), then Run-Test/Idle,
/// Select-DR, Capture-DR and Shift-DR (TMS 0, 1, 0, 0), by bank writes.
pub open spec fn reset2dr_seq(tck: u8, tms: u8) -> Seq<u8> {
    let dir = (tck | tms) as u8;
    seq![SET_GPIO_LOWER, tck, dir] + rep(tck_cycle(tck, tms, dir, true), 5) + tck_cycle(
        tck,
        tms,
        dir,
        false,
    ) + tck_cycle(tck, tms, dir, true) + tck_cycle(tck, tms, dir, false) + tck_cycle(
        tck,
        tms,
        dir,
        false,
    )
}

fn push_tck_cycle(cmd: &mut MpsseCmdBuilder, tck: u8, tms: u8, dir: u8, tms_high: bool)
    requires
        old(cmd).wf(),
    ensures
        final(cmd).wf(),
        final(cmd).response_len() == old(cmd).response_len(),
        final(cmd).bytes() == old(cmd).bytes() + tck_cycle(tck, tms, dir, tms_high),
{
    let ghost b0 = cmd.bytes();
    let t: u8 = if tms_high {
        tms
    } else {
        0
    };
    cmd.set_gpio_lower(t, dir);
    cmd.set_gpio_lower(tck | t, dir);
    assert(cmd.bytes() =~= b0 + tck_cycle(tck, tms, dir, tms_high));
}

/// Reset the TAP and walk it to Shift-DR with only TCK and TMS as outputs.
pub fn reset2dr(tck_mask: u8, tms_mask: u8) -> (cmd: MpsseCmdBuilder)
    ensures
        cmd.wf(),
        cmd.response_len() == 0,
        cmd.bytes() == reset2dr_seq(tck_mask, tms_mask),
{
    let dir = tck_mask | tms_mask;
    let mut cmd = MpsseCmdBuilder::new();
    cmd.set_gpio_lower(tck_mask, dir);
    let ghost head = cmd.bytes();
    let ghost cyc = tck_cycle(tck_mask, tms_mask, dir, true);
    let mut i: usize = 0;
    assert(head + rep(cyc, 0) =~= head);
    while i < 5
        invariant
            i <= 5,
            dir == tck_mask | tms_mask,
            cyc == tck_cycle(tck_mask, tms_mask, dir, true),
            cmd.wf(),
            cmd.response_len() == 0,
            cmd.bytes() == head + rep(cyc, i as int),
        decreases 5 - i,
    {
        push_tck_cycle(&mut cmd, tck_mask, tms_mask, dir, true);
        i = i + 1;
        assert(head + rep(cyc, i as int) =~= head + rep(cyc, i - 1) + cyc);
    }
    push_tck_cycle(&mut cmd, tck_mask, tms_mask, dir, false);
    push_tck_cycle(&mut cmd, tck_mask, tms_mask, dir, true);
    push_tck_cycle(&mut cmd, tck_mask, tms_mask, dir, false);
    push_tck_cycle(&mut cmd, tck_mask, tms_mask, dir, false);
    assert(head =~= seq![SET_GPIO_LOWER, tck_mask, dir]);
    assert(cmd.bytes() =~= reset2dr_seq(tck_mask, tms_mask));
    cmd
}

/// One DR clock with a sample: TCK low, TCK high (TMS low, TDI at `tdi`),
/// then read the bank.
pub open spec fn sample_cycle(tck: u8, tdi: u8, dir: u8) -> Seq<u8> {
    seq![SET_GPIO_LOWER, tdi, dir, SET_GPIO_LOWER, (tdi | tck) as u8, dir, GET_GPIO_LOWER]
}

/// `len` DR clocks, each sampling the bank after the rising edge (one
/// answer byte per clock).
pub fn sample_dr(tck_mask: u8, tdi: u8, dir: u8, len: usize) -> (cmd: MpsseCmdBuilder)
    ensures
        cmd.wf(),
        cmd.response_len() == len,
        cmd.bytes() == rep(sample_cycle(tck_mask, tdi, dir), len as int),
{
    let ghost cyc = sample_cycle(tck_mask, tdi, dir);
    let mut cmd = MpsseCmdBuilder::new();
    let mut i: usize = 0;
    assert(cmd.bytes() =~= rep(cyc, 0));
    while i < len
        invariant
            i <= len,
            cyc == sample_cycle(tck_mask, tdi, dir),
            cmd.wf(),
            cmd.response_len() == i,
            cmd.bytes() == rep(cyc, i as int),
        decreases len - i,
    {
        let ghost b0 = cmd.bytes();
        cmd.set_gpio_lower(tdi, dir);
        cmd.set_gpio_lower(tdi | tck_mask, dir);
        cmd.gpio_lower();
        i = i + 1;
        assert(cmd.bytes() =~= rep(cyc, i as int));
    }
    cmd
}

impl TdoProbe {
    /// Shift DR with only TCK and TMS driven (TDI low), sampling the bank.
    pub fn shift_dr(&self, len: usize) -> (cmd: MpsseCmdBuilder)
        ensures
            cmd.wf(),
            cmd.response_len() == len,
            cmd.bytes() == rep(
                sample_cycle(self.tck_mask, 0, (self.tck_mask | self.tms_mask) as u8),
                len as int,
            ),
    {
        sample_dr(self.tck_mask, 0, self.tck_mask | self.tms_mask, len)
    }
}

impl TdiProbe {
    /// Shift DR with every pin but TDO an output and TDI at `tdi_value`,
    /// sampling the bank.
    pub fn shift_dr(&self, tdi_value: bool, len: usize) -> (cmd: MpsseCmdBuilder)
        ensures
            cmd.wf(),
            cmd.response_len() == len,
            cmd.bytes() == rep(
                sample_cycle(
                    self.tck_mask,
                    if tdi_value {
                        self.tdi_mask
                    } else {
                        0u8
                    },
                    !self.tdo_mask,
                ),
                len as int,
            ),
    {
        let tdi: u8 = if tdi_value {
            self.tdi_mask
        } else {
            0
        };
        sample_dr(self.tck_mask, tdi, !self.tdo_mask, len)
    }
}

/// The scan state has recorded an IDCODE.
pub open spec fn found_id(s: ScanState) -> bool {
    exists|i: int| 0 <= i < s.ids.len() && (#[trigger] s.ids[i]) is Some
}

/// The pins (other than TCK and TMS) on whose samples the IDCODE chain scan
/// finds an IDCODE, ascending.
pub open spec fn tdo_pins(samples: Seq<u8>, tck: u8, tms: u8, n: int) -> Seq<usize>
    decreases n,
{
    if n <= 0 {
        Seq::empty()
    } else {
        tdo_pins(samples, tck, tms, n - 1) + if bit_mask(n - 1) != tck && bit_mask(n - 1) != tms
            && found_id(scan_from(scan_init(), project(samples, bit_mask(n - 1)))) {
            seq![(n - 1) as usize]
        } else {
            Seq::empty()
        }
    }
}

fn has_id(scanner: &IdcodeScanner) -> (r: bool)
    requires
        scanner@.wf(),
    ensures
        r == found_id(scanner@),
{
    let slots = scanner.chain_all();
    let mut i: usize = 0;
    while i < slots.len()
        invariant
            i <= slots@.len(),
            slots@ == scanner@.ids,
            forall|j: int| 0 <= j < i ==> slots@[j] is None,
        decreases slots@.len() - i,
    {
        if slots[i].is_some() {
            return true;
        }
        i = i + 1;
    }
    false
}

/// First phase: the candidate TDO pins for a TCK/TMS choice, from the bank
/// samples taken while shifting DR.
pub fn tdo_candidates(probe: &TdoProbe, samples: &[u8]) -> (r: Vec<usize>)
    ensures
        r@ == tdo_pins(samples@, probe.tck_mask, probe.tms_mask, 8),
{
    let mut r: Vec<usize> = Vec::new();
    let mut i: usize = 0;
    while i < 8
        invariant
            i <= 8,
            r@ == tdo_pins(samples@, probe.tck_mask, probe.tms_mask, i as int),
        decreases 8 - i,
    {
        let mask = 1u8 << (i as u8);
        assert(mask == bit_mask(i as int));
        if mask != probe.tck_mask && mask != probe.tms_mask {
            let mut scanner = IdcodeScanner::new();
            scanner.feed_samples(samples, mask);
            if has_id(&scanner) {
                r.push(i);
            }
        }
        i = i + 1;
        assert(r@ =~= tdo_pins(samples@, probe.tck_mask, probe.tms_mask, i as int));
    }
    r
}

/// Second phase: the pinout holds when the scan with TDI low reports
/// exactly 32 slots more than the scan with TDI high.
pub fn pinout_confirmed(len_tdi_low: usize, len_tdi_high: usize) -> (r: bool)
    ensures
        r == (len_tdi_low == len_tdi_high + 32),
{
    len_tdi_low >= 32 && len_tdi_low - 32 == len_tdi_high
}

} // verus!

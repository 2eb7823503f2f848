//! SPI master on the MPSSE: SCK on lower pin 0, MOSI on 1, MISO on 2, and
//! chip select on 3 when the host drives it. Only modes 0 and 2 (data
//! sampled on the first edge) are possible on this hardware.
use crate::mpsse::{BankSnapshot, PinRegistry};
use crate::mpsse_cmd::{shift_in_stream, shift_opcode, shift_out_stream, MpsseCmdBuilder, SET_GPIO_LOWER};
use crate::{FtdiError, Pin};
use vstd::prelude::*;

verus! {

/// MOSI and CS line bits.
pub const MOSI_MASK: u8 = 2;

pub const CS_MASK: u8 = 8;

/// Errors of the SPI layer.
#[derive(Debug)]
pub enum FtdiSpiError {
    FtdiInner(FtdiError),
    /// The mode or operation cannot be done on this hardware.
    NotSupported(&'static str),
}

/// Clock polarity and phase.
#[derive(Debug, Clone, Copy, PartialEq, Eq, Structural)]
pub struct SpiMode {
    /// CPOL: the clock idles high.
    pub idle_high: bool,
    /// CPHA: data is captured on the second clock edge.
    pub capture_on_second: bool,
}

/// Idle level of SCK for a mode, when the hardware can do it.
pub fn clock_idle_level(mode: SpiMode) -> (r: Result<bool, FtdiSpiError>)
    ensures
        match r {
            Ok(v) => !mode.capture_on_second && v == mode.idle_high,
            Err(e) => mode.capture_on_second && e is NotSupported,
        },
{
    if mode.capture_on_second {
        Err(FtdiSpiError::NotSupported("MODE_1&MODE_3"))
    } else {
        Ok(mode.idle_high)
    }
}

/// Set the mode: park SCK at the mode's idle level (SCK must be held).
/// Returns the idle level and the command that puts the bank on the wire;
/// modes 1 and 3 fail and change nothing.
pub fn set_mode(reg: &mut PinRegistry, mode: SpiMode) -> (r: Result<
    (bool, MpsseCmdBuilder),
    FtdiSpiError,
>)
    requires
        old(reg)@.wf(),
        old(reg)@.held(Pin::Lower(0)),
    ensures
        final(reg)@.wf(),
        match r {
            Err(e) => mode.capture_on_second && e is NotSupported && final(reg)@ == old(reg)@,
            Ok((idle, cmd)) => {
                &&& !mode.capture_on_second
                &&& idle == mode.idle_high
                &&& final(reg)@ == old(reg)@.with_bank(
                    Pin::Lower(0),
                    old(reg)@.lower.with_value(0, mode.idle_high),
                )
                &&& cmd.wf()
                &&& cmd.response_len() == 0
                &&& cmd.bytes() == final(reg)@.bank_cmd(Pin::Lower(0))
            },
        },
{
    let idle = match clock_idle_level(mode) {
        Ok(v) => v,
        Err(e) => {
            return Err(e);
        },
    };
    let cmd = reg.set_level(Pin::Lower(0), idle);
    Ok((idle, cmd))
}

/// Byte shift opcodes for a clock idling at `idle`, in the given bit order.
pub open spec fn out_op(idle: bool, lsb: bool) -> u8 {
    shift_opcode(idle, false, lsb, true, false) as u8
}

pub open spec fn in_op(idle: bool, lsb: bool) -> u8 {
    shift_opcode(idle, false, lsb, false, true) as u8
}

pub open spec fn inout_op(idle: bool, lsb: bool) -> u8 {
    shift_opcode(idle, false, lsb, true, true) as u8
}

/// Clock in `len` bytes.
pub fn read_command(idle: bool, lsb: bool, len: usize) -> (cmd: MpsseCmdBuilder)
    ensures
        cmd.wf(),
        cmd.response_len() == len,
        cmd.bytes() == shift_in_stream(in_op(idle, lsb), len as int),
{
    let mut cmd = MpsseCmdBuilder::new();
    cmd.shift_bytes_in(idle, lsb, len);
    assert(cmd.bytes() =~= shift_in_stream(in_op(idle, lsb), len as int));
    cmd
}

/// Clock out `words`.
pub fn write_command(idle: bool, lsb: bool, words: &[u8]) -> (cmd: MpsseCmdBuilder)
    ensures
        cmd.wf(),
        cmd.response_len() == 0,
        cmd.bytes() == shift_out_stream(out_op(idle, lsb), words@),
{
    let mut cmd = MpsseCmdBuilder::new();
    cmd.shift_bytes_out(idle, lsb, words);
    assert(cmd.bytes() =~= shift_out_stream(out_op(idle, lsb), words@));
    cmd
}

/// `w` padded with zero bytes up to `n` bytes.
pub open spec fn padded(w: Seq<u8>, n: int) -> Seq<u8> {
    if n <= w.len() {
        w
    } else {
        w + Seq::new((n - w.len()) as nat, |i: int| 0u8)
    }
}

fn pad(w: &[u8], n: usize) -> (r: Vec<u8>)
    ensures
        r@ == padded(w@, n as int),
{
    let mut r: Vec<u8> = Vec::new();
    let mut i: usize = 0;
    while i < w.len()
        invariant
            i <= w@.len(),
            r@ == w@.take(i as int),
        decreases w@.len() - i,
    {
        r.push(w[i]);
        i = i + 1;
        assert(w@.take(i as int) =~= w@.take(i - 1) + seq![w@[i - 1]]);
    }
    assert(w@.take(i as int) =~= w@);
    while i < n
        invariant
            w@.len() <= i,
            i <= n || i == w@.len(),
            r@ == w@ + Seq::new((i - w@.len()) as nat, |k: int| 0u8),
        decreases n - i,
    {
        r.push(0);
        i = i + 1;
        assert(r@ =~= w@ + Seq::new((i - w@.len()) as nat, |k: int| 0u8));
    }
    assert(n as int <= w@.len() ==> r@ =~= w@);
    r
}

/// Clock out `write` (padded with zeros to `read_len` bytes when shorter)
/// while clocking in as many bytes; the first `read_len` are the read.
pub fn transfer_command(idle: bool, lsb: bool, read_len: usize, write: &[u8]) -> (cmd:
    MpsseCmdBuilder)
    ensures
        cmd.wf(),
        cmd.response_len() == padded(write@, read_len as int).len(),
        cmd.bytes() == shift_out_stream(inout_op(idle, lsb), padded(write@, read_len as int)),
{
    let data = pad(write, read_len);
    let _n = data.len();
    let mut cmd = MpsseCmdBuilder::new();
    cmd.shift_bytes(idle, lsb, data.as_slice());
    assert(cmd.bytes() =~= shift_out_stream(inout_op(idle, lsb), data@));
    cmd
}

/// Half-duplex read: MOSI released (input) for the read.
pub fn half_duplex_read_command(pins: BankSnapshot, idle: bool, lsb: bool, len: usize) -> (cmd:
    MpsseCmdBuilder)
    ensures
        cmd.wf(),
        cmd.response_len() == len,
        cmd.bytes() == seq![SET_GPIO_LOWER, pins.lower_value, pins.lower_direction & !MOSI_MASK]
            + shift_in_stream(in_op(idle, lsb), len as int),
{
    let mut cmd = MpsseCmdBuilder::new();
    cmd.set_gpio_lower(pins.lower_value, pins.lower_direction & !MOSI_MASK);
    cmd.shift_bytes_in(idle, lsb, len);
    assert(cmd.bytes() =~= seq![SET_GPIO_LOWER, pins.lower_value, pins.lower_direction & !MOSI_MASK]
        + shift_in_stream(in_op(idle, lsb), len as int));
    cmd
}

/// Half-duplex write: MOSI driven again for the write.
pub fn half_duplex_write_command(pins: BankSnapshot, idle: bool, lsb: bool, words: &[u8]) -> (cmd:
    MpsseCmdBuilder)
    ensures
        cmd.wf(),
        cmd.response_len() == 0,
        cmd.bytes() == seq![SET_GPIO_LOWER, pins.lower_value, pins.lower_direction]
            + shift_out_stream(out_op(idle, lsb), words@),
{
    let mut cmd = MpsseCmdBuilder::new();
    cmd.set_gpio_lower(pins.lower_value, pins.lower_direction);
    cmd.shift_bytes_out(idle, lsb, words);
    assert(cmd.bytes() =~= seq![SET_GPIO_LOWER, pins.lower_value, pins.lower_direction]
        + shift_out_stream(out_op(idle, lsb), words@));
    cmd
}

/// One operation of a chip-selected SPI transaction.
pub enum SpiOperation {
    /// Read so many bytes.
    Read(usize),
    /// Write these bytes.
    Write(Vec<u8>),
    /// Read so many bytes while writing these.
    Transfer(usize, Vec<u8>),
    /// Write these bytes and read as many back in their place.
    TransferInPlace(Vec<u8>),
    /// Wait so many nanoseconds (the batch runs in one go; no wait is made).
    DelayNs(u32),
}

/// Commands of one operation.
pub open spec fn op_stream(idle: bool, lsb: bool, op: SpiOperation) -> Seq<u8> {
    match op {
        SpiOperation::Read(n) => shift_in_stream(in_op(idle, lsb), n as int),
        SpiOperation::Write(w) => shift_out_stream(out_op(idle, lsb), w@),
        SpiOperation::Transfer(n, w) => shift_out_stream(inout_op(idle, lsb), padded(w@, n as int)),
        SpiOperation::TransferInPlace(w) => shift_out_stream(inout_op(idle, lsb), w@),
        SpiOperation::DelayNs(_) => Seq::empty(),
    }
}

/// Answer bytes of one operation.
pub open spec fn op_response_len(op: SpiOperation) -> int {
    match op {
        SpiOperation::Read(n) => n as int,
        SpiOperation::Write(_) => 0,
        SpiOperation::Transfer(n, w) => padded(w@, n as int).len() as int,
        SpiOperation::TransferInPlace(w) => w@.len() as int,
        SpiOperation::DelayNs(_) => 0,
    }
}

/// Bytes of its answer that an operation keeps.
pub open spec fn op_read_len(op: SpiOperation) -> int {
    match op {
        SpiOperation::Read(n) => n as int,
        SpiOperation::Transfer(n, _) => n as int,
        SpiOperation::TransferInPlace(w) => w@.len() as int,
        _ => 0,
    }
}

pub open spec fn ops_stream(idle: bool, lsb: bool, ops: Seq<SpiOperation>, k: int) -> Seq<u8>
    decreases k,
{
    if k <= 0 {
        Seq::empty()
    } else {
        ops_stream(idle, lsb, ops, k - 1) + op_stream(idle, lsb, ops[k - 1])
    }
}

pub open spec fn ops_response_len(ops: Seq<SpiOperation>, k: int) -> int
    decreases k,
{
    if k <= 0 {
        0
    } else {
        ops_response_len(ops, k - 1) + op_response_len(ops[k - 1])
    }
}

/// The whole transaction: CS low, each operation, CS high.
pub open spec fn device_stream(pins: BankSnapshot, idle: bool, lsb: bool, ops: Seq<SpiOperation>) -> Seq<u8> {
    seq![SET_GPIO_LOWER, pins.lower_value & !CS_MASK, pins.lower_direction] + ops_stream(
        idle,
        lsb,
        ops,
        ops.len() as int,
    ) + seq![SET_GPIO_LOWER, pins.lower_value, pins.lower_direction]
}

proof fn lemma_ops_response_mono(ops: Seq<SpiOperation>, j: int, k: int)
    requires
        0 <= j <= k <= ops.len(),
    ensures
        0 <= ops_response_len(ops, j) <= ops_response_len(ops, k),
    decreases k,
{
    if j < k {
        lemma_ops_response_mono(ops, j, k - 1);
    } else if k > 0 {
        lemma_ops_response_mono(ops, j - 1, k - 1);
    }
}

/// The one command of a chip-selected transaction.
pub fn device_command(pins: BankSnapshot, idle: bool, lsb: bool, ops: &[SpiOperation]) -> (cmd:
    MpsseCmdBuilder)
    requires
        ops_response_len(ops@, ops@.len() as int) <= usize::MAX,
    ensures
        cmd.wf(),
        cmd.response_len() == ops_response_len(ops@, ops@.len() as int),
        cmd.bytes() == device_stream(pins, idle, lsb, ops@),
{
    let mut cmd = MpsseCmdBuilder::new();
    cmd.set_gpio_lower(pins.lower_value & !CS_MASK, pins.lower_direction);
    let ghost head = cmd.bytes();
    let mut i: usize = 0;
    assert(head + ops_stream(idle, lsb, ops@, 0) =~= head);
    while i < ops.len()
        invariant
            i <= ops@.len(),
            ops_response_len(ops@, ops@.len() as int) <= usize::MAX,
            cmd.wf(),
            head == seq![SET_GPIO_LOWER, pins.lower_value & !CS_MASK, pins.lower_direction],
            cmd.bytes() == head + ops_stream(idle, lsb, ops@, i as int),
            cmd.response_len() == ops_response_len(ops@, i as int),
        decreases ops@.len() - i,
    {
        proof {
            lemma_ops_response_mono(ops@, i + 1, ops@.len() as int);
        }
        let ghost b0 = cmd.bytes();
        match &ops[i] {
            SpiOperation::Read(n) => cmd.shift_bytes_in(idle, lsb, *n),
            SpiOperation::Write(w) => cmd.shift_bytes_out(idle, lsb, w.as_slice()),
            SpiOperation::Transfer(n, w) => {
                let data = pad(w.as_slice(), *n);
                cmd.shift_bytes(idle, lsb, data.as_slice());
            },
            SpiOperation::TransferInPlace(w) => cmd.shift_bytes(idle, lsb, w.as_slice()),
            SpiOperation::DelayNs(_) => {},
        }
        i = i + 1;
        assert(cmd.bytes() =~= head + ops_stream(idle, lsb, ops@, i as int));
    }
    cmd.set_gpio_lower(pins.lower_value, pins.lower_direction);
    assert(cmd.bytes() =~= device_stream(pins, idle, lsb, ops@));
    cmd
}

/// The pieces of a transaction's answer that go back to the reading
/// operations, in order.
pub open spec fn scatter(ops: Seq<SpiOperation>, resp: Seq<u8>, k: int) -> Seq<Seq<u8>>
    decreases k,
{
    if k <= 0 {
        Seq::empty()
    } else {
        let start = ops_response_len(ops, k - 1);
        scatter(ops, resp, k - 1) + if op_read_len(ops[k - 1]) > 0 || ops[k - 1] is Read
            || ops[k - 1] is Transfer || ops[k - 1] is TransferInPlace {
            seq![resp.subrange(start, start + op_read_len(ops[k - 1]))]
        } else {
            Seq::empty()
        }
    }
}

/// Split the answer of a chip-selected transaction among its reading
/// operations (reads, transfers, in-place transfers), in order.
pub fn split_response(ops: &[SpiOperation], response: &[u8]) -> (r: Vec<Vec<u8>>)
    requires
        response@.len() >= ops_response_len(ops@, ops@.len() as int),
    ensures
        r@.map_values(|v: Vec<u8>| v@) == scatter(ops@, response@, ops@.len() as int),
{
    let total = response.len();
    let mut r: Vec<Vec<u8>> = Vec::new();
    let mut off: usize = 0;
    let mut i: usize = 0;
    assert(r@.map_values(|v: Vec<u8>| v@) =~= scatter(ops@, response@, 0));
    while i < ops.len()
        invariant
            i <= ops@.len(),
            total == response@.len(),
            response@.len() >= ops_response_len(ops@, ops@.len() as int),
            off == ops_response_len(ops@, i as int),
            r@.map_values(|v: Vec<u8>| v@) == scatter(ops@, response@, i as int),
        decreases ops@.len() - i,
    {
        proof {
            lemma_ops_response_mono(ops@, i + 1, ops@.len() as int);
        }
        let (take, step, reading): (usize, usize, bool) = match &ops[i] {
            SpiOperation::Read(n) => (*n, *n, true),
            SpiOperation::Write(_) => (0, 0, false),
            SpiOperation::Transfer(n, w) => (*n, if *n > w.len() {
                *n
            } else {
                w.len()
            }, true),
            SpiOperation::TransferInPlace(w) => (w.len(), w.len(), true),
            SpiOperation::DelayNs(_) => (0, 0, false),
        };
        assert(step == op_response_len(ops@[i as int]));
        assert(take == op_read_len(ops@[i as int]));
        assert(off + step == ops_response_len(ops@, i + 1));
        if reading {
            let mut v: Vec<u8> = Vec::new();
            let mut j: usize = 0;
            while j < take
                invariant
                    j <= take <= step,
                    total == response@.len(),
                    off + step <= response@.len(),
                    v@ == response@.subrange(off as int, off + j),
                decreases take - j,
            {
                v.push(response[off + j]);
                j = j + 1;
                assert(v@ =~= response@.subrange(off as int, off + j));
            }
            let ghost acc = r@.map_values(|x: Vec<u8>| x@);
            r.push(v);
            assert(r@.map_values(|x: Vec<u8>| x@) =~= acc + seq![v@]);
        }
        off = off + step;
        i = i + 1;
        assert(r@.map_values(|x: Vec<u8>| x@) =~= scatter(ops@, response@, i as int));
    }
    r
}

} // verus!

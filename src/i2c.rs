//! I2C master on the MPSSE: SCL on lower pin 0, SDA driven on lower pin 1
//! and read back on lower pin 2, with an optional pin that steers an
//! external SDA buffer.
use crate::mpsse::BankSnapshot;
use crate::mpsse_cmd::{
    lemma_stream_response_nonneg, shift_opcode, MpsseCmdBuilder, SET_GPIO_LOWER, SET_GPIO_UPPER,
};
use crate::{bit_mask, Pin};
use vstd::prelude::*;

verus! {

/// SCL line bit.
pub const SCL: u8 = 1;

/// SDA (master out) line bit.
pub const SDA: u8 = 2;

/// Bits of data and of acknowledge per I2C byte.
pub const DATA_BITS: usize = 8;

pub const ACK_BITS: usize = 1;

/// The MPSSE clock that gives an I2C bit rate of `hz`: with 3-phase
/// clocking a bit takes three half periods, so the clock runs at 3/2 of the
/// bit rate.
pub fn mpsse_rate(hz: usize) -> (r: usize)
    requires
        hz <= usize::MAX / 3,
    ensures
        r == hz * 3 / 2,
{
    hz * 3 / 2
}

/// Which phase of a transfer the slave failed to acknowledge.
#[derive(Debug, Clone, Copy, PartialEq, Eq, Structural)]
pub enum NoAckSource {
    Address,
    Data,
    Unknown,
}

/// The line bits for SCL and SDA levels.
pub open spec fn line_bits(scl: bool, sda: bool) -> u8 {
    ((if scl {
        SCL
    } else {
        0u8
    }) | (if sda {
        SDA
    } else {
        0u8
    })) as u8
}

/// Drive SCL and SDA as outputs at the given levels (and enable the SDA
/// driver through the direction pin).
pub open spec fn out_seq(p: BankSnapshot, scl: bool, sda: bool) -> Seq<u8> {
    let lines = line_bits(scl, sda);
    match p.direction_pin {
        Some(Pin::Lower(i)) => seq![
            SET_GPIO_LOWER,
            p.lower_value | bit_mask(i as int) | lines,
            p.lower_direction | SCL | SDA,
        ],
        Some(Pin::Upper(i)) => seq![
            SET_GPIO_LOWER,
            p.lower_value | lines,
            p.lower_direction | SCL | SDA,
            SET_GPIO_UPPER,
            p.upper_value | bit_mask(i as int),
            p.upper_direction,
        ],
        None => seq![SET_GPIO_LOWER, p.lower_value | lines, p.lower_direction | SCL | SDA],
    }
}

/// Release SDA (input) while SCL stays an output.
pub open spec fn in_seq(p: BankSnapshot) -> Seq<u8> {
    match p.direction_pin {
        Some(Pin::Upper(_)) => seq![
            SET_GPIO_UPPER,
            p.upper_value,
            p.upper_direction,
            SET_GPIO_LOWER,
            p.lower_value,
            p.lower_direction | SCL,
        ],
        _ => seq![SET_GPIO_LOWER, p.lower_value, p.lower_direction | SCL],
    }
}

/// `s` repeated `n` times.
pub open spec fn rep(s: Seq<u8>, n: int) -> Seq<u8>
    decreases n,
{
    if n <= 0 {
        Seq::empty()
    } else {
        rep(s, n - 1) + s
    }
}

/// START: SDA falls while SCL is high, then SCL falls.
pub open spec fn start_seq(p: BankSnapshot, n: int) -> Seq<u8> {
    rep(out_seq(p, true, true), n) + rep(out_seq(p, true, false), n) + rep(
        out_seq(p, false, false),
        n,
    )
}

/// Repeated START: SDA rises while SCL is low, then START.
pub open spec fn restart_seq(p: BankSnapshot, n: int) -> Seq<u8> {
    rep(out_seq(p, false, true), n) + start_seq(p, n)
}

/// STOP: SCL rises while SDA is low, then SDA rises.
pub open spec fn stop_seq(p: BankSnapshot, n: int) -> Seq<u8> {
    rep(out_seq(p, false, false), n) + rep(out_seq(p, true, false), n) + rep(
        out_seq(p, true, true),
        n,
    )
}

/// 8 data bits out, MSB first, clock idling low.
pub open spec fn bits_out_op() -> u8 {
    shift_opcode(false, true, false, true, false) as u8
}

/// Bits in, MSB first, clock idling low.
pub open spec fn bits_in_op() -> u8 {
    shift_opcode(false, true, false, false, true) as u8
}

/// Write one byte, then release SDA and clock in the slave's acknowledge.
pub open spec fn write_byte_seq(p: BankSnapshot, b: u8) -> Seq<u8> {
    out_seq(p, false, false) + seq![bits_out_op(), 7u8, b] + in_seq(p) + seq![bits_in_op(), 0u8]
}

/// Read one byte, then drive the master's acknowledge (low) or not (high).
pub open spec fn read_byte_seq(p: BankSnapshot, ack: bool) -> Seq<u8> {
    in_seq(p) + seq![bits_in_op(), 7u8] + out_seq(p, false, false) + seq![
        bits_out_op(),
        0u8,
        if ack {
            0u8
        } else {
            0xffu8
        },
    ]
}

/// Address byte on the wire: the 7-bit address shifted left, with the
/// read/write bit below it.
pub open spec fn addr_byte(addr: u8, read: bool) -> int {
    2 * (addr as int) + if read {
        1int
    } else {
        0
    }
}

/// Address phase: address byte out, then the slave's acknowledge in.
pub open spec fn addr_seq(p: BankSnapshot, addr: u8, read: bool) -> Seq<u8> {
    seq![bits_out_op(), 7u8, addr_byte(addr, read) as u8] + in_seq(p) + seq![bits_in_op(), 0u8]
}

/// A command builder for I2C bus phases over a snapshot of the banks.
pub struct I2cCmdBuilder {
    pub cmd: MpsseCmdBuilder,
    pub pins: BankSnapshot,
}

impl I2cCmdBuilder {
    pub open spec fn wf(&self) -> bool {
        self.cmd.wf() && self.pins.wf()
    }

    pub fn new(pins: BankSnapshot) -> (r: I2cCmdBuilder)
        requires
            pins.wf(),
        ensures
            r.wf(),
            r.pins == pins,
            r.cmd.bytes() == Seq::<u8>::empty(),
            r.cmd.response_len() == 0,
    {
        I2cCmdBuilder { cmd: MpsseCmdBuilder::new(), pins }
    }

    /// Drive SCL and SDA to the given levels.
    fn i2c_out(&mut self, scl: bool, sda: bool)
        requires
            old(self).wf(),
        ensures
            final(self).wf(),
            final(self).pins == old(self).pins,
            final(self).cmd.response_len() == old(self).cmd.response_len(),
            final(self).cmd.bytes() == old(self).cmd.bytes() + out_seq(old(self).pins, scl, sda),
    {
        let p = self.pins;
        let scl_bit: u8 = if scl {
            SCL
        } else {
            0
        };
        let sda_bit: u8 = if sda {
            SDA
        } else {
            0
        };
        let lines = scl_bit | sda_bit;
        let ghost b0 = self.cmd.bytes();
        match p.direction_pin {
            Some(pin) => match pin {
                Pin::Lower(_) => {
                    self.cmd.set_gpio_lower(
                        p.lower_value | pin.mask() | lines,
                        p.lower_direction | SCL | SDA,
                    );
                },
                Pin::Upper(_) => {
                    self.cmd.set_gpio_lower(p.lower_value | lines, p.lower_direction | SCL | SDA);
                    self.cmd.set_gpio_upper(p.upper_value | pin.mask(), p.upper_direction);
                },
            },
            None => {
                self.cmd.set_gpio_lower(p.lower_value | lines, p.lower_direction | SCL | SDA);
            },
        }
        assert(self.cmd.bytes() =~= b0 + out_seq(p, scl, sda));
    }

    /// Release SDA so the slave can drive it.
    fn i2c_in(&mut self)
        requires
            old(self).wf(),
        ensures
            final(self).wf(),
            final(self).pins == old(self).pins,
            final(self).cmd.response_len() == old(self).cmd.response_len(),
            final(self).cmd.bytes() == old(self).cmd.bytes() + in_seq(old(self).pins),
    {
        let p = self.pins;
        let ghost b0 = self.cmd.bytes();
        if let Some(Pin::Upper(_)) = p.direction_pin {
            self.cmd.set_gpio_upper(p.upper_value, p.upper_direction);
        }
        self.cmd.set_gpio_lower(p.lower_value, p.lower_direction | SCL);
        assert(self.cmd.bytes() =~= b0 + in_seq(p));
    }

    fn i2c_out_n(&mut self, scl: bool, sda: bool, count: usize)
        requires
            old(self).wf(),
        ensures
            final(self).wf(),
            final(self).pins == old(self).pins,
            final(self).cmd.response_len() == old(self).cmd.response_len(),
            final(self).cmd.bytes() == old(self).cmd.bytes() + rep(
                out_seq(old(self).pins, scl, sda),
                count as int,
            ),
    {
        let ghost b0 = self.cmd.bytes();
        let ghost s = out_seq(self.pins, scl, sda);
        let mut i: usize = 0;
        assert(b0 + rep(s, 0) =~= b0);
        while i < count
            invariant
                self.wf(),
                i <= count,
                self.pins == old(self).pins,
                s == out_seq(self.pins, scl, sda),
                self.cmd.response_len() == old(self).cmd.response_len(),
                self.cmd.bytes() == b0 + rep(s, i as int),
            decreases count - i,
        {
            self.i2c_out(scl, sda);
            i = i + 1;
            assert(b0 + rep(s, i as int) =~= b0 + rep(s, i - 1) + s);
        }
    }

    /// START condition, each step held for `count` commands.
    pub fn start(&mut self, count: usize)
        requires
            old(self).wf(),
        ensures
            final(self).wf(),
            final(self).pins == old(self).pins,
            final(self).cmd.response_len() == old(self).cmd.response_len(),
            final(self).cmd.bytes() == old(self).cmd.bytes() + start_seq(
                old(self).pins,
                count as int,
            ),
    {
        let ghost b0 = self.cmd.bytes();
        self.i2c_out_n(true, true, count);
        self.i2c_out_n(true, false, count);
        self.i2c_out_n(false, false, count);
        assert(self.cmd.bytes() =~= b0 + start_seq(self.pins, count as int));
    }

    /// Repeated START, each step held for `count` commands.
    pub fn restart(&mut self, count: usize)
        requires
            old(self).wf(),
        ensures
            final(self).wf(),
            final(self).pins == old(self).pins,
            final(self).cmd.response_len() == old(self).cmd.response_len(),
            final(self).cmd.bytes() == old(self).cmd.bytes() + restart_seq(
                old(self).pins,
                count as int,
            ),
    {
        let ghost b0 = self.cmd.bytes();
        self.i2c_out_n(false, true, count);
        self.start(count);
        assert(self.cmd.bytes() =~= b0 + restart_seq(self.pins, count as int));
    }

    /// STOP condition, each step held for `count` commands.
    pub fn end(&mut self, count: usize)
        requires
            old(self).wf(),
        ensures
            final(self).wf(),
            final(self).pins == old(self).pins,
            final(self).cmd.response_len() == old(self).cmd.response_len(),
            final(self).cmd.bytes() == old(self).cmd.bytes() + stop_seq(
                old(self).pins,
                count as int,
            ),
    {
        let ghost b0 = self.cmd.bytes();
        self.i2c_out_n(false, false, count);
        self.i2c_out_n(true, false, count);
        self.i2c_out_n(true, true, count);
        assert(self.cmd.bytes() =~= b0 + stop_seq(self.pins, count as int));
    }

    /// Address phase for a 7-bit address: one answer byte whose low bit is
    /// the slave's acknowledge (0 = ACK).
    pub fn i2c_addr(&mut self, addr: u8, is_read: bool)
        requires
            old(self).wf(),
            addr < 128,
            old(self).cmd.response_len() < usize::MAX,
        ensures
            final(self).wf(),
            final(self).pins == old(self).pins,
            final(self).cmd.response_len() == old(self).cmd.response_len() + 1,
            final(self).cmd.bytes() == old(self).cmd.bytes() + addr_seq(
                old(self).pins,
                addr,
                is_read,
            ),
    {
        let ghost b0 = self.cmd.bytes();
        let byte = if is_read {
            (addr << 1) | 1
        } else {
            addr << 1
        };
        assert(byte as int == addr_byte(addr, is_read)) by {
            if is_read {
                assert(((addr << 1) | 1) as int == 2 * (addr as int) + 1) by (bit_vector)
                    requires
                        addr < 128,
                ;
            } else {
                assert((addr << 1) as int == 2 * (addr as int)) by (bit_vector)
                    requires
                        addr < 128,
                ;
            }
        }
        self.cmd.shift_bits_out(false, false, byte, DATA_BITS);
        self.i2c_in();
        self.cmd.shift_bits_in(false, false, ACK_BITS);
        assert(self.cmd.bytes() =~= b0 + addr_seq(self.pins, addr, is_read));
    }

    /// Read one byte (one answer byte), then acknowledge it or not.
    pub fn i2c_read(&mut self, m_ack: bool)
        requires
            old(self).wf(),
            old(self).cmd.response_len() < usize::MAX,
        ensures
            final(self).wf(),
            final(self).pins == old(self).pins,
            final(self).cmd.response_len() == old(self).cmd.response_len() + 1,
            final(self).cmd.bytes() == old(self).cmd.bytes() + read_byte_seq(
                old(self).pins,
                m_ack,
            ),
    {
        let ghost b0 = self.cmd.bytes();
        let ack_bits: u8 = if m_ack {
            0
        } else {
            0xff
        };
        self.i2c_in();
        self.cmd.shift_bits_in(false, false, DATA_BITS);
        self.i2c_out(false, false);
        self.cmd.shift_bits_out(false, false, ack_bits, ACK_BITS);
        assert(self.cmd.bytes() =~= b0 + read_byte_seq(self.pins, m_ack));
    }

    /// Write one byte; one answer byte whose low bit is the slave's
    /// acknowledge (0 = ACK).
    pub fn i2c_write(&mut self, value: u8)
        requires
            old(self).wf(),
            old(self).cmd.response_len() < usize::MAX,
        ensures
            final(self).wf(),
            final(self).pins == old(self).pins,
            final(self).cmd.response_len() == old(self).cmd.response_len() + 1,
            final(self).cmd.bytes() == old(self).cmd.bytes() + write_byte_seq(
                old(self).pins,
                value,
            ),
    {
        let ghost b0 = self.cmd.bytes();
        self.i2c_out(false, false);
        self.cmd.shift_bits_out(false, false, value, DATA_BITS);
        self.i2c_in();
        self.cmd.shift_bits_in(false, false, ACK_BITS);
        assert(self.cmd.bytes() =~= b0 + write_byte_seq(self.pins, value));
    }
}


/// One operation of an I2C transaction: read so many bytes, or write these.
pub enum I2cOperation {
    Read(usize),
    Write(Vec<u8>),
}

impl I2cOperation {
    pub open spec fn is_read(&self) -> bool {
        self is Read
    }

    pub open spec fn len(&self) -> int {
        match self {
            I2cOperation::Read(n) => *n as int,
            I2cOperation::Write(d) => d@.len() as int,
        }
    }
}

/// What the answer to one exchange tells.
#[derive(Debug, Clone, Copy, PartialEq, Eq, Structural)]
pub enum I2cCheck {
    /// No answer.
    NoResponse,
    /// The slave's acknowledge of the address byte.
    Address,
    /// The slave's acknowledge of a data byte that is not the last one.
    Data,
    /// The slave's acknowledge of the last data byte of a write.
    LastData,
    /// The bytes read for the operation of that index.
    ReadInto(usize),
}

/// Operation `i` begins with an address phase: it is the first, or it
/// reads where the one before wrote or the other way round.
pub open spec fn needs_addr(ops: Seq<I2cOperation>, i: int) -> bool {
    i == 0 || ops[i - 1].is_read() != ops[i].is_read()
}

/// Read `n` (at least 1) bytes, acknowledging all but the last.
pub open spec fn read_block(p: BankSnapshot, n: int) -> Seq<u8> {
    rep(read_byte_seq(p, true), n - 1) + read_byte_seq(p, false)
}

/// One exchange per byte written.
pub open spec fn write_exchanges(p: BankSnapshot, data: Seq<u8>) -> Seq<(Seq<u8>, I2cCheck)> {
    Seq::new(
        data.len(),
        |j: int|
            (
                write_byte_seq(p, data[j]),
                if j == data.len() - 1 {
                    I2cCheck::LastData
                } else {
                    I2cCheck::Data
                },
            ),
    )
}

/// The exchanges of operation `i`: its address phase (after a repeated
/// START unless it is the first) when it needs one, then its data.
pub open spec fn op_exchanges(p: BankSnapshot, addr: u8, n: int, ops: Seq<I2cOperation>, i: int) -> Seq<
    (Seq<u8>, I2cCheck),
> {
    (if needs_addr(ops, i) {
        seq![
            ((if i > 0 {
                restart_seq(p, n)
            } else {
                Seq::empty()
            }) + addr_seq(p, addr, ops[i].is_read()), I2cCheck::Address),
        ]
    } else {
        Seq::empty()
    }) + match ops[i] {
        I2cOperation::Read(m) => if m == 0 {
            Seq::empty()
        } else {
            seq![(read_block(p, m as int), I2cCheck::ReadInto(i as usize))]
        },
        I2cOperation::Write(d) => write_exchanges(p, d@),
    }
}

pub open spec fn ops_exchanges(p: BankSnapshot, addr: u8, n: int, ops: Seq<I2cOperation>, k: int) -> Seq<
    (Seq<u8>, I2cCheck),
>
    decreases k,
{
    if k <= 0 {
        Seq::empty()
    } else {
        ops_exchanges(p, addr, n, ops, k - 1) + op_exchanges(p, addr, n, ops, k - 1)
    }
}

/// The exchanges of a whole transaction: START, each operation, STOP.
pub open spec fn serial_plan(p: BankSnapshot, addr: u8, n: int, ops: Seq<I2cOperation>) -> Seq<
    (Seq<u8>, I2cCheck),
> {
    seq![(start_seq(p, n), I2cCheck::NoResponse)] + ops_exchanges(p, addr, n, ops, ops.len() as int)
        + seq![(stop_seq(p, n), I2cCheck::NoResponse)]
}

/// Answer length of an exchange.
pub open spec fn check_len(c: I2cCheck, ops: Seq<I2cOperation>) -> int {
    match c {
        I2cCheck::NoResponse => 0,
        I2cCheck::ReadInto(i) => ops[i as int].len(),
        _ => 1,
    }
}

/// One command to run on its own, and what its answer tells.
pub struct I2cExchange {
    pub cmd: MpsseCmdBuilder,
    pub check: I2cCheck,
}

/// The exchange at `k` of `plan` is the `k`-th of `model`.
pub open spec fn exchange_matches(
    e: I2cExchange,
    m: (Seq<u8>, I2cCheck),
    ops: Seq<I2cOperation>,
) -> bool {
    &&& e.cmd.wf()
    &&& e.cmd.bytes() == m.0
    &&& e.check == m.1
    &&& e.cmd.response_len() == check_len(m.1, ops)
}

pub open spec fn plan_matches(
    plan: Seq<I2cExchange>,
    model: Seq<(Seq<u8>, I2cCheck)>,
    ops: Seq<I2cOperation>,
) -> bool {
    &&& plan.len() == model.len()
    &&& forall|k: int|
        0 <= k < plan.len() ==> exchange_matches(#[trigger] plan[k], model[k], ops)
}

fn exchange_of(b: I2cCmdBuilder, check: I2cCheck) -> (e: I2cExchange)
    ensures
        e.cmd == b.cmd,
        e.check == check,
{
    I2cExchange { cmd: b.cmd, check }
}

/// A command with START alone.
pub fn start_command(pins: BankSnapshot, count: usize) -> (cmd: MpsseCmdBuilder)
    requires
        pins.wf(),
    ensures
        cmd.wf(),
        cmd.bytes() == start_seq(pins, count as int),
        cmd.response_len() == 0,
{
    let mut b = I2cCmdBuilder::new(pins);
    b.start(count);
    assert(b.cmd.bytes() =~= start_seq(pins, count as int));
    b.cmd
}

/// A command with STOP alone.
pub fn stop_command(pins: BankSnapshot, count: usize) -> (cmd: MpsseCmdBuilder)
    requires
        pins.wf(),
    ensures
        cmd.wf(),
        cmd.bytes() == stop_seq(pins, count as int),
        cmd.response_len() == 0,
{
    let mut b = I2cCmdBuilder::new(pins);
    b.end(count);
    assert(b.cmd.bytes() =~= stop_seq(pins, count as int));
    b.cmd
}

/// The exchanges of one operation, appended to `plan`.
fn push_op_exchanges(
    plan: &mut Vec<I2cExchange>,
    pins: BankSnapshot,
    count: usize,
    address: u8,
    ops: &[I2cOperation],
    i: usize,
)
    requires
        pins.wf(),
        address < 128,
        i < ops@.len(),
    ensures
        final(plan)@.len() == old(plan)@.len() + op_exchanges(
            pins,
            address,
            count as int,
            ops@,
            i as int,
        ).len(),
        forall|k: int| 0 <= k < old(plan)@.len() ==> final(plan)@[k] == old(plan)@[k],
        forall|k: int|
            0 <= k < op_exchanges(pins, address, count as int, ops@, i as int).len()
                ==> exchange_matches(
                #[trigger] final(plan)@[old(plan)@.len() + k],
                op_exchanges(pins, address, count as int, ops@, i as int)[k],
                ops@,
            ),
{
    let ghost model = op_exchanges(pins, address, count as int, ops@, i as int);
    let ghost start = plan@.len() as int;
    let is_read = match &ops[i] {
        I2cOperation::Read(_) => true,
        I2cOperation::Write(_) => false,
    };
    let addressed = i == 0 || match &ops[i - 1] {
        I2cOperation::Read(_) => !is_read,
        I2cOperation::Write(_) => is_read,
    };
    let ghost head: Seq<(Seq<u8>, I2cCheck)> = if addressed {
        seq![
            ((if i > 0 {
                restart_seq(pins, count as int)
            } else {
                Seq::empty()
            }) + addr_seq(pins, address, is_read), I2cCheck::Address),
        ]
    } else {
        Seq::empty()
    };
    if addressed {
        let mut b = I2cCmdBuilder::new(pins);
        if i != 0 {
            b.restart(count);
        }
        b.i2c_addr(address, is_read);
        assert(b.cmd.bytes() =~= head[0].0);
        plan.push(exchange_of(b, I2cCheck::Address));
    }
    assert(plan@.len() == start + head.len());
    assert(forall|k: int| 0 <= k < head.len() ==> exchange_matches(
        #[trigger] plan@[start + k],
        head[k],
        ops@,
    ));
    match &ops[i] {
        I2cOperation::Read(m) => {
            let m = *m;
            if m > 0 {
                let mut b = I2cCmdBuilder::new(pins);
                let mut j: usize = 0;
                while j + 1 < m
                    invariant
                        b.wf(),
                        b.pins == pins,
                        j + 1 <= m,
                        b.cmd.response_len() == j,
                        b.cmd.bytes() == rep(read_byte_seq(pins, true), j as int),
                    decreases m - j,
                {
                    b.i2c_read(true);
                    j = j + 1;
                }
                b.i2c_read(false);
                assert(b.cmd.bytes() =~= read_block(pins, m as int));
                let ghost before = plan@;
                plan.push(exchange_of(b, I2cCheck::ReadInto(i)));
                assert(forall|k: int| 0 <= k < before.len() ==> plan@[k] == before[k]);
                assert(exchange_matches(plan@[start + head.len()], (read_block(pins, m as int), I2cCheck::ReadInto(i as usize)), ops@));
            }
            assert(model =~= head + if m == 0 {
                Seq::<(Seq<u8>, I2cCheck)>::empty()
            } else {
                seq![(read_block(pins, m as int), I2cCheck::ReadInto(i as usize))]
            });
        },
        I2cOperation::Write(data) => {
            let ghost mid = plan@.len() as int;
            let ghost pre = plan@;
            let ghost wx = write_exchanges(pins, data@);
            let mut j: usize = 0;
            while j < data.len()
                invariant
                    pins.wf(),
                    j <= data@.len(),
                    wx == write_exchanges(pins, data@),
                    plan@.len() == mid + j,
                    0 <= start <= mid,
                    pre.len() == mid,
                    forall|k: int| 0 <= k < mid ==> #[trigger] plan@[k] == pre[k],
                    forall|k: int| 0 <= k < j ==> exchange_matches(#[trigger] plan@[mid + k], wx[k], ops@),
                decreases data@.len() - j,
            {
                let ghost before = plan@;
                let mut b = I2cCmdBuilder::new(pins);
                b.i2c_write(data[j]);
                let check = if j + 1 == data.len() {
                    I2cCheck::LastData
                } else {
                    I2cCheck::Data
                };
                assert(b.cmd.bytes() =~= wx[j as int].0);
                plan.push(exchange_of(b, check));
                assert(forall|k: int| 0 <= k < before.len() ==> plan@[k] == before[k]);
                assert(exchange_matches(plan@[mid + j], wx[j as int], ops@));
                assert forall|k: int| 0 <= k < j + 1 implies exchange_matches(
                    #[trigger] plan@[mid + k],
                    wx[k],
                    ops@,
                ) by {
                    if k < j {
                        assert(plan@[mid + k] == before[mid + k]);
                    }
                }
                j = j + 1;
            }
            assert(model =~= head + wx);
            assert forall|k: int| 0 <= k < model.len() implies exchange_matches(
                #[trigger] plan@[start + k],
                model[k],
                ops@,
            ) by {
                if k >= head.len() {
                    assert(plan@[start + k] == plan@[mid + (k - head.len())]);
                } else {
                    assert(plan@[start + k] == pre[start + k]);
                }
            }
        },
    }
}

/// The exchanges of a transaction on the 7-bit `address`, in order: START,
/// for each operation its address phase when it needs one and its data
/// (reads in one exchange, writes one byte per exchange), then STOP.
/// START, repeated START and STOP hold each step for `count` commands.
pub fn transaction_plan(pins: BankSnapshot, count: usize, address: u8, ops: &[I2cOperation]) -> (plan:
    Vec<I2cExchange>)
    requires
        pins.wf(),
        address < 128,
    ensures
        plan_matches(plan@, serial_plan(pins, address, count as int, ops@), ops@),
{
    let mut plan: Vec<I2cExchange> = Vec::new();
    let b = start_command(pins, count);
    plan.push(I2cExchange { cmd: b, check: I2cCheck::NoResponse });
    let ghost first = seq![(start_seq(pins, count as int), I2cCheck::NoResponse)];
    assert(first + ops_exchanges(pins, address, count as int, ops@, 0) =~= first);
    let mut i: usize = 0;
    while i < ops.len()
        invariant
            pins.wf(),
            address < 128,
            i <= ops@.len(),
            first == seq![(start_seq(pins, count as int), I2cCheck::NoResponse)],
            plan_matches(
                plan@,
                first + ops_exchanges(pins, address, count as int, ops@, i as int),
                ops@,
            ),
        decreases ops@.len() - i,
    {
        let ghost before = plan@;
        let ghost m0 = first + ops_exchanges(pins, address, count as int, ops@, i as int);
        push_op_exchanges(&mut plan, pins, count, address, ops, i);
        let ghost ox = op_exchanges(pins, address, count as int, ops@, i as int);
        let ghost m1 = first + ops_exchanges(pins, address, count as int, ops@, i + 1);
        assert(m1 =~= m0 + ox);
        assert forall|k: int| 0 <= k < plan@.len() implies exchange_matches(
            #[trigger] plan@[k],
            m1[k],
            ops@,
        ) by {
            if k < before.len() {
                assert(plan@[k] == before[k]);
            } else {
                assert(plan@[before.len() + (k - before.len())] == plan@[k]);
            }
        }
        i = i + 1;
    }
    let ghost before = plan@;
    let e = stop_command(pins, count);
    plan.push(I2cExchange { cmd: e, check: I2cCheck::NoResponse });
    proof {
        let model = serial_plan(pins, address, count as int, ops@);
        assert(model =~= first + ops_exchanges(pins, address, count as int, ops@, ops@.len() as int)
            + seq![(stop_seq(pins, count as int), I2cCheck::NoResponse)]);
        assert forall|k: int| 0 <= k < plan@.len() implies exchange_matches(
            #[trigger] plan@[k],
            model[k],
            ops@,
        ) by {
            if k < before.len() {
                assert(plan@[k] == before[k]);
            }
        }
    }
    plan
}

/// The concatenated command bytes of a sequence of exchanges.
pub open spec fn plan_bytes(plan: Seq<I2cExchange>) -> Seq<u8>
    decreases plan.len(),
{
    if plan.len() == 0 {
        Seq::empty()
    } else {
        plan_bytes(plan.drop_last()) + plan.last().cmd.bytes()
    }
}

/// The total answer length of a sequence of exchanges.
pub open spec fn plan_response_len(plan: Seq<I2cExchange>) -> int
    decreases plan.len(),
{
    if plan.len() == 0 {
        0
    } else {
        plan_response_len(plan.drop_last()) + plan.last().cmd.response_len()
    }
}

/// All the exchanges joined into one command, for a transaction that runs
/// in one round trip.
pub fn fast_command(plan: &Vec<I2cExchange>) -> (cmd: MpsseCmdBuilder)
    requires
        forall|k: int| 0 <= k < plan@.len() ==> (#[trigger] plan@[k]).cmd.wf(),
        plan_response_len(plan@) <= usize::MAX,
    ensures
        cmd.wf(),
        cmd.bytes() == plan_bytes(plan@),
        cmd.response_len() == plan_response_len(plan@),
{
    let mut cmd = MpsseCmdBuilder::new();
    let mut k: usize = 0;
    while k < plan.len()
        invariant
            k <= plan@.len(),
            forall|j: int| 0 <= j < plan@.len() ==> (#[trigger] plan@[j]).cmd.wf(),
            plan_response_len(plan@) <= usize::MAX,
            cmd.wf(),
            cmd.bytes() == plan_bytes(plan@.take(k as int)),
            cmd.response_len() == plan_response_len(plan@.take(k as int)),
        decreases plan@.len() - k,
    {
        proof {
            lemma_plan_response_prefix(plan@, k as int + 1);
            assert(plan@.take(k + 1).drop_last() =~= plan@.take(k as int));
        }
        cmd.append(&plan[k].cmd);
        k = k + 1;
    }
    assert(plan@.take(k as int) =~= plan@);
    cmd
}

proof fn lemma_plan_response_prefix(plan: Seq<I2cExchange>, k: int)
    requires
        0 <= k <= plan.len(),
        forall|j: int| 0 <= j < plan.len() ==> (#[trigger] plan[j]).cmd.wf(),
    ensures
        0 <= plan_response_len(plan.take(k)) <= plan_response_len(plan),
    decreases plan.len(),
{
    if plan.len() > 0 {
        if k == plan.len() {
            assert(plan.take(k) =~= plan);
            lemma_plan_response_prefix(plan.drop_last(), k - 1);
            assert(plan.drop_last().take(k - 1) =~= plan.drop_last());
            lemma_stream_response_nonneg(plan.last().cmd.bytes());
        } else {
            assert(plan.drop_last().take(k) =~= plan.take(k));
            lemma_plan_response_prefix(plan.drop_last(), k);
            lemma_stream_response_nonneg(plan.last().cmd.bytes());
        }
    }
}

/// Whether the slave acknowledged: the acknowledge bit reads low.
pub open spec fn acked(b: u8) -> bool {
    b & 1 != 1
}

/// What an exchange's answer says: the failing phase, if any. A missing
/// acknowledge of the last byte of a write only fails when `strict`.
pub open spec fn verdict(c: I2cCheck, resp: Seq<u8>, strict: bool) -> Option<NoAckSource> {
    match c {
        I2cCheck::Address => if !acked(resp[0]) {
            Some(NoAckSource::Address)
        } else {
            None
        },
        I2cCheck::Data => if !acked(resp[0]) {
            Some(NoAckSource::Data)
        } else {
            None
        },
        I2cCheck::LastData => if strict && !acked(resp[0]) {
            Some(NoAckSource::Data)
        } else {
            None
        },
        _ => None,
    }
}

/// Judge the answer to one exchange.
pub fn exchange_verdict(check: I2cCheck, response: &[u8], strict: bool) -> (r: Option<
    NoAckSource,
>)
    requires
        (check is Address || check is Data || check is LastData) ==> response@.len() >= 1,
    ensures
        r == verdict(check, response@, strict),
{
    match check {
        I2cCheck::Address => if response[0] & 1 == 1 {
            Some(NoAckSource::Address)
        } else {
            None
        },
        I2cCheck::Data => if response[0] & 1 == 1 {
            Some(NoAckSource::Data)
        } else {
            None
        },
        I2cCheck::LastData => if strict && response[0] & 1 == 1 {
            Some(NoAckSource::Data)
        } else {
            None
        },
        _ => None,
    }
}

/// Serial mode, after one exchange has been answered: go on, or fail with
/// the phase that was not acknowledged, sending STOP (held for `count`
/// commands per step) first.
pub fn after_exchange(
    pins: BankSnapshot,
    count: usize,
    check: I2cCheck,
    response: &[u8],
    strict: bool,
) -> (r: Result<(), (NoAckSource, MpsseCmdBuilder)>)
    requires
        pins.wf(),
        (check is Address || check is Data || check is LastData) ==> response@.len() >= 1,
    ensures
        match (r, verdict(check, response@, strict)) {
            (Ok(()), None) => true,
            (Err((e, stop)), Some(f)) => e == f && stop.wf() && stop.response_len() == 0
                && stop.bytes() == stop_seq(pins, count as int),
            _ => false,
        },
{
    match exchange_verdict(check, response, strict) {
        None => Ok(()),
        Some(e) => Err((e, stop_command(pins, count))),
    }
}

/// Outcome of a transaction run in one round trip: the first failing
/// acknowledge in exchange order, or the bytes of each read, in order.
pub open spec fn fast_outcome(plan: Seq<I2cExchange>, resp: Seq<u8>, strict: bool) -> Result<
    Seq<Seq<u8>>,
    NoAckSource,
>
    decreases plan.len(),
{
    if plan.len() == 0 {
        Ok(Seq::empty())
    } else {
        let l = plan[0].cmd.response_len();
        let here = resp.take(l);
        match verdict(plan[0].check, here, strict) {
            Some(e) => Err(e),
            None => match fast_outcome(plan.drop_first(), resp.skip(l), strict) {
                Err(e) => Err(e),
                Ok(v) => Ok(
                    if plan[0].check is ReadInto {
                        seq![here] + v
                    } else {
                        v
                    },
                ),
            },
        }
    }
}

pub open spec fn prepend_reads(acc: Seq<Seq<u8>>, r: Result<Seq<Seq<u8>>, NoAckSource>) -> Result<
    Seq<Seq<u8>>,
    NoAckSource,
> {
    match r {
        Ok(v) => Ok(acc + v),
        Err(e) => Err(e),
    }
}

/// Exchanges whose acknowledge is checked answer exactly one byte.
pub open spec fn checks_fit(plan: Seq<I2cExchange>) -> bool {
    forall|k: int|
        0 <= k < plan.len() ==> ((#[trigger] plan[k]).check is Address || plan[k].check is Data
            || plan[k].check is LastData) ==> plan[k].cmd.response_len() == 1
}

/// Walk the answer of a one-round-trip transaction in the order its
/// command was built.
pub fn parse_fast_response(plan: &Vec<I2cExchange>, response: &[u8], strict: bool) -> (r: Result<
    Vec<Vec<u8>>,
    NoAckSource,
>)
    requires
        checks_fit(plan@),
        forall|k: int| 0 <= k < plan@.len() ==> (#[trigger] plan@[k]).cmd.response_len() >= 0,
        response@.len() >= plan_response_len(plan@),
    ensures
        match (r, fast_outcome(plan@, response@, strict)) {
            (Ok(v), Ok(m)) => v@.map_values(|x: Vec<u8>| x@) == m,
            (Err(e), Err(f)) => e == f,
            _ => false,
        },
{
    let total = response.len();
    let mut reads: Vec<Vec<u8>> = Vec::new();
    let mut off: usize = 0;
    let mut k: usize = 0;
    proof {
        assert(plan@.skip(0) =~= plan@);
        assert(response@.skip(0) =~= response@);
        assert(reads@.map_values(|x: Vec<u8>| x@) =~= Seq::<Seq<u8>>::empty());
    }
    while k < plan.len()
        invariant
            k <= plan@.len(),
            checks_fit(plan@),
            forall|j: int| 0 <= j < plan@.len() ==> (#[trigger] plan@[j]).cmd.response_len() >= 0,
            total == response@.len(),
            off <= response@.len(),
            response@.skip(off as int).len() >= plan_response_len(plan@.skip(k as int)),
            fast_outcome(plan@, response@, strict) == prepend_reads(
                reads@.map_values(|x: Vec<u8>| x@),
                fast_outcome(plan@.skip(k as int), response@.skip(off as int), strict),
            ),
        decreases plan@.len() - k,
    {
        let ghost rest = plan@.skip(k as int);
        let ghost tail = response@.skip(off as int);
        let l = plan[k].cmd.read_len();
        proof {
            lemma_plan_response_first(rest);
            assert(rest[0] == plan@[k as int]);
            assert(rest.drop_first() =~= plan@.skip(k + 1));
        }
        assert(l == rest[0].cmd.response_len());
        assert(tail.len() == response@.len() - off);
        assert(off + l <= response@.len());
        let here = &response[off..off + l];
        assert(here@ =~= tail.take(l as int));
        assert(tail.skip(l as int) =~= response@.skip(off + l));
        let ghost acc0 = reads@.map_values(|x: Vec<u8>| x@);
        let ghost nxt = fast_outcome(plan@.skip(k + 1), response@.skip(off + l), strict);
        assert(plan@.skip(k + 1) =~= rest.drop_first());
        match exchange_verdict(plan[k].check, here, strict) {
            Some(e) => {
                return Err(e);
            },
            None => {},
        }
        assert(fast_outcome(rest, tail, strict) == match nxt {
            Err(e) => Err(e),
            Ok(v) => Ok(
                if rest[0].check is ReadInto {
                    seq![here@] + v
                } else {
                    v
                },
            ),
        });
        if let I2cCheck::ReadInto(_) = plan[k].check {
            let mut v: Vec<u8> = Vec::new();
            let mut j: usize = 0;
            while j < here.len()
                invariant
                    j <= here@.len(),
                    v@ == here@.take(j as int),
                decreases here@.len() - j,
            {
                v.push(here[j]);
                j = j + 1;
                assert(here@.take(j as int) =~= here@.take(j - 1) + seq![here@[j - 1]]);
            }
            assert(here@.take(j as int) =~= here@);
            let ghost acc = reads@.map_values(|x: Vec<u8>| x@);
            reads.push(v);
            assert(reads@.map_values(|x: Vec<u8>| x@) =~= acc + seq![here@]);
            proof {
                if let Ok(v) = nxt {
                    assert(acc + (seq![here@] + v) =~= acc + seq![here@] + v);
                }
            }
        }
        off = off + l;
        k = k + 1;
    }
    proof {
        assert(plan@.skip(k as int) =~= Seq::<I2cExchange>::empty());
        assert(reads@.map_values(|x: Vec<u8>| x@) + Seq::<Seq<u8>>::empty() =~= reads@.map_values(
            |x: Vec<u8>| x@,
        ));
    }
    Ok(reads)
}

proof fn lemma_plan_response_first(plan: Seq<I2cExchange>)
    requires
        plan.len() > 0,
        forall|j: int| 0 <= j < plan.len() ==> (#[trigger] plan[j]).cmd.response_len() >= 0,
    ensures
        plan_response_len(plan) == plan[0].cmd.response_len() + plan_response_len(
            plan.drop_first(),
        ),
        plan_response_len(plan.drop_first()) >= 0,
    decreases plan.len(),
{
    if plan.len() == 1 {
        assert(plan.drop_last() =~= Seq::<I2cExchange>::empty());
        assert(plan.drop_first() =~= Seq::<I2cExchange>::empty());
    } else {
        lemma_plan_response_first(plan.drop_last());
        assert(plan.drop_last().drop_first() =~= plan.drop_first().drop_last());
        assert(plan.drop_first().last() == plan.last());
        assert(plan.drop_last()[0] == plan[0]);
        lemma_plan_response_first(plan.drop_first().drop_last().push(plan.last()));
        assert(plan.drop_first().drop_last().push(plan.last()) =~= plan.drop_first());
    }
}


/// The address byte is the 7-bit address shifted up by one with the
/// read/write bit below it: `(A << 1) | R`.
pub proof fn lemma_address_byte(a: u8, read: bool)
    requires
        a < 128,
    ensures
        addr_byte(a, read) == ((a << 1) | (if read {
            1u8
        } else {
            0u8
        })) as int,
{
    if read {
        assert(((a << 1) | 1u8) as int == 2 * (a as int) + 1) by (bit_vector)
            requires
                a < 128,
        ;
    } else {
        assert(((a << 1) | 0u8) as int == 2 * (a as int)) by (bit_vector)
            requires
                a < 128,
        ;
    }
}

/// The addresses (below `n`) whose probe was acknowledged, ascending.
pub open spec fn responders(acked: Seq<bool>, n: int) -> Seq<u8>
    decreases n,
{
    if n <= 0 {
        Seq::empty()
    } else {
        responders(acked, n - 1) + if acked[n - 1] {
            seq![(n - 1) as u8]
        } else {
            Seq::empty()
        }
    }
}

/// Collect the addresses of a bus scan: entry `a` of `acked` tells whether
/// address `a` answered a one-byte read.
pub fn scan_responders(acked: &[bool]) -> (r: Vec<u8>)
    requires
        acked@.len() <= 128,
    ensures
        r@ == responders(acked@, acked@.len() as int),
{
    let mut r: Vec<u8> = Vec::new();
    let mut a: usize = 0;
    while a < acked.len()
        invariant
            a <= acked@.len() <= 128,
            r@ == responders(acked@, a as int),
        decreases acked@.len() - a,
    {
        if acked[a] {
            r.push(a as u8);
        }
        a = a + 1;
        assert(r@ =~= responders(acked@, a as int));
    }
    r
}

} // verus!

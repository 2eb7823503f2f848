//! Serial Wire Debug on the MPSSE: SWCLK on lower pin 0, SWDIO driven on
//! lower pin 1 and read back on lower pin 2.
use crate::mpsse::BankSnapshot;
use crate::mpsse_cmd::{shift_in_stream, shift_opcode, shift_out_stream, MpsseCmdBuilder, SET_GPIO_LOWER, SET_GPIO_UPPER};
use crate::{bit_mask, FtdiError, Pin};
use vstd::prelude::*;

verus! {

/// SWCLK line bit.
pub const SWCLK: u8 = 1;

/// SWDIO (master out) line bit.
pub const SWDIO: u8 = 2;

/// Errors of an SWD transfer.
#[derive(Debug)]
pub enum FtdiSwdError {
    FtdiInner(FtdiError),
    /// The target answered WAIT.
    AckWait,
    /// The target answered FAULT.
    AckFailed,
    /// The target answered with another pattern (the 3 bits as read).
    UnknownAck(u8),
    /// The data's parity bit does not match the data.
    ParityError,
}

/// A debug-port or access-port register address.
#[derive(Debug, Clone, Copy, PartialEq, Eq, Structural)]
pub enum SwdAddr {
    Dp(u8),
    Ap(u8),
}

impl SwdAddr {
    pub open spec fn is_ap(self) -> bool {
        self is Ap
    }

    pub open spec fn reg(self) -> int {
        match self {
            SwdAddr::Dp(r) => r as int,
            SwdAddr::Ap(r) => r as int,
        }
    }

    /// Bit A[2] of the register address.
    pub open spec fn a2(self) -> int {
        (self.reg() / 4) % 2
    }

    /// Bit A[3] of the register address.
    pub open spec fn a3(self) -> int {
        (self.reg() / 8) % 2
    }
}

/// APnDP and A[2:3] in their places of the request byte (bits 1, 3, 4).
pub open spec fn addr_bits(a: SwdAddr) -> int {
    2 * (if a.is_ap() {
        1int
    } else {
        0
    }) + 8 * a.a2() + 16 * a.a3()
}

fn addr_field(value: SwdAddr) -> (r: u8)
    ensures
        r == addr_bits(value),
{
    match value {
        SwdAddr::Dp(reg) => ((reg / 4) % 2) * 8 + ((reg / 8) % 2) * 16,
        SwdAddr::Ap(reg) => 2 + ((reg / 4) % 2) * 8 + ((reg / 8) % 2) * 16,
    }
}

impl From<SwdAddr> for u8 {
    fn from(value: SwdAddr) -> u8 {
        addr_field(value)
    }
}

impl vstd::std_specs::convert::FromSpecImpl<SwdAddr> for u8 {
    open spec fn obeys_from_spec() -> bool {
        true
    }

    open spec fn from_spec(v: SwdAddr) -> u8 {
        addr_bits(v) as u8
    }
}

/// The request byte, sent LSB first: Start(1), APnDP, RnW, A[2:3],
/// Parity, Stop(0), Park(1); the parity is that of APnDP, RnW, A2 and A3.
pub open spec fn request_byte(is_read: bool, addr: SwdAddr) -> int {
    let ap = if addr.is_ap() {
        1int
    } else {
        0
    };
    let rd = if is_read {
        1int
    } else {
        0
    };
    1 + 2 * ap + 4 * rd + 8 * addr.a2() + 16 * addr.a3() + 32 * ((ap + rd + addr.a2()
        + addr.a3()) % 2) + 128
}


/// Build the request byte of a transfer.
pub fn build_request(is_read: bool, addr: SwdAddr) -> (r: u8)
    ensures
        r == request_byte(is_read, addr),
{
    let field = u8::from(addr);
    assert(field == addr_bits(addr));
    let ap: u8 = if let SwdAddr::Ap(_) = addr {
        1
    } else {
        0
    };
    let rd: u8 = if is_read {
        1
    } else {
        0
    };
    let reg = match addr {
        SwdAddr::Dp(r) => r,
        SwdAddr::Ap(r) => r,
    };
    let a2 = (reg / 4) % 2;
    let a3 = (reg / 8) % 2;
    let parity = (ap + rd + a2 + a3) % 2;
    1 + field + 4 * rd + 32 * parity + 128
}

/// Number of set bits among the low `n` bits of `v`.
pub open spec fn ones(v: int, n: nat) -> int
    decreases n,
{
    if n == 0 {
        0
    } else {
        v % 2 + ones(v / 2, (n - 1) as nat)
    }
}

/// Parity of a 32-bit word: its number of set bits, mod 2.
pub open spec fn parity(v: u32) -> int {
    ones(v as int, 32) % 2
}

/// Parity of a 32-bit word.
pub fn parity32(v: u32) -> (r: u8)
    ensures
        r == parity(v),
{
    let mut x: u32 = v;
    let mut c: u32 = 0;
    let mut i: u32 = 0;
    while i < 32
        invariant
            i <= 32,
            c <= i,
            c + ones(x as int, (32 - i) as nat) == ones(v as int, 32),
        decreases 32 - i,
    {
        assert(ones(x as int, (32 - i) as nat) == x as int % 2 + ones(x as int / 2, (31 - i) as nat));
        c = c + x % 2;
        x = x / 2;
        i = i + 1;
    }
    (c % 2) as u8
}

/// The four bytes of a word, least significant first.
pub open spec fn le_bytes(v: u32) -> Seq<u8> {
    seq![
        (v as int % 256) as u8,
        (v as int / 256 % 256) as u8,
        (v as int / 65536 % 256) as u8,
        (v as int / 16777216 % 256) as u8,
    ]
}

/// The word of four bytes, least significant first.
pub open spec fn le_word(b: Seq<u8>) -> int {
    b[0] as int + 256 * (b[1] as int) + 65536 * (b[2] as int) + 16777216 * (b[3] as int)
}

fn to_le(v: u32) -> (r: Vec<u8>)
    ensures
        r@ == le_bytes(v),
{
    let r = vec![(v % 256) as u8, (v / 256 % 256) as u8, (v / 65536 % 256) as u8, (v / 16777216 % 256) as u8];
    assert(r@ =~= le_bytes(v));
    r
}

/// Drive SWCLK and SWDIO as outputs (and enable the SWDIO driver through
/// the direction pin).
pub open spec fn swd_out_seq(p: BankSnapshot) -> Seq<u8> {
    match p.direction_pin {
        Some(Pin::Lower(i)) => seq![
            SET_GPIO_LOWER,
            p.lower_value | bit_mask(i as int),
            p.lower_direction | SWCLK | SWDIO,
        ],
        Some(Pin::Upper(i)) => seq![
            SET_GPIO_LOWER,
            p.lower_value,
            p.lower_direction | SWCLK | SWDIO,
            SET_GPIO_UPPER,
            p.upper_value | bit_mask(i as int),
            p.upper_direction,
        ],
        None => seq![SET_GPIO_LOWER, p.lower_value, p.lower_direction | SWCLK | SWDIO],
    }
}

/// Release SWDIO (input) while SWCLK stays an output.
pub open spec fn swd_in_seq(p: BankSnapshot) -> Seq<u8> {
    match p.direction_pin {
        Some(Pin::Upper(_)) => seq![
            SET_GPIO_UPPER,
            p.upper_value,
            p.upper_direction,
            SET_GPIO_LOWER,
            p.lower_value,
            p.lower_direction | SWCLK,
        ],
        _ => seq![SET_GPIO_LOWER, p.lower_value, p.lower_direction | SWCLK],
    }
}

/// Bytes out, LSB first, clock idling low.
pub open spec fn bytes_out_op() -> u8 {
    shift_opcode(false, false, true, true, false) as u8
}

/// Bits out, LSB first, clock idling low.
pub open spec fn bits_out_op() -> u8 {
    shift_opcode(false, true, true, true, false) as u8
}

/// Bits in, LSB first, clock idling low.
pub open spec fn bits_in_op() -> u8 {
    shift_opcode(false, true, true, false, true) as u8
}

/// Bytes in, LSB first, clock idling low.
pub open spec fn bytes_in_op() -> u8 {
    shift_opcode(false, false, true, false, true) as u8
}

/// Turnaround: one clock with SWDIO released.
pub open spec fn trn_seq(p: BankSnapshot) -> Seq<u8> {
    swd_in_seq(p) + seq![bits_out_op(), 0u8, 0xffu8]
}

pub open spec fn ones_56() -> Seq<u8> {
    Seq::new(7, |i: int| 0xffu8)
}

/// Line reset: 56 clocks with SWDIO high, then 2 idle clocks.
pub open spec fn line_reset_seq(p: BankSnapshot) -> Seq<u8> {
    swd_out_seq(p) + shift_out_stream(bytes_out_op(), ones_56()) + seq![bits_out_op(), 1u8, 0u8]
}

/// The JTAG-to-SWD switch code 0x79E7 sent MSB first, as LSB-first bytes.
pub open spec fn switch_code() -> Seq<u8> {
    seq![0x9eu8, 0xe7u8]
}

/// Activation: line reset ones, the switch code, then a line reset.
pub open spec fn enable_seq(p: BankSnapshot) -> Seq<u8> {
    swd_out_seq(p) + shift_out_stream(bytes_out_op(), ones_56()) + shift_out_stream(
        bytes_out_op(),
        switch_code(),
    ) + line_reset_seq(p)
}

/// Request phase of a transfer.
pub open spec fn request_seq(p: BankSnapshot, req: u8) -> Seq<u8> {
    swd_out_seq(p) + shift_out_stream(bytes_out_op(), seq![req])
}

/// Read the 3 acknowledge bits (one answer byte; they arrive in bits 5..7).
pub open spec fn response_seq(p: BankSnapshot) -> Seq<u8> {
    swd_in_seq(p) + seq![bits_in_op(), 2u8]
}

/// Read 32 data bits and the parity bit (five answer bytes; the parity bit
/// arrives in bit 7 of the last).
pub open spec fn read_data_seq(p: BankSnapshot) -> Seq<u8> {
    swd_in_seq(p) + shift_in_stream(bytes_in_op(), 4) + seq![bits_in_op(), 0u8]
}

/// Write 32 data bits and their parity.
pub open spec fn write_data_seq(p: BankSnapshot, v: u32) -> Seq<u8> {
    swd_out_seq(p) + shift_out_stream(bytes_out_op(), le_bytes(v)) + seq![
        bits_out_op(),
        0u8,
        parity(v) as u8,
    ]
}

/// A command builder for SWD phases over a snapshot of the banks.
pub struct SwdCmdBuilder {
    pub cmd: MpsseCmdBuilder,
    pub pins: BankSnapshot,
}

impl SwdCmdBuilder {
    pub open spec fn wf(&self) -> bool {
        self.cmd.wf() && self.pins.wf()
    }

    pub fn new(pins: BankSnapshot) -> (r: SwdCmdBuilder)
        requires
            pins.wf(),
        ensures
            r.wf(),
            r.pins == pins,
            r.cmd.bytes() == Seq::<u8>::empty(),
            r.cmd.response_len() == 0,
    {
        SwdCmdBuilder { cmd: MpsseCmdBuilder::new(), pins }
    }

    fn swd_out(&mut self)
        requires
            old(self).wf(),
        ensures
            final(self).wf(),
            final(self).pins == old(self).pins,
            final(self).cmd.response_len() == old(self).cmd.response_len(),
            final(self).cmd.bytes() == old(self).cmd.bytes() + swd_out_seq(old(self).pins),
    {
        let p = self.pins;
        let ghost b0 = self.cmd.bytes();
        match p.direction_pin {
            Some(pin) => match pin {
                Pin::Lower(_) => {
                    self.cmd.set_gpio_lower(p.lower_value | pin.mask(), p.lower_direction | SWCLK | SWDIO);
                },
                Pin::Upper(_) => {
                    self.cmd.set_gpio_lower(p.lower_value, p.lower_direction | SWCLK | SWDIO);
                    self.cmd.set_gpio_upper(p.upper_value | pin.mask(), p.upper_direction);
                },
            },
            None => {
                self.cmd.set_gpio_lower(p.lower_value, p.lower_direction | SWCLK | SWDIO);
            },
        }
        assert(self.cmd.bytes() =~= b0 + swd_out_seq(p));
    }

    fn swd_in(&mut self)
        requires
            old(self).wf(),
        ensures
            final(self).wf(),
            final(self).pins == old(self).pins,
            final(self).cmd.response_len() == old(self).cmd.response_len(),
            final(self).cmd.bytes() == old(self).cmd.bytes() + swd_in_seq(old(self).pins),
    {
        let p = self.pins;
        let ghost b0 = self.cmd.bytes();
        if let Some(Pin::Upper(_)) = p.direction_pin {
            self.cmd.set_gpio_upper(p.upper_value, p.upper_direction);
        }
        self.cmd.set_gpio_lower(p.lower_value, p.lower_direction | SWCLK);
        assert(self.cmd.bytes() =~= b0 + swd_in_seq(p));
    }

    /// Turnaround cycle.
    pub fn trn(&mut self)
        requires
            old(self).wf(),
        ensures
            final(self).wf(),
            final(self).pins == old(self).pins,
            final(self).cmd.response_len() == old(self).cmd.response_len(),
            final(self).cmd.bytes() == old(self).cmd.bytes() + trn_seq(old(self).pins),
    {
        let ghost b0 = self.cmd.bytes();
        self.swd_in();
        self.cmd.shift_bits_out(false, true, 0xff, 1);
        assert(self.cmd.bytes() =~= b0 + trn_seq(self.pins));
    }

    /// Line reset.
    pub fn swd_line_reset(&mut self)
        requires
            old(self).wf(),
        ensures
            final(self).wf(),
            final(self).pins == old(self).pins,
            final(self).cmd.response_len() == old(self).cmd.response_len(),
            final(self).cmd.bytes() == old(self).cmd.bytes() + line_reset_seq(old(self).pins),
    {
        let ghost b0 = self.cmd.bytes();
        let ones = vec![0xffu8; 7];
        assert(ones@ =~= ones_56());
        self.swd_out();
        self.cmd.shift_bytes_out(false, true, ones.as_slice());
        self.cmd.shift_bits_out(false, true, 0, 2);
        assert(self.cmd.bytes() =~= b0 + line_reset_seq(self.pins));
    }

    /// Activation sequence.
    pub fn swd_enable(&mut self)
        requires
            old(self).wf(),
        ensures
            final(self).wf(),
            final(self).pins == old(self).pins,
            final(self).cmd.response_len() == old(self).cmd.response_len(),
            final(self).cmd.bytes() == old(self).cmd.bytes() + enable_seq(old(self).pins),
    {
        let ghost b0 = self.cmd.bytes();
        let ones = vec![0xffu8; 7];
        assert(ones@ =~= ones_56());
        let code = vec![0x9eu8, 0xe7u8];
        assert(code@ =~= switch_code());
        self.swd_out();
        self.cmd.shift_bytes_out(false, true, ones.as_slice());
        self.cmd.shift_bytes_out(false, true, code.as_slice());
        self.swd_line_reset();
        assert(self.cmd.bytes() =~= b0 + enable_seq(self.pins));
    }

    /// Send the request byte.
    pub fn swd_send_request(&mut self, request: u8)
        requires
            old(self).wf(),
        ensures
            final(self).wf(),
            final(self).pins == old(self).pins,
            final(self).cmd.response_len() == old(self).cmd.response_len(),
            final(self).cmd.bytes() == old(self).cmd.bytes() + request_seq(old(self).pins, request),
    {
        let ghost b0 = self.cmd.bytes();
        let req = vec![request];
        assert(req@ =~= seq![request]);
        self.swd_out();
        self.cmd.shift_bytes_out(false, true, req.as_slice());
        assert(self.cmd.bytes() =~= b0 + request_seq(self.pins, request));
    }

    /// Read the acknowledge (one answer byte).
    pub fn swd_read_response(&mut self)
        requires
            old(self).wf(),
            old(self).cmd.response_len() < usize::MAX,
        ensures
            final(self).wf(),
            final(self).pins == old(self).pins,
            final(self).cmd.response_len() == old(self).cmd.response_len() + 1,
            final(self).cmd.bytes() == old(self).cmd.bytes() + response_seq(old(self).pins),
    {
        let ghost b0 = self.cmd.bytes();
        self.swd_in();
        self.cmd.shift_bits_in(false, true, 3);
        assert(self.cmd.bytes() =~= b0 + response_seq(self.pins));
    }

    /// Read data and parity (five answer bytes).
    pub fn swd_read_data(&mut self)
        requires
            old(self).wf(),
            old(self).cmd.response_len() + 5 <= usize::MAX,
        ensures
            final(self).wf(),
            final(self).pins == old(self).pins,
            final(self).cmd.response_len() == old(self).cmd.response_len() + 5,
            final(self).cmd.bytes() == old(self).cmd.bytes() + read_data_seq(old(self).pins),
    {
        let ghost b0 = self.cmd.bytes();
        self.swd_in();
        self.cmd.shift_bytes_in(false, true, 4);
        self.cmd.shift_bits_in(false, true, 1);
        assert(self.cmd.bytes() =~= b0 + read_data_seq(self.pins));
    }

    /// Write data and parity.
    pub fn swd_write_data(&mut self, value: u32)
        requires
            old(self).wf(),
        ensures
            final(self).wf(),
            final(self).pins == old(self).pins,
            final(self).cmd.response_len() == old(self).cmd.response_len(),
            final(self).cmd.bytes() == old(self).cmd.bytes() + write_data_seq(old(self).pins, value),
    {
        let ghost b0 = self.cmd.bytes();
        let bytes = to_le(value);
        let parity = parity32(value);
        self.swd_out();
        self.cmd.shift_bytes_out(false, true, bytes.as_slice());
        self.cmd.shift_bits_out(false, true, parity, 1);
        assert(self.cmd.bytes() =~= b0 + write_data_seq(self.pins, value));
    }
}


/// The acknowledge pattern in an answer byte (it arrives in bits 5..7).
pub open spec fn ack_of(b: u8) -> int {
    b as int / 32
}

/// OK (0b001) goes on; WAIT (0b010), FAULT (0b100) and anything else fail.
pub open spec fn ack_outcome(ack: int) -> Result<(), FtdiSwdError> {
    if ack == 1 {
        Ok(())
    } else if ack == 2 {
        Err(FtdiSwdError::AckWait)
    } else if ack == 4 {
        Err(FtdiSwdError::AckFailed)
    } else {
        Err(FtdiSwdError::UnknownAck(ack as u8))
    }
}

/// Judge the acknowledge in an answer byte.
pub fn decode_ack(response: u8) -> (r: Result<(), FtdiSwdError>)
    ensures
        r == ack_outcome(ack_of(response)),
{
    let ack = response >> 5;
    assert(ack == response / 32) by (bit_vector)
        requires
            ack == response >> 5,
    ;
    if ack == 1 {
        Ok(())
    } else if ack == 2 {
        Err(FtdiSwdError::AckWait)
    } else if ack == 4 {
        Err(FtdiSwdError::AckFailed)
    } else {
        Err(FtdiSwdError::UnknownAck(ack))
    }
}

/// Outcome of the data phase of a read from its five answer bytes: the
/// word, least significant byte first, if the parity bit (bit 7 of the
/// fifth byte) matches it.
pub open spec fn data_outcome(resp: Seq<u8>) -> Result<u32, FtdiSwdError> {
    let v = le_word(resp) as u32;
    if resp[4] as int / 128 != parity(v) {
        Err(FtdiSwdError::ParityError)
    } else {
        Ok(v)
    }
}

/// Parse the data phase of a read.
pub fn parse_read_data(response: &[u8]) -> (r: Result<u32, FtdiSwdError>)
    requires
        response@.len() >= 5,
    ensures
        r == data_outcome(response@),
{
    let value: u32 = response[0] as u32 + 256 * (response[1] as u32) + 65536 * (response[2] as u32)
        + 16777216 * (response[3] as u32);
    let par = response[4] / 128;
    if par != parity32(value) {
        Err(FtdiSwdError::ParityError)
    } else {
        Ok(value)
    }
}

/// The word a loopback reads back for what the data phase of a write sent:
/// the same four bytes, and the one parity bit shifted in at bit 7.
pub open spec fn loopback_of_write(v: u32) -> Seq<u8> {
    le_bytes(v) + seq![(parity(v) * 128) as u8]
}

/// Writing a word and reading the same line back gives the word, its
/// parity bit accepted.
pub proof fn lemma_write_read_loopback(v: u32)
    ensures
        data_outcome(loopback_of_write(v)) == Ok::<u32, FtdiSwdError>(v),
{
    let b = loopback_of_write(v);
    let x = v as int;
    assert(b[0] == (x % 256) as u8);
    assert(b[1] == (x / 256 % 256) as u8);
    assert(b[2] == (x / 65536 % 256) as u8);
    assert(b[3] == (x / 16777216 % 256) as u8);
    assert(le_word(b) == x) by (nonlinear_arith)
        requires
            0 <= x < 0x1_0000_0000,
            le_word(b) == x % 256 + 256 * (x / 256 % 256) + 65536 * (x / 65536 % 256) + 16777216 * (x
                / 16777216 % 256),
    ;
    assert(0 <= parity(v) <= 1);
    assert(b[4] as int / 128 == parity(v));
}

/// The activation sequence as one command.
pub fn enable_command(pins: BankSnapshot) -> (cmd: MpsseCmdBuilder)
    requires
        pins.wf(),
    ensures
        cmd.wf(),
        cmd.response_len() == 0,
        cmd.bytes() == enable_seq(pins),
{
    let mut b = SwdCmdBuilder::new(pins);
    b.swd_enable();
    assert(b.cmd.bytes() =~= enable_seq(pins));
    b.cmd
}

/// First exchange of a read: request, turnaround, acknowledge (one answer
/// byte).
pub fn read_request_command(pins: BankSnapshot, addr: SwdAddr) -> (cmd: MpsseCmdBuilder)
    requires
        pins.wf(),
    ensures
        cmd.wf(),
        cmd.response_len() == 1,
        cmd.bytes() == request_seq(pins, request_byte(true, addr) as u8) + trn_seq(pins)
            + response_seq(pins),
{
    let mut b = SwdCmdBuilder::new(pins);
    b.swd_send_request(build_request(true, addr));
    b.trn();
    b.swd_read_response();
    assert(b.cmd.bytes() =~= request_seq(pins, request_byte(true, addr) as u8) + trn_seq(pins)
        + response_seq(pins));
    b.cmd
}

/// First exchange of a write: request, turnaround, acknowledge (one answer
/// byte), turnaround.
pub fn write_request_command(pins: BankSnapshot, addr: SwdAddr) -> (cmd: MpsseCmdBuilder)
    requires
        pins.wf(),
    ensures
        cmd.wf(),
        cmd.response_len() == 1,
        cmd.bytes() == request_seq(pins, request_byte(false, addr) as u8) + trn_seq(pins)
            + response_seq(pins) + trn_seq(pins),
{
    let mut b = SwdCmdBuilder::new(pins);
    b.swd_send_request(build_request(false, addr));
    b.trn();
    b.swd_read_response();
    b.trn();
    assert(b.cmd.bytes() =~= request_seq(pins, request_byte(false, addr) as u8) + trn_seq(pins)
        + response_seq(pins) + trn_seq(pins));
    b.cmd
}

/// What follows the acknowledge of a read: on OK the data phase and a
/// turnaround (five answer bytes); otherwise the error, with a turnaround
/// to send before giving up.
pub fn read_after_ack(pins: BankSnapshot, ack_response: u8) -> (r: Result<
    MpsseCmdBuilder,
    (FtdiSwdError, MpsseCmdBuilder),
>)
    requires
        pins.wf(),
    ensures
        match (r, ack_outcome(ack_of(ack_response))) {
            (Ok(cmd), Ok(_)) => cmd.wf() && cmd.response_len() == 5 && cmd.bytes() == read_data_seq(
                pins,
            ) + trn_seq(pins),
            (Err((e, cmd)), Err(f)) => e == f && cmd.wf() && cmd.response_len() == 0
                && cmd.bytes() == trn_seq(pins),
            _ => false,
        },
{
    match decode_ack(ack_response) {
        Ok(()) => {
            let mut b = SwdCmdBuilder::new(pins);
            b.swd_read_data();
            b.trn();
            assert(b.cmd.bytes() =~= read_data_seq(pins) + trn_seq(pins));
            Ok(b.cmd)
        },
        Err(e) => {
            let mut b = SwdCmdBuilder::new(pins);
            b.trn();
            assert(b.cmd.bytes() =~= trn_seq(pins));
            Err((e, b.cmd))
        },
    }
}

/// What follows the acknowledge of a write: on OK the data phase;
/// otherwise the error.
pub fn write_after_ack(pins: BankSnapshot, ack_response: u8, value: u32) -> (r: Result<
    MpsseCmdBuilder,
    FtdiSwdError,
>)
    requires
        pins.wf(),
    ensures
        match (r, ack_outcome(ack_of(ack_response))) {
            (Ok(cmd), Ok(_)) => cmd.wf() && cmd.response_len() == 0 && cmd.bytes()
                == write_data_seq(pins, value),
            (Err(e), Err(f)) => e == f,
            _ => false,
        },
{
    match decode_ack(ack_response) {
        Ok(()) => {
            let mut b = SwdCmdBuilder::new(pins);
            b.swd_write_data(value);
            assert(b.cmd.bytes() =~= write_data_seq(pins, value));
            Ok(b.cmd)
        },
        Err(e) => Err(e),
    }
}

} // verus!

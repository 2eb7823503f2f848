//! MPSSE opcode encoding and the command-stream builder.
use vstd::prelude::*;

verus! {

/// `w` when `b` holds, else 0.
pub open spec fn flag(b: bool, w: int) -> int {
    if b {
        w
    } else {
        0
    }
}

/// The data-shift opcode for a clock that idles at `tck_idle`, in bit or
/// byte mode, in the given bit order and direction.  Data is driven on the
/// second clock edge and sampled on the first.
pub open spec fn shift_opcode(
    tck_idle: bool,
    bit_mode: bool,
    lsb_first: bool,
    writing: bool,
    reading: bool,
) -> int {
    flag(!tck_idle && writing, 0x01) + flag(bit_mode, 0x02) + flag(tck_idle && reading, 0x04)
        + flag(lsb_first, 0x08) + flag(writing, 0x10) + flag(reading, 0x20)
}

/// The TMS-shift opcode: always bit mode, LSB first, with TMS written.
pub open spec fn tms_opcode(tck_idle: bool, tdo_neg_read: bool, tdo_read: bool) -> int {
    0x4a + flag(!tck_idle, 0x01) + flag(tdo_neg_read && tdo_read, 0x04) + flag(tdo_read, 0x20)
}

/// Encoder of the data-shift opcodes.
pub struct MpsseShiftCmd;

impl MpsseShiftCmd {
    /// The opcode that shifts data with the clock idling at
    /// `tck_init_value`; at least one of writing and reading is asked for.
    pub fn shift(
        tck_init_value: bool,
        is_bit_mode: bool,
        is_lsb: bool,
        is_tdi_write: bool,
        is_tdo_read: bool,
    ) -> (r: u8)
        requires
            is_tdi_write || is_tdo_read,
        ensures
            r == shift_opcode(tck_init_value, is_bit_mode, is_lsb, is_tdi_write, is_tdo_read),
    {
        let mut op: u8 = 0;
        if !tck_init_value && is_tdi_write {
            op = op + 0x01;
        }
        if is_bit_mode {
            op = op + 0x02;
        }
        if tck_init_value && is_tdo_read {
            op = op + 0x04;
        }
        if is_lsb {
            op = op + 0x08;
        }
        if is_tdi_write {
            op = op + 0x10;
        }
        if is_tdo_read {
            op = op + 0x20;
        }
        op
    }

    /// The TMS-shift opcode for every combination of clock level, read edge
    /// and read flag.
    pub fn _tms_shift(tck_init_value: bool, tdo_neg_read: bool, tdo_read: bool) -> (r: u8)
        ensures
            r == tms_opcode(tck_init_value, tdo_neg_read, tdo_read),
    {
        let mut op: u8 = 0x4a;
        if !tck_init_value {
            op = op + 0x01;
        }
        if tdo_neg_read && tdo_read {
            op = op + 0x04;
        }
        if tdo_read {
            op = op + 0x20;
        }
        op
    }

    /// The TMS-shift opcode used by JTAG: clock idles low, TDO sampled on
    /// the rising edge.
    pub fn tms_shift(tdo_read: bool) -> (r: u8)
        ensures
            r == tms_opcode(false, false, tdo_read),
    {
        Self::_tms_shift(false, false, tdo_read)
    }
}


/// The opcodes that the hardware documents for data and TMS shifts.
pub open spec fn legal_shift_opcodes() -> Set<int> {
    set![0x10int, 0x11, 0x12, 0x13, 0x18, 0x19, 0x1a, 0x1b, 0x20, 0x22, 0x24, 0x26, 0x28, 0x2a, 0x2c, 0x2e, 0x31, 0x33, 0x34, 0x36, 0x39, 0x3b, 0x3c, 0x3e, 0x4a, 0x4b, 0x6a, 0x6b, 0x6e, 0x6f]
}

/// Every shift that writes or reads, and every TMS shift, encodes to a
/// documented opcode; and every documented opcode is the encoding of one
/// of them.
pub proof fn lemma_shift_opcode_table()
    ensures
        forall|tck: bool, bit: bool, lsb: bool, w: bool, r: bool|
            (w || r) ==> legal_shift_opcodes().contains(
                #[trigger] shift_opcode(tck, bit, lsb, w, r),
            ),
        forall|tck: bool, neg: bool, r: bool|
            legal_shift_opcodes().contains(#[trigger] tms_opcode(tck, neg, r)),
        forall|op: int|
            #![trigger legal_shift_opcodes().contains(op)]
            legal_shift_opcodes().contains(op) ==> (exists|
                tck: bool,
                bit: bool,
                lsb: bool,
                w: bool,
                r: bool,
            |
                (w || r) && #[trigger] shift_opcode(tck, bit, lsb, w, r) == op) || (exists|
                tck: bool,
                neg: bool,
                r: bool,
            |
                #[trigger] tms_opcode(tck, neg, r) == op),
{
    assert(shift_opcode(true, false, false, true, false) == 0x10);
    assert(shift_opcode(false, false, false, true, false) == 0x11);
    assert(shift_opcode(true, true, false, true, false) == 0x12);
    assert(shift_opcode(false, true, false, true, false) == 0x13);
    assert(shift_opcode(true, false, true, true, false) == 0x18);
    assert(shift_opcode(false, false, true, true, false) == 0x19);
    assert(shift_opcode(true, true, true, true, false) == 0x1a);
    assert(shift_opcode(false, true, true, true, false) == 0x1b);
    assert(shift_opcode(false, false, false, false, true) == 0x20);
    assert(shift_opcode(false, true, false, false, true) == 0x22);
    assert(shift_opcode(true, false, false, false, true) == 0x24);
    assert(shift_opcode(true, true, false, false, true) == 0x26);
    assert(shift_opcode(false, false, true, false, true) == 0x28);
    assert(shift_opcode(false, true, true, false, true) == 0x2a);
    assert(shift_opcode(true, false, true, false, true) == 0x2c);
    assert(shift_opcode(true, true, true, false, true) == 0x2e);
    assert(shift_opcode(false, false, false, true, true) == 0x31);
    assert(shift_opcode(false, true, false, true, true) == 0x33);
    assert(shift_opcode(true, false, false, true, true) == 0x34);
    assert(shift_opcode(true, true, false, true, true) == 0x36);
    assert(shift_opcode(false, false, true, true, true) == 0x39);
    assert(shift_opcode(false, true, true, true, true) == 0x3b);
    assert(shift_opcode(true, false, true, true, true) == 0x3c);
    assert(shift_opcode(true, true, true, true, true) == 0x3e);
    assert(tms_opcode(true, false, false) == 0x4a);
    assert(tms_opcode(false, false, false) == 0x4b);
    assert(tms_opcode(true, false, true) == 0x6a);
    assert(tms_opcode(false, false, true) == 0x6b);
    assert(tms_opcode(true, true, true) == 0x6e);
    assert(tms_opcode(false, true, true) == 0x6f);
}

/// Largest number of bytes that one byte-mode shift command can carry.
pub const MAX_BYTES_SHIFT: usize = 65536;

/// Opcodes with a fixed meaning (not data shifts).
pub const SET_GPIO_LOWER: u8 = 0x80;
pub const GET_GPIO_LOWER: u8 = 0x81;
pub const SET_GPIO_UPPER: u8 = 0x82;
pub const GET_GPIO_UPPER: u8 = 0x83;
pub const ENABLE_LOOPBACK: u8 = 0x84;
pub const DISABLE_LOOPBACK: u8 = 0x85;
pub const SET_CLOCK_DIVISOR: u8 = 0x86;
pub const SEND_IMMEDIATE: u8 = 0x87;
pub const WAIT_ON_IO_HIGH: u8 = 0x88;
pub const WAIT_ON_IO_LOW: u8 = 0x89;
pub const DISABLE_DIVIDE_BY5: u8 = 0x8a;
pub const ENABLE_DIVIDE_BY5: u8 = 0x8b;
pub const ENABLE_3PHASE: u8 = 0x8c;
pub const DISABLE_3PHASE: u8 = 0x8d;
pub const ENABLE_ADAPTIVE: u8 = 0x96;
pub const DISABLE_ADAPTIVE: u8 = 0x97;

/// Data-shift opcodes occupy 0x10..0x80; their flag bits say what they do.
pub open spec fn is_shift_op(op: u8) -> bool {
    0x10 <= op < 0x80
}

pub open spec fn op_bit(op: u8, w: int) -> bool {
    (op as int / w) % 2 == 1
}

pub open spec fn known_op(op: u8) -> bool {
    is_shift_op(op) || (0x80 <= op <= 0x8d) || op == 0x96 || op == 0x97
}

/// Count field of a byte-mode shift: the two bytes after the opcode hold
/// `count - 1`, little-endian.
pub open spec fn byte_count(s: Seq<u8>) -> int {
    s[1] as int + 256 * (s[2] as int) + 1
}

/// Length in bytes of the command at the front of `s`.
pub open spec fn cmd_len(s: Seq<u8>) -> int {
    let op = s[0];
    if is_shift_op(op) {
        if op_bit(op, 0x40) {
            3
        } else if op_bit(op, 0x02) {
            if op_bit(op, 0x10) {
                3
            } else {
                2
            }
        } else if op_bit(op, 0x10) {
            3 + byte_count(s)
        } else {
            3
        }
    } else if op == SET_GPIO_LOWER || op == SET_GPIO_UPPER || op == SET_CLOCK_DIVISOR {
        3
    } else {
        1
    }
}

/// Number of bytes the device sends back for the command at the front of `s`.
pub open spec fn cmd_response(s: Seq<u8>) -> int {
    let op = s[0];
    if is_shift_op(op) {
        if !op_bit(op, 0x20) {
            0
        } else if op_bit(op, 0x40) || op_bit(op, 0x02) {
            1
        } else {
            byte_count(s)
        }
    } else if op == GET_GPIO_LOWER || op == GET_GPIO_UPPER {
        1
    } else {
        0
    }
}

/// `s` is a sequence of whole commands with known opcodes.
pub open spec fn stream_complete(s: Seq<u8>) -> bool
    decreases s.len(),
{
    if s.len() == 0 {
        true
    } else {
        known_op(s[0]) && 1 <= cmd_len(s) <= s.len() && stream_complete(s.skip(cmd_len(s)))
    }
}

/// Number of bytes the device sends back for the command stream `s`.
pub open spec fn stream_response_len(s: Seq<u8>) -> int
    decreases s.len(),
{
    if s.len() == 0 {
        0
    } else if 1 <= cmd_len(s) <= s.len() {
        cmd_response(s) + stream_response_len(s.skip(cmd_len(s)))
    } else {
        0
    }
}

/// Response accounting is additive: a complete stream followed by any other
/// stream is answered by the answers of the first, then those of the second.
pub proof fn lemma_stream_append(s: Seq<u8>, t: Seq<u8>)
    requires
        stream_complete(s),
    ensures
        stream_complete(s + t) == stream_complete(t),
        stream_response_len(s + t) == stream_response_len(s) + stream_response_len(t),
    decreases s.len(),
{
    if s.len() == 0 {
        assert(s + t =~= t);
    } else {
        let l = cmd_len(s);
        let st = s + t;
        assert(st[0] == s[0]);
        if l > 2 {
            assert(st[1] == s[1]);
            assert(st[2] == s[2]);
        }
        assert(cmd_len(st) == l);
        assert(cmd_response(st) == cmd_response(s));
        assert(st.skip(l) =~= s.skip(l) + t);
        lemma_stream_append(s.skip(l), t);
    }
}

/// No stream asks for a negative number of answer bytes.
pub proof fn lemma_stream_response_nonneg(s: Seq<u8>)
    ensures
        stream_response_len(s) >= 0,
    decreases s.len(),
{
    if s.len() > 0 && 1 <= cmd_len(s) <= s.len() {
        lemma_stream_response_nonneg(s.skip(cmd_len(s)));
    }
}

/// A single whole command is a complete stream answered by its own response.
pub proof fn lemma_single_cmd(c: Seq<u8>)
    requires
        c.len() > 0,
        known_op(c[0]),
        cmd_len(c) == c.len(),
    ensures
        stream_complete(c),
        stream_response_len(c) == cmd_response(c),
{
    let rest = c.skip(cmd_len(c));
    assert(rest =~= Seq::<u8>::empty());
    assert(stream_complete(rest));
    assert(stream_response_len(rest) == 0);
}


/// The opcode's flag bits, as the stream model reads them.
pub proof fn lemma_shift_opcode_bits(tck: bool, bit: bool, lsb: bool, w: bool, r: bool)
    requires
        w || r,
    ensures
        is_shift_op(shift_opcode(tck, bit, lsb, w, r) as u8),
        shift_opcode(tck, bit, lsb, w, r) == shift_opcode(tck, bit, lsb, w, r) as u8,
        !op_bit(shift_opcode(tck, bit, lsb, w, r) as u8, 0x40),
        op_bit(shift_opcode(tck, bit, lsb, w, r) as u8, 0x02) == bit,
        op_bit(shift_opcode(tck, bit, lsb, w, r) as u8, 0x10) == w,
        op_bit(shift_opcode(tck, bit, lsb, w, r) as u8, 0x20) == r,
{
}

pub proof fn lemma_tms_opcode_bits(tck: bool, neg: bool, r: bool)
    ensures
        is_shift_op(tms_opcode(tck, neg, r) as u8),
        tms_opcode(tck, neg, r) == tms_opcode(tck, neg, r) as u8,
        op_bit(tms_opcode(tck, neg, r) as u8, 0x40),
        op_bit(tms_opcode(tck, neg, r) as u8, 0x20) == r,
{
}

/// Header of a byte-mode shift of `n` bytes (1 ..= 65536).
pub open spec fn byte_shift_header(op: u8, n: int) -> Seq<u8> {
    seq![op, ((n - 1) % 256) as u8, ((n - 1) / 256) as u8]
}

/// Command stream of a byte-mode shift of `data` that writes its payload,
/// cut into commands of at most 65536 bytes each.
pub open spec fn shift_out_stream(op: u8, data: Seq<u8>) -> Seq<u8>
    decreases data.len(),
{
    if data.len() == 0 {
        Seq::empty()
    } else if data.len() <= MAX_BYTES_SHIFT {
        byte_shift_header(op, data.len() as int) + data
    } else {
        byte_shift_header(op, MAX_BYTES_SHIFT as int) + data.take(MAX_BYTES_SHIFT as int)
            + shift_out_stream(op, data.skip(MAX_BYTES_SHIFT as int))
    }
}

/// Command stream of a read-only byte-mode shift of `n` bytes, cut into
/// commands of at most 65536 bytes each.
pub open spec fn shift_in_stream(op: u8, n: int) -> Seq<u8>
    decreases n,
{
    if n <= 0 {
        Seq::empty()
    } else if n <= MAX_BYTES_SHIFT {
        byte_shift_header(op, n)
    } else {
        byte_shift_header(op, MAX_BYTES_SHIFT as int) + shift_in_stream(op, n - MAX_BYTES_SHIFT)
    }
}

/// `data` cut into pieces of 65536 bytes, the last one shorter.
pub open spec fn byte_chunks(data: Seq<u8>) -> Seq<Seq<u8>>
    decreases data.len(),
{
    if data.len() == 0 {
        Seq::empty()
    } else if data.len() <= MAX_BYTES_SHIFT {
        seq![data]
    } else {
        seq![data.take(MAX_BYTES_SHIFT as int)] + byte_chunks(data.skip(MAX_BYTES_SHIFT as int))
    }
}

/// One byte-mode shift command per piece, each header counting its piece.
pub open spec fn framed_chunks(op: u8, chunks: Seq<Seq<u8>>) -> Seq<u8>
    decreases chunks.len(),
{
    if chunks.len() == 0 {
        Seq::empty()
    } else {
        byte_shift_header(op, chunks[0].len() as int) + chunks[0] + framed_chunks(
            op,
            chunks.drop_first(),
        )
    }
}

/// A shift of L bytes goes out as ceil(L / 65536) commands of 1 to 65536
/// bytes each, whose payloads, put back together, are the bytes given.
pub proof fn lemma_byte_shift_chunking(op: u8, data: Seq<u8>)
    ensures
        shift_out_stream(op, data) == framed_chunks(op, byte_chunks(data)),
        byte_chunks(data).len() == (data.len() + MAX_BYTES_SHIFT - 1) / (MAX_BYTES_SHIFT as int),
        forall|i: int|
            0 <= i < byte_chunks(data).len() ==> 1 <= (#[trigger] byte_chunks(data)[i]).len()
                <= MAX_BYTES_SHIFT,
        byte_chunks(data).flatten() == data,
    decreases data.len(),
{
    let m = MAX_BYTES_SHIFT as int;
    let cs = byte_chunks(data);
    if data.len() == 0 {
        assert(framed_chunks(op, cs) == Seq::<u8>::empty());
        assert(cs.flatten() == Seq::<u8>::empty());
    } else if data.len() <= MAX_BYTES_SHIFT {
        assert(cs.drop_first() =~= Seq::<Seq<u8>>::empty());
        assert(framed_chunks(op, cs.drop_first()) == Seq::<u8>::empty());
        assert(cs.drop_first().flatten() == Seq::<u8>::empty());
        assert(framed_chunks(op, cs) =~= byte_shift_header(op, data.len() as int) + data);
        assert(cs.flatten() =~= data);
    } else {
        let rest = data.skip(m);
        lemma_byte_shift_chunking(op, rest);
        let rcs = byte_chunks(rest);
        assert(cs.drop_first() =~= rcs);
        assert(cs[0] == data.take(m));
        assert(framed_chunks(op, cs) =~= byte_shift_header(op, m) + data.take(m) + framed_chunks(
            op,
            rcs,
        ));
        assert(cs.flatten() =~= data.take(m) + rcs.flatten());
        assert(data.take(m) + rest =~= data);
        assert forall|i: int| 0 <= i < cs.len() implies 1 <= (#[trigger] cs[i]).len() <= m by {
            if i > 0 {
                assert(cs[i] == rcs[i - 1]);
            }
        }
    }
}

pub proof fn lemma_byte_header(op: u8, n: int, payload: Seq<u8>)
    requires
        1 <= n <= MAX_BYTES_SHIFT,
        is_shift_op(op),
        !op_bit(op, 0x40),
        !op_bit(op, 0x02),
        op_bit(op, 0x10) ==> payload.len() == n,
        !op_bit(op, 0x10) ==> payload.len() == 0,
    ensures
        stream_complete(byte_shift_header(op, n) + payload),
        stream_response_len(byte_shift_header(op, n) + payload) == if op_bit(op, 0x20) {
            n
        } else {
            0
        },
{
    let c = byte_shift_header(op, n) + payload;
    assert(c[0] == op);
    assert(c[1] == ((n - 1) % 256) as u8);
    assert(c[2] == ((n - 1) / 256) as u8);
    assert(byte_count(c) == n);
    lemma_single_cmd(c);
}

/// Payload byte of a TMS shift: the TMS bits, with the TDI level in bit 7.
pub open spec fn tms_payload(tdi: bool, data: u8) -> u8 {
    if tdi {
        data | 0x80
    } else {
        data
    }
}

/// FTDI MPSSE command builder: an append-only opcode stream together with
/// the number of bytes the device will send back for it.
pub struct MpsseCmdBuilder {
    cmd: Vec<u8>,
    read_len: usize,
}

impl MpsseCmdBuilder {
    /// The command bytes built so far.
    pub closed spec fn bytes(&self) -> Seq<u8> {
        self.cmd@
    }

    /// The number of bytes the device is expected to answer.
    pub closed spec fn response_len(&self) -> int {
        self.read_len as int
    }

    /// The stream is made of whole commands and the expected answer length
    /// is exactly what the device sends back for it.
    pub open spec fn wf(&self) -> bool {
        stream_complete(self.bytes()) && stream_response_len(self.bytes()) == self.response_len()
    }

    /// An empty command.
    pub fn new() -> (r: MpsseCmdBuilder)
        ensures
            r.wf(),
            r.bytes() == Seq::<u8>::empty(),
            r.response_len() == 0,
    {
        MpsseCmdBuilder { cmd: Vec::new(), read_len: 0 }
    }

    /// The command bytes built so far.
    pub fn as_slice(&self) -> (r: &[u8])
        ensures
            r@ == self.bytes(),
    {
        self.cmd.as_slice()
    }

    /// The number of bytes the device answers to this command.
    pub fn read_len(&self) -> (r: usize)
        ensures
            r == self.response_len(),
    {
        self.read_len
    }

    fn push_cmd1(&mut self, a: u8, resp: usize)
        requires
            old(self).wf(),
            known_op(a),
            cmd_len(seq![a]) == 1,
            resp == cmd_response(seq![a]),
            old(self).response_len() + resp <= usize::MAX,
        ensures
            final(self).wf(),
            final(self).bytes() == old(self).bytes() + seq![a],
            final(self).response_len() == old(self).response_len() + resp,
    {
        let ghost before = self.cmd@;
        self.cmd.push(a);
        self.read_len = self.read_len + resp;
        proof {
            lemma_single_cmd(seq![a]);
            lemma_stream_append(before, seq![a]);
            assert(self.cmd@ =~= before + seq![a]);
        }
    }

    fn push_cmd2(&mut self, a: u8, b: u8, resp: usize)
        requires
            old(self).wf(),
            known_op(a),
            cmd_len(seq![a, b]) == 2,
            resp == cmd_response(seq![a, b]),
            old(self).response_len() + resp <= usize::MAX,
        ensures
            final(self).wf(),
            final(self).bytes() == old(self).bytes() + seq![a, b],
            final(self).response_len() == old(self).response_len() + resp,
    {
        let ghost before = self.cmd@;
        self.cmd.push(a);
        self.cmd.push(b);
        self.read_len = self.read_len + resp;
        proof {
            lemma_single_cmd(seq![a, b]);
            lemma_stream_append(before, seq![a, b]);
            assert(self.cmd@ =~= before + seq![a, b]);
        }
    }

    fn push_cmd3(&mut self, a: u8, b: u8, c: u8, resp: usize)
        requires
            old(self).wf(),
            known_op(a),
            cmd_len(seq![a, b, c]) == 3,
            resp == cmd_response(seq![a, b, c]),
            old(self).response_len() + resp <= usize::MAX,
        ensures
            final(self).wf(),
            final(self).bytes() == old(self).bytes() + seq![a, b, c],
            final(self).response_len() == old(self).response_len() + resp,
    {
        let ghost before = self.cmd@;
        self.cmd.push(a);
        self.cmd.push(b);
        self.cmd.push(c);
        self.read_len = self.read_len + resp;
        proof {
            lemma_single_cmd(seq![a, b, c]);
            lemma_stream_append(before, seq![a, b, c]);
            assert(self.cmd@ =~= before + seq![a, b, c]);
        }
    }

    /// Finish the command: append send-immediate so the device flushes its
    /// answer, and hand back the bytes with a zeroed answer buffer of the
    /// expected length.
    pub fn destruct(self) -> (r: (Vec<u8>, Vec<u8>))
        requires
            self.wf(),
        ensures
            r.0@ == self.bytes() + seq![SEND_IMMEDIATE],
            stream_complete(r.0@),
            stream_response_len(r.0@) == self.response_len(),
            r.1@ == Seq::new(self.response_len() as nat, |i: int| 0u8),
    {
        let mut this = self;
        this.send_immediate();
        let resp = vec![0u8; this.read_len];
        proof {
            assert(resp@ =~= Seq::new(this.response_len() as nat, |i: int| 0u8));
        }
        (this.cmd, resp)
    }

    /// Set the clock divisor, preceded by the divide-by-5 switch when the
    /// chip has one.
    pub fn set_clock(&mut self, divisor: u16, clk_div_by5: Option<bool>)
        requires
            old(self).wf(),
        ensures
            final(self).wf(),
            final(self).response_len() == old(self).response_len(),
            final(self).bytes() == old(self).bytes() + match clk_div_by5 {
                Some(true) => seq![ENABLE_DIVIDE_BY5],
                Some(false) => seq![DISABLE_DIVIDE_BY5],
                None => Seq::<u8>::empty(),
            } + seq![SET_CLOCK_DIVISOR, (divisor % 256) as u8, (divisor / 256) as u8],
    {
        let ghost before = self.bytes();
        match clk_div_by5 {
            Some(true) => self.push_cmd1(ENABLE_DIVIDE_BY5, 0),
            Some(false) => self.push_cmd1(DISABLE_DIVIDE_BY5, 0),
            None => {},
        }
        let ghost mid = self.bytes();
        self.push_cmd3(SET_CLOCK_DIVISOR, (divisor % 256) as u8, (divisor / 256) as u8, 0);
        proof {
            if clk_div_by5.is_none() {
                assert(mid =~= before + Seq::<u8>::empty());
            }
        }
    }

    /// Switch the internal TDI-to-TDO loopback on or off.
    pub fn enable_loopback(&mut self, state: bool)
        requires
            old(self).wf(),
        ensures
            final(self).wf(),
            final(self).response_len() == old(self).response_len(),
            final(self).bytes() == old(self).bytes() + seq![
                if state {
                    ENABLE_LOOPBACK
                } else {
                    DISABLE_LOOPBACK
                },
            ],
    {
        if state {
            self.push_cmd1(ENABLE_LOOPBACK, 0);
        } else {
            self.push_cmd1(DISABLE_LOOPBACK, 0);
        }
    }

    /// Switch 3-phase data clocking (data valid on both clock edges) on or
    /// off.
    pub fn enable_3phase_data_clocking(&mut self, state: bool)
        requires
            old(self).wf(),
        ensures
            final(self).wf(),
            final(self).response_len() == old(self).response_len(),
            final(self).bytes() == old(self).bytes() + seq![
                if state {
                    ENABLE_3PHASE
                } else {
                    DISABLE_3PHASE
                },
            ],
    {
        if state {
            self.push_cmd1(ENABLE_3PHASE, 0);
        } else {
            self.push_cmd1(DISABLE_3PHASE, 0);
        }
    }

    /// Switch adaptive (RTCK) clocking on or off.
    pub fn enable_adaptive_clocking(&mut self, state: bool)
        requires
            old(self).wf(),
        ensures
            final(self).wf(),
            final(self).response_len() == old(self).response_len(),
            final(self).bytes() == old(self).bytes() + seq![
                if state {
                    ENABLE_ADAPTIVE
                } else {
                    DISABLE_ADAPTIVE
                },
            ],
    {
        if state {
            self.push_cmd1(ENABLE_ADAPTIVE, 0);
        } else {
            self.push_cmd1(DISABLE_ADAPTIVE, 0);
        }
    }

    /// Set value and direction (1 = output) of the lower pin bank.
    pub fn set_gpio_lower(&mut self, state: u8, direction: u8)
        requires
            old(self).wf(),
        ensures
            final(self).wf(),
            final(self).response_len() == old(self).response_len(),
            final(self).bytes() == old(self).bytes() + seq![SET_GPIO_LOWER, state, direction],
    {
        self.push_cmd3(SET_GPIO_LOWER, state, direction, 0);
    }

    /// Set value and direction (1 = output) of the upper pin bank.
    pub fn set_gpio_upper(&mut self, state: u8, direction: u8)
        requires
            old(self).wf(),
        ensures
            final(self).wf(),
            final(self).response_len() == old(self).response_len(),
            final(self).bytes() == old(self).bytes() + seq![SET_GPIO_UPPER, state, direction],
    {
        self.push_cmd3(SET_GPIO_UPPER, state, direction, 0);
    }

    /// Read the levels of the lower pin bank (one answer byte).
    pub fn gpio_lower(&mut self)
        requires
            old(self).wf(),
            old(self).response_len() < usize::MAX,
        ensures
            final(self).wf(),
            final(self).response_len() == old(self).response_len() + 1,
            final(self).bytes() == old(self).bytes() + seq![GET_GPIO_LOWER],
    {
        self.push_cmd1(GET_GPIO_LOWER, 1);
    }

    /// Read the levels of the upper pin bank (one answer byte).
    pub fn gpio_upper(&mut self)
        requires
            old(self).wf(),
            old(self).response_len() < usize::MAX,
        ensures
            final(self).wf(),
            final(self).response_len() == old(self).response_len() + 1,
            final(self).bytes() == old(self).bytes() + seq![GET_GPIO_UPPER],
    {
        self.push_cmd1(GET_GPIO_UPPER, 1);
    }

    /// Ask the device to send its answer without waiting for its buffer
    /// to fill.
    pub fn send_immediate(&mut self)
        requires
            old(self).wf(),
        ensures
            final(self).wf(),
            final(self).response_len() == old(self).response_len(),
            final(self).bytes() == old(self).bytes() + seq![SEND_IMMEDIATE],
    {
        self.push_cmd1(SEND_IMMEDIATE, 0);
    }

    /// Hold further commands until GPIOL1 is high.
    pub fn _wait_on_io_high(&mut self)
        requires
            old(self).wf(),
        ensures
            final(self).wf(),
            final(self).response_len() == old(self).response_len(),
            final(self).bytes() == old(self).bytes() + seq![WAIT_ON_IO_HIGH],
    {
        self.push_cmd1(WAIT_ON_IO_HIGH, 0);
    }

    /// Hold further commands until GPIOL1 is low.
    pub fn _wait_on_io_low(&mut self)
        requires
            old(self).wf(),
        ensures
            final(self).wf(),
            final(self).response_len() == old(self).response_len(),
            final(self).bytes() == old(self).bytes() + seq![WAIT_ON_IO_LOW],
    {
        self.push_cmd1(WAIT_ON_IO_LOW, 0);
    }

    /// One byte-mode shift command of at most 65536 bytes; `payload` tells
    /// whether `data` follows the header.
    fn push_byte_shift(&mut self, op: u8, data: &[u8], n: usize, payload: bool, resp: usize)
        requires
            old(self).wf(),
            1 <= n <= MAX_BYTES_SHIFT,
            is_shift_op(op),
            !op_bit(op, 0x40),
            !op_bit(op, 0x02),
            op_bit(op, 0x10) == payload,
            payload ==> data@.len() == n,
            resp == if op_bit(op, 0x20) {
                n
            } else {
                0
            },
            old(self).response_len() + resp <= usize::MAX,
        ensures
            final(self).wf(),
            final(self).response_len() == old(self).response_len() + resp,
            final(self).bytes() == old(self).bytes() + byte_shift_header(op, n as int) + if payload {
                data@
            } else {
                Seq::<u8>::empty()
            },
    {
        let ghost before = self.cmd@;
        let len = n - 1;
        self.cmd.push(op);
        self.cmd.push((len % 256) as u8);
        self.cmd.push((len / 256) as u8);
        let ghost head = self.cmd@;
        if payload {
            let mut i: usize = 0;
            while i < data.len()
                invariant
                    i <= data@.len(),
                    self.cmd@ == head + data@.take(i as int),
                    self.read_len == old(self).read_len,
                decreases data@.len() - i,
            {
                self.cmd.push(data[i]);
                i = i + 1;
                proof {
                    assert(data@.take(i as int) =~= data@.take(i - 1) + seq![data@[i - 1]]);
                }
            }
            assert(data@.take(data@.len() as int) =~= data@);
        }
        self.read_len = self.read_len + resp;
        proof {
            let pl = if payload {
                data@
            } else {
                Seq::<u8>::empty()
            };
            let c = byte_shift_header(op, n as int) + pl;
            assert(head =~= before + byte_shift_header(op, n as int));
            assert(self.cmd@ =~= before + c);
            lemma_byte_header(op, n as int, pl);
            lemma_stream_append(before, c);
        }
    }

    /// Clock `data` (at most 65536 bytes) out on TDI; nothing is read.
    fn shift_bytes_out_limited(&mut self, tck_init_value: bool, is_lsb: bool, data: &[u8])
        requires
            old(self).wf(),
            data@.len() <= MAX_BYTES_SHIFT,
        ensures
            final(self).wf(),
            final(self).response_len() == old(self).response_len(),
            final(self).bytes() == old(self).bytes() + shift_out_stream(
                shift_opcode(tck_init_value, false, is_lsb, true, false) as u8,
                data@,
            ),
    {
        if data.len() == 0 {
            assert(old(self).bytes() + Seq::<u8>::empty() =~= old(self).bytes());
            return;
        }
        let op = MpsseShiftCmd::shift(tck_init_value, false, is_lsb, true, false);
        proof {
            lemma_shift_opcode_bits(tck_init_value, false, is_lsb, true, false);
        }
        self.push_byte_shift(op, data, data.len(), true, 0);
        assert(self.bytes() =~= old(self).bytes() + shift_out_stream(op, data@));
    }

    /// Clock `data` out on TDI in commands of at most 65536 bytes, reading
    /// TDO at the same time when `reading`.
    fn shift_bytes_chunked(&mut self, tck_init_value: bool, is_lsb: bool, data: &[u8], reading: bool)
        requires
            old(self).wf(),
            reading ==> old(self).response_len() + data@.len() <= usize::MAX,
        ensures
            final(self).wf(),
            final(self).response_len() == old(self).response_len() + if reading {
                data@.len() as int
            } else {
                0
            },
            final(self).bytes() == old(self).bytes() + shift_out_stream(
                shift_opcode(tck_init_value, false, is_lsb, true, reading) as u8,
                data@,
            ),
    {
        let ghost op = shift_opcode(tck_init_value, false, is_lsb, true, reading) as u8;
        let mut i: usize = 0;
        assert(data@.skip(0) =~= data@);
        while i < data.len()
            invariant
                self.wf(),
                i <= data@.len(),
                op == shift_opcode(tck_init_value, false, is_lsb, true, reading) as u8,
                self.response_len() == old(self).response_len() + if reading {
                    i as int
                } else {
                    0
                },
                reading ==> old(self).response_len() + data@.len() <= usize::MAX,
                old(self).bytes() + shift_out_stream(op, data@) == self.bytes() + shift_out_stream(
                    op,
                    data@.skip(i as int),
                ),
            decreases data@.len() - i,
        {
            let k = if data.len() - i > MAX_BYTES_SHIFT {
                MAX_BYTES_SHIFT
            } else {
                data.len() - i
            };
            let ghost b0 = self.bytes();
            let part = &data[i..i + k];
            assert(part@ == data@.subrange(i as int, i + k));
            if reading {
                self.shift_bytes_limited(tck_init_value, is_lsb, part);
            } else {
                self.shift_bytes_out_limited(tck_init_value, is_lsb, part);
            }
            proof {
                let rest = data@.skip(i as int);
                let chunk = data@.subrange(i as int, i + k);
                assert(rest.take(k as int) =~= chunk);
                assert(rest.skip(k as int) =~= data@.skip(i + k));
                assert(self.bytes() == b0 + shift_out_stream(op, chunk));
                if rest.len() > MAX_BYTES_SHIFT {
                    assert(shift_out_stream(op, chunk) == byte_shift_header(op, k as int) + chunk);
                    assert(shift_out_stream(op, rest) == byte_shift_header(op, k as int) + chunk
                        + shift_out_stream(op, data@.skip(i + k)));
                    assert(b0 + shift_out_stream(op, rest) =~= b0 + shift_out_stream(op, chunk)
                        + shift_out_stream(op, data@.skip(i + k)));
                } else {
                    assert(rest =~= chunk);
                    assert(data@.skip(i + k) =~= Seq::<u8>::empty());
                    assert(shift_out_stream(op, data@.skip(i + k)) =~= Seq::<u8>::empty());
                }
                assert(b0 + shift_out_stream(op, rest) =~= self.bytes() + shift_out_stream(
                    op,
                    data@.skip(i + k),
                ));
            }
            i = i + k;
        }
        assert(data@.skip(i as int) =~= Seq::<u8>::empty());
        assert(shift_out_stream(op, data@.skip(i as int)) =~= Seq::<u8>::empty());
        assert(self.bytes() + Seq::<u8>::empty() =~= self.bytes());
    }

    /// Clock `data` out on TDI, in commands of at most 65536 bytes; nothing
    /// is read.
    pub fn shift_bytes_out(&mut self, tck_init_value: bool, is_lsb: bool, data: &[u8])
        requires
            old(self).wf(),
        ensures
            final(self).wf(),
            final(self).response_len() == old(self).response_len(),
            final(self).bytes() == old(self).bytes() + shift_out_stream(
                shift_opcode(tck_init_value, false, is_lsb, true, false) as u8,
                data@,
            ),
    {
        self.shift_bytes_chunked(tck_init_value, is_lsb, data, false);
    }

    /// Clock `data` out on TDI while reading as many bytes from TDO, in
    /// commands of at most 65536 bytes.
    pub fn shift_bytes(&mut self, tck_init_value: bool, is_lsb: bool, data: &[u8])
        requires
            old(self).wf(),
            old(self).response_len() + data@.len() <= usize::MAX,
        ensures
            final(self).wf(),
            final(self).response_len() == old(self).response_len() + data@.len(),
            final(self).bytes() == old(self).bytes() + shift_out_stream(
                shift_opcode(tck_init_value, false, is_lsb, true, true) as u8,
                data@,
            ),
    {
        self.shift_bytes_chunked(tck_init_value, is_lsb, data, true);
    }

    /// Clock `data` (at most 65536 bytes) out on TDI while reading as many
    /// bytes from TDO.
    fn shift_bytes_limited(&mut self, tck_init_value: bool, is_lsb: bool, data: &[u8])
        requires
            old(self).wf(),
            data@.len() <= MAX_BYTES_SHIFT,
            old(self).response_len() + data@.len() <= usize::MAX,
        ensures
            final(self).wf(),
            final(self).response_len() == old(self).response_len() + data@.len(),
            final(self).bytes() == old(self).bytes() + shift_out_stream(
                shift_opcode(tck_init_value, false, is_lsb, true, true) as u8,
                data@,
            ),
    {
        if data.len() == 0 {
            assert(old(self).bytes() + Seq::<u8>::empty() =~= old(self).bytes());
            return;
        }
        let op = MpsseShiftCmd::shift(tck_init_value, false, is_lsb, true, true);
        proof {
            lemma_shift_opcode_bits(tck_init_value, false, is_lsb, true, true);
        }
        self.push_byte_shift(op, data, data.len(), true, data.len());
        assert(self.bytes() =~= old(self).bytes() + shift_out_stream(op, data@));
    }

    /// Read `len` (at most 65536) bytes from TDO; nothing is written.
    fn shift_bytes_in_limited(&mut self, tck_init_value: bool, is_lsb: bool, len: usize)
        requires
            old(self).wf(),
            len <= MAX_BYTES_SHIFT,
            old(self).response_len() + len <= usize::MAX,
        ensures
            final(self).wf(),
            final(self).response_len() == old(self).response_len() + len,
            final(self).bytes() == old(self).bytes() + shift_in_stream(
                shift_opcode(tck_init_value, false, is_lsb, false, true) as u8,
                len as int,
            ),
    {
        if len == 0 {
            assert(old(self).bytes() + Seq::<u8>::empty() =~= old(self).bytes());
            return;
        }
        let op = MpsseShiftCmd::shift(tck_init_value, false, is_lsb, false, true);
        proof {
            lemma_shift_opcode_bits(tck_init_value, false, is_lsb, false, true);
        }
        let empty: [u8; 0] = [];
        self.push_byte_shift(op, &empty, len, false, len);
        assert(self.bytes() =~= old(self).bytes() + shift_in_stream(op, len as int));
    }

    /// Read `len` bytes from TDO in commands of at most 65536 bytes;
    /// nothing is written.
    pub fn shift_bytes_in(&mut self, tck_init_value: bool, is_lsb: bool, len: usize)
        requires
            old(self).wf(),
            old(self).response_len() + len <= usize::MAX,
        ensures
            final(self).wf(),
            final(self).response_len() == old(self).response_len() + len,
            final(self).bytes() == old(self).bytes() + shift_in_stream(
                shift_opcode(tck_init_value, false, is_lsb, false, true) as u8,
                len as int,
            ),
    {
        let ghost op = shift_opcode(tck_init_value, false, is_lsb, false, true) as u8;
        let mut left: usize = len;
        while left > MAX_BYTES_SHIFT
            invariant
                self.wf(),
                left <= len,
                op == shift_opcode(tck_init_value, false, is_lsb, false, true) as u8,
                self.response_len() == old(self).response_len() + (len - left),
                old(self).response_len() + len <= usize::MAX,
                old(self).bytes() + shift_in_stream(op, len as int) == self.bytes()
                    + shift_in_stream(op, left as int),
            decreases left,
        {
            let ghost b0 = self.bytes();
            self.shift_bytes_in_limited(tck_init_value, is_lsb, MAX_BYTES_SHIFT);
            proof {
                assert(shift_in_stream(op, MAX_BYTES_SHIFT as int) == byte_shift_header(
                    op,
                    MAX_BYTES_SHIFT as int,
                ));
                assert(b0 + shift_in_stream(op, left as int) =~= self.bytes() + shift_in_stream(
                    op,
                    left - MAX_BYTES_SHIFT,
                ));
            }
            left = left - MAX_BYTES_SHIFT;
        }
        self.shift_bytes_in_limited(tck_init_value, is_lsb, left);
    }

    /// Clock out the `len` (at most 8) leading bits of `data` on TDI.
    pub fn shift_bits_out(&mut self, tck_init_value: bool, is_lsb: bool, data: u8, len: usize)
        requires
            old(self).wf(),
            len <= 8,
        ensures
            final(self).wf(),
            final(self).response_len() == old(self).response_len(),
            final(self).bytes() == old(self).bytes() + if len == 0 {
                Seq::<u8>::empty()
            } else {
                seq![
                    shift_opcode(tck_init_value, true, is_lsb, true, false) as u8,
                    (len - 1) as u8,
                    data,
                ]
            },
    {
        if len == 0 {
            assert(old(self).bytes() + Seq::<u8>::empty() =~= old(self).bytes());
            return;
        }
        let op = MpsseShiftCmd::shift(tck_init_value, true, is_lsb, true, false);
        proof {
            lemma_shift_opcode_bits(tck_init_value, true, is_lsb, true, false);
        }
        self.push_cmd3(op, (len - 1) as u8, data, 0);
    }

    /// Clock `len` (at most 8) bits in from TDO; they come back as one byte.
    pub fn shift_bits_in(&mut self, tck_init_value: bool, is_lsb: bool, len: usize)
        requires
            old(self).wf(),
            len <= 8,
            old(self).response_len() < usize::MAX,
        ensures
            final(self).wf(),
            final(self).response_len() == old(self).response_len() + if len == 0 {
                0int
            } else {
                1
            },
            final(self).bytes() == old(self).bytes() + if len == 0 {
                Seq::<u8>::empty()
            } else {
                seq![shift_opcode(tck_init_value, true, is_lsb, false, true) as u8, (len - 1) as u8]
            },
    {
        if len == 0 {
            assert(old(self).bytes() + Seq::<u8>::empty() =~= old(self).bytes());
            return;
        }
        let op = MpsseShiftCmd::shift(tck_init_value, true, is_lsb, false, true);
        proof {
            lemma_shift_opcode_bits(tck_init_value, true, is_lsb, false, true);
        }
        self.push_cmd2(op, (len - 1) as u8, 1);
    }

    /// Clock the `len` (at most 8) leading bits of `data` out on TDI while
    /// clocking as many bits in; they come back as one byte.
    pub fn shift_bits(&mut self, tck_init_value: bool, is_lsb: bool, data: u8, len: usize)
        requires
            old(self).wf(),
            len <= 8,
            old(self).response_len() < usize::MAX,
        ensures
            final(self).wf(),
            final(self).response_len() == old(self).response_len() + if len == 0 {
                0int
            } else {
                1
            },
            final(self).bytes() == old(self).bytes() + if len == 0 {
                Seq::<u8>::empty()
            } else {
                seq![
                    shift_opcode(tck_init_value, true, is_lsb, true, true) as u8,
                    (len - 1) as u8,
                    data,
                ]
            },
    {
        if len == 0 {
            assert(old(self).bytes() + Seq::<u8>::empty() =~= old(self).bytes());
            return;
        }
        let op = MpsseShiftCmd::shift(tck_init_value, true, is_lsb, true, true);
        proof {
            lemma_shift_opcode_bits(tck_init_value, true, is_lsb, true, true);
        }
        self.push_cmd3(op, (len - 1) as u8, data, 1);
    }

    /// Clock the `len` (at most 7) leading bits of `data` out on TMS while
    /// TDI holds `tdi`.
    pub fn clock_tms_out(&mut self, tdi: bool, data: u8, len: usize)
        requires
            old(self).wf(),
            len <= 7,
        ensures
            final(self).wf(),
            final(self).response_len() == old(self).response_len(),
            final(self).bytes() == old(self).bytes() + if len == 0 {
                Seq::<u8>::empty()
            } else {
                seq![tms_opcode(false, false, false) as u8, (len - 1) as u8, tms_payload(tdi, data)]
            },
    {
        if len == 0 {
            assert(old(self).bytes() + Seq::<u8>::empty() =~= old(self).bytes());
            return;
        }
        let data = if tdi {
            data | 0x80
        } else {
            data
        };
        let op = MpsseShiftCmd::tms_shift(false);
        proof {
            lemma_tms_opcode_bits(false, false, false);
        }
        self.push_cmd3(op, (len - 1) as u8, data, 0);
    }

    /// Clock the `len` (at most 7) leading bits of `data` out on TMS while
    /// TDI holds `tdi`, reading TDO; the bits come back as one byte.
    pub fn clock_tms(&mut self, tdi: bool, data: u8, len: usize)
        requires
            old(self).wf(),
            len <= 7,
            old(self).response_len() < usize::MAX,
        ensures
            final(self).wf(),
            final(self).response_len() == old(self).response_len() + if len == 0 {
                0int
            } else {
                1
            },
            final(self).bytes() == old(self).bytes() + if len == 0 {
                Seq::<u8>::empty()
            } else {
                seq![tms_opcode(false, false, true) as u8, (len - 1) as u8, tms_payload(tdi, data)]
            },
    {
        if len == 0 {
            assert(old(self).bytes() + Seq::<u8>::empty() =~= old(self).bytes());
            return;
        }
        let data = if tdi {
            data | 0x80
        } else {
            data
        };
        let op = MpsseShiftCmd::tms_shift(true);
        proof {
            lemma_tms_opcode_bits(false, false, true);
        }
        self.push_cmd3(op, (len - 1) as u8, data, 1);
    }

    /// Append the whole of `other`.
    pub fn append(&mut self, other: &MpsseCmdBuilder)
        requires
            old(self).wf(),
            other.wf(),
            old(self).response_len() + other.response_len() <= usize::MAX,
        ensures
            final(self).wf(),
            final(self).bytes() == old(self).bytes() + other.bytes(),
            final(self).response_len() == old(self).response_len() + other.response_len(),
    {
        let ghost before = self.cmd@;
        let mut i: usize = 0;
        while i < other.cmd.len()
            invariant
                i <= other.cmd@.len(),
                self.cmd@ == before + other.cmd@.take(i as int),
                self.read_len == old(self).read_len,
            decreases other.cmd@.len() - i,
        {
            self.cmd.push(other.cmd[i]);
            i = i + 1;
            assert(other.cmd@.take(i as int) =~= other.cmd@.take(i - 1) + seq![other.cmd@[i - 1]]);
        }
        assert(other.cmd@.take(i as int) =~= other.cmd@);
        self.read_len = self.read_len + other.read_len;
        proof {
            lemma_stream_append(before, other.cmd@);
        }
    }
}

} // verus!

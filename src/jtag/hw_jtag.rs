//! JTAG on the MPSSE: TCK on lower pin 0 (idles low), TDI on 1, TDO on 2,
//! TMS on 3. Data goes LSB first; TDI is driven on the falling edge and
//! TDO sampled on the rising one.
use crate::mpsse_cmd::{shift_opcode, shift_out_stream, tms_opcode, tms_payload, MpsseCmdBuilder};
use vstd::prelude::*;

verus! {

/// TMS sequence: `len` bits of `data`, LSB first, with TDI held high.
pub open spec fn tms_seq(data: u8, len: int) -> Seq<u8> {
    seq![tms_opcode(false, false, false) as u8, (len - 1) as u8, tms_payload(true, data)]
}

/// Byte-mode read-and-write opcode for JTAG data.
pub open spec fn bytes_inout_op() -> u8 {
    shift_opcode(false, false, true, true, true) as u8
}

pub open spec fn bytes_out_op() -> u8 {
    shift_opcode(false, false, true, true, false) as u8
}

pub open spec fn bytes_in_op() -> u8 {
    shift_opcode(false, false, true, false, true) as u8
}

pub open spec fn bits_inout_op() -> u8 {
    shift_opcode(false, true, true, true, true) as u8
}

pub open spec fn bits_out_op() -> u8 {
    shift_opcode(false, true, true, true, false) as u8
}

pub open spec fn bits_in_op() -> u8 {
    shift_opcode(false, true, true, false, true) as u8
}

/// Whole bytes of a `bits`-long shift that go in byte mode: all but the
/// byte holding the last bit.
pub open spec fn full_bytes(bits: int) -> int {
    (bits - 1) / 8
}

/// Bits of the byte holding the last bit that go in bit mode (all its bits
/// but the last one).
pub open spec fn tail_bits(bits: int) -> int {
    (bits - 1) % 8
}

/// The last bit of a `bits`-long LSB-first shift of `data`.
pub open spec fn last_bit(data: Seq<u8>, bits: int) -> bool {
    (data[full_bytes(bits)] >> (tail_bits(bits) as u8)) & 1 == 1
}

/// Bit-mode part of a shift: nothing when there are no tail bits.
pub open spec fn opt_bits(op: u8, n: int, data: Option<u8>) -> Seq<u8> {
    if n == 0 {
        Seq::empty()
    } else {
        match data {
            Some(d) => seq![op, (n - 1) as u8, d],
            None => seq![op, (n - 1) as u8],
        }
    }
}

/// A shift of `bits` bits that reads and writes, leaving the shift state
/// with its last bit (TMS high on the last clock).
pub open spec fn shift_seq(data: Seq<u8>, bits: int) -> Seq<u8> {
    shift_out_stream(bytes_inout_op(), data.take(full_bytes(bits))) + opt_bits(
        bits_inout_op(),
        tail_bits(bits),
        Some(data[full_bytes(bits)]),
    ) + seq![tms_opcode(false, false, true) as u8, 0u8, tms_payload(last_bit(data, bits), 1u8)]
}

/// As `shift_seq`, writing only.
pub open spec fn shift_write_seq(data: Seq<u8>, bits: int) -> Seq<u8> {
    shift_out_stream(bytes_out_op(), data.take(full_bytes(bits))) + opt_bits(
        bits_out_op(),
        tail_bits(bits),
        Some(data[full_bytes(bits)]),
    ) + seq![tms_opcode(false, false, false) as u8, 0u8, tms_payload(last_bit(data, bits), 1u8)]
}

/// Number of answer bytes of a reading shift of `bits` bits.
pub open spec fn shift_response_len(bits: int) -> int {
    full_bytes(bits) + (if tail_bits(bits) == 0 {
        0int
    } else {
        1
    }) + 1
}

/// A command builder for JTAG sequences.
pub struct JtagCmdBuilder(pub MpsseCmdBuilder);

impl JtagCmdBuilder {
    pub open spec fn wf(&self) -> bool {
        self.0.wf()
    }

    pub open spec fn bytes(&self) -> Seq<u8> {
        self.0.bytes()
    }

    pub open spec fn response_len(&self) -> int {
        self.0.response_len()
    }

    pub fn new() -> (r: JtagCmdBuilder)
        ensures
            r.wf(),
            r.bytes() == Seq::<u8>::empty(),
            r.response_len() == 0,
    {
        JtagCmdBuilder(MpsseCmdBuilder::new())
    }

    /// From any state to Run-Test/Idle: TMS 1 five times, then 0.
    pub fn jtag_any2idle(&mut self)
        requires
            old(self).wf(),
        ensures
            final(self).wf(),
            final(self).response_len() == old(self).response_len(),
            final(self).bytes() == old(self).bytes() + tms_seq(0b0001_1111, 6),
    {
        self.0.clock_tms_out(true, 0b0001_1111, 6);
    }

    /// Seven clocks in Run-Test/Idle.
    pub fn jtag_idle_cycle(&mut self)
        requires
            old(self).wf(),
        ensures
            final(self).wf(),
            final(self).response_len() == old(self).response_len(),
            final(self).bytes() == old(self).bytes() + tms_seq(0, 7),
    {
        self.0.clock_tms_out(true, 0, 7);
    }

    /// Run-Test/Idle to Shift-IR: TMS 1, 1, 0, 0.
    pub fn jtag_idle2ir(&mut self)
        requires
            old(self).wf(),
        ensures
            final(self).wf(),
            final(self).response_len() == old(self).response_len(),
            final(self).bytes() == old(self).bytes() + tms_seq(0b0000_0011, 4),
    {
        self.0.clock_tms_out(true, 0b0000_0011, 4);
    }

    /// Exit1-IR to Shift-DR: TMS 1, 1, 0, 0.
    pub fn jtag_ir_exit2dr(&mut self)
        requires
            old(self).wf(),
        ensures
            final(self).wf(),
            final(self).response_len() == old(self).response_len(),
            final(self).bytes() == old(self).bytes() + tms_seq(0b0000_0011, 4),
    {
        self.0.clock_tms_out(true, 0b0000_0011, 4);
    }

    /// Run-Test/Idle to Shift-DR: TMS 1, 0, 0.
    pub fn jtag_idle2dr(&mut self)
        requires
            old(self).wf(),
        ensures
            final(self).wf(),
            final(self).response_len() == old(self).response_len(),
            final(self).bytes() == old(self).bytes() + tms_seq(0b0000_0001, 3),
    {
        self.0.clock_tms_out(true, 0b0000_0001, 3);
    }

    /// Exit1-DR to Run-Test/Idle: TMS 1, 0.
    pub fn jtag_dr_exit2idle(&mut self)
        requires
            old(self).wf(),
        ensures
            final(self).wf(),
            final(self).response_len() == old(self).response_len(),
            final(self).bytes() == old(self).bytes() + tms_seq(0b0000_0001, 2),
    {
        self.0.clock_tms_out(true, 0b0000_0001, 2);
    }

    /// Shift `bits_count` bits of `data` through the selected register,
    /// reading TDO; the last bit goes with TMS high, which leaves the shift
    /// state.
    pub fn jtag_shift(&mut self, data: &[u8], bits_count: usize)
        requires
            old(self).wf(),
            bits_count >= 1,
            data@.len() > full_bytes(bits_count as int),
            old(self).response_len() + shift_response_len(bits_count as int) <= usize::MAX,
        ensures
            final(self).wf(),
            final(self).response_len() == old(self).response_len() + shift_response_len(
                bits_count as int,
            ),
            final(self).bytes() == old(self).bytes() + shift_seq(data@, bits_count as int),
    {
        let ghost b0 = self.bytes();
        let bytes_count = (bits_count - 1) / 8;
        let remain_bits = (bits_count - 1) % 8;
        let last = (data[bytes_count] >> (remain_bits as u8)) & 1 == 1;
        let head = &data[0..bytes_count];
        assert(head@ =~= data@.take(bytes_count as int));
        self.0.shift_bytes(false, true, head);
        self.0.shift_bits(false, true, data[bytes_count], remain_bits);
        self.0.clock_tms(last, 1, 1);
        assert(self.bytes() =~= b0 + shift_seq(data@, bits_count as int));
    }

    /// As `jtag_shift`, writing only.
    pub fn jtag_shift_write(&mut self, data: &[u8], bits_count: usize)
        requires
            old(self).wf(),
            bits_count >= 1,
            data@.len() > full_bytes(bits_count as int),
        ensures
            final(self).wf(),
            final(self).response_len() == old(self).response_len(),
            final(self).bytes() == old(self).bytes() + shift_write_seq(data@, bits_count as int),
    {
        let ghost b0 = self.bytes();
        let bytes_count = (bits_count - 1) / 8;
        let remain_bits = (bits_count - 1) % 8;
        let last = (data[bytes_count] >> (remain_bits as u8)) & 1 == 1;
        let head = &data[0..bytes_count];
        assert(head@ =~= data@.take(bytes_count as int));
        self.0.shift_bytes_out(false, true, head);
        self.0.shift_bits_out(false, true, data[bytes_count], remain_bits);
        self.0.clock_tms_out(last, 1, 1);
        assert(self.bytes() =~= b0 + shift_write_seq(data@, bits_count as int));
    }

    /// As `jtag_shift`, reading only (TDI held low).
    pub fn jtag_shift_read(&mut self, bits_count: usize)
        requires
            old(self).wf(),
            bits_count >= 1,
            old(self).response_len() + shift_response_len(bits_count as int) <= usize::MAX,
        ensures
            final(self).wf(),
            final(self).response_len() == old(self).response_len() + shift_response_len(
                bits_count as int,
            ),
            final(self).bytes() == old(self).bytes() + shift_read_seq(bits_count as int),
    {
        let ghost b0 = self.bytes();
        let bytes_count = (bits_count - 1) / 8;
        let remain_bits = (bits_count - 1) % 8;
        self.0.shift_bytes_in(false, true, bytes_count);
        self.0.shift_bits_in(false, true, remain_bits);
        self.0.clock_tms(false, 1, 1);
        assert(self.bytes() =~= b0 + shift_read_seq(bits_count as int));
    }

    /// Bring the answer of a reading shift back to `bits_count` bits, LSB
    /// first: the bit-mode bits arrive at the top of their byte and the
    /// last bit at the top of the byte after.
    pub fn jtag_parse_single_shift(response: &[u8], bits_count: usize) -> (r: Vec<u8>)
        requires
            bits_count >= 1,
            response@.len() >= shift_response_len(bits_count as int),
        ensures
            r@ == response@.take(full_bytes(bits_count as int)) + seq![
                aligned_tail(response@, bits_count as int),
            ],
    {
        let bytes_count = (bits_count - 1) / 8;
        let remain_bits = (bits_count - 1) % 8;
        let mut r: Vec<u8> = Vec::new();
        let mut i: usize = 0;
        while i < bytes_count
            invariant
                i <= bytes_count,
                bytes_count == full_bytes(bits_count as int),
                response@.len() > bytes_count,
                r@ == response@.take(i as int),
            decreases bytes_count - i,
        {
            r.push(response[i]);
            i = i + 1;
            assert(response@.take(i as int) =~= response@.take(i - 1) + seq![response@[i - 1]]);
        }
        let tail = if remain_bits == 0 {
            response[bytes_count] >> 7
        } else {
            (response[bytes_count] >> (8 - remain_bits) as u8) | ((response[bytes_count + 1] & 0x80)
                >> (7 - remain_bits) as u8)
        };
        r.push(tail);
        r
    }
}

/// A reading-only shift of `bits` bits.
pub open spec fn shift_read_seq(bits: int) -> Seq<u8> {
    crate::mpsse_cmd::shift_in_stream(bytes_in_op(), full_bytes(bits)) + opt_bits(
        bits_in_op(),
        tail_bits(bits),
        None,
    ) + seq![tms_opcode(false, false, true) as u8, 0u8, tms_payload(false, 1u8)]
}

/// The byte holding the last bits of a shift, realigned to start at bit 0.
pub open spec fn aligned_tail(resp: Seq<u8>, bits: int) -> u8 {
    let k = full_bytes(bits);
    let n = tail_bits(bits);
    if n == 0 {
        resp[k] >> 7u8
    } else {
        (resp[k] >> (8 - n) as u8) | ((resp[k + 1] & 0x80) >> (7 - n) as u8)
    }
}


/// Bits in an IDCODE, and the run of bypass bits that ends a chain.
pub const ID_LEN: u32 = 32;

/// State of an IDCODE chain scan.
pub struct ScanState {
    /// One entry per device slot seen: `None` for a bypass bit.
    pub ids: Seq<Option<u32>>,
    /// Shift register of the IDCODE being read.
    pub cur: u32,
    /// Bits of it read so far.
    pub count: int,
    /// Bypass bits in a row.
    pub zeros: int,
    /// The chain has ended.
    pub done: bool,
}

pub open spec fn scan_init() -> ScanState {
    ScanState { ids: Seq::empty(), cur: 0, count: 0, zeros: 0, done: false }
}

/// Shift a bit into the top of the IDCODE register (bits come LSB first).
pub open spec fn shift_in(cur: u32, bit: bool) -> u32 {
    (cur >> 1u32) | (if bit {
        0x8000_0000u32
    } else {
        0u32
    })
}

/// One TDO bit. A 0 where an IDCODE would start is a device in bypass;
/// otherwise the bit belongs to a 32-bit IDCODE. 32 bypass bits in a row
/// end the chain, and so does an IDCODE of all ones.
pub open spec fn scan_step(s: ScanState, bit: bool) -> ScanState {
    if s.done {
        s
    } else {
        let s1 = if s.count == 0 && !bit {
            ScanState { ids: s.ids.push(None), zeros: s.zeros + 1, ..s }
        } else {
            ScanState { cur: shift_in(s.cur, bit), count: s.count + 1, zeros: 0, ..s }
        };
        if s1.zeros == ID_LEN {
            ScanState { done: true, ..s1 }
        } else if s1.count == ID_LEN {
            if s1.cur == 0xffff_ffffu32 {
                ScanState { done: true, ..s1 }
            } else {
                ScanState { ids: s1.ids.push(Some(s1.cur)), count: 0, ..s1 }
            }
        } else {
            s1
        }
    }
}

/// The scan state after the bits `bits`, starting from `s`.
pub open spec fn scan_from(s: ScanState, bits: Seq<bool>) -> ScanState
    decreases bits.len(),
{
    if bits.len() == 0 {
        s
    } else {
        scan_step(scan_from(s, bits.drop_last()), bits.last())
    }
}

/// The device slots a finished scan reports: a run of 32 bypass bits that
/// ended the chain is no device.
pub open spec fn chain_ids(s: ScanState) -> Seq<Option<u32>> {
    if s.done && s.zeros == ID_LEN {
        s.ids.take(s.ids.len() - ID_LEN)
    } else {
        s.ids
    }
}

/// The bits of `bytes`, each byte LSB first.
pub open spec fn bits_of(bytes: Seq<u8>) -> Seq<bool> {
    Seq::new(8 * bytes.len(), |i: int| (bytes[i / 8] >> ((i % 8) as u8)) & 1 == 1)
}

/// An IDCODE chain scan fed bit by bit.
pub struct IdcodeScanner {
    ids: Vec<Option<u32>>,
    cur: u32,
    count: u32,
    zeros: u32,
    done: bool,
}

impl View for IdcodeScanner {
    type V = ScanState;

    closed spec fn view(&self) -> ScanState {
        ScanState {
            ids: self.ids@,
            cur: self.cur,
            count: self.count as int,
            zeros: self.zeros as int,
            done: self.done,
        }
    }
}

impl ScanState {
    /// Counters stay below 32 while the scan runs.
    pub open spec fn wf(self) -> bool {
        0 <= self.count <= ID_LEN && 0 <= self.zeros <= ID_LEN && self.zeros <= self.ids.len() && (
        !self.done ==> self.count < ID_LEN && self.zeros < ID_LEN)
    }
}

impl IdcodeScanner {
    pub fn new() -> (r: IdcodeScanner)
        ensures
            r@ == scan_init(),
    {
        let r = IdcodeScanner { ids: Vec::new(), cur: 0, count: 0, zeros: 0, done: false };
        assert(r@.ids =~= Seq::<Option<u32>>::empty());
        r
    }

    /// Whether the chain has ended.
    pub fn is_done(&self) -> (r: bool)
        ensures
            r == self@.done,
    {
        self.done
    }

    /// Take one TDO bit.
    pub fn feed(&mut self, bit: bool)
        requires
            old(self)@.wf(),
        ensures
            final(self)@.wf(),
            final(self)@ == scan_step(old(self)@, bit),
    {
        if self.done {
            return;
        }
        if self.count == 0 && !bit {
            self.ids.push(None);
            self.zeros = self.zeros + 1;
        } else {
            self.cur = (self.cur >> 1) | if bit {
                0x8000_0000u32
            } else {
                0
            };
            self.count = self.count + 1;
            self.zeros = 0;
        }
        if self.zeros == ID_LEN {
            self.done = true;
        } else if self.count == ID_LEN {
            if self.cur == 0xffff_ffff {
                self.done = true;
            } else {
                self.ids.push(Some(self.cur));
                self.count = 0;
            }
        }
        assert(self@ =~= scan_step(old(self)@, bit));
    }

    /// Take the bits of `bytes`, each byte LSB first; stops early once the
    /// chain has ended. Returns whether it has.
    pub fn feed_bytes(&mut self, bytes: &[u8]) -> (r: bool)
        requires
            old(self)@.wf(),
        ensures
            final(self)@.wf(),
            final(self)@ == scan_from(old(self)@, bits_of(bytes@)),
            r == final(self)@.done,
    {
        let ghost bits = bits_of(bytes@);
        let mut j: usize = 0;
        assert(bits.take(0) =~= Seq::<bool>::empty());
        while j < bytes.len()
            invariant
                j <= bytes@.len(),
                bits == bits_of(bytes@),
                self@.wf(),
                self@ == scan_from(old(self)@, bits.take(8 * j)),
            decreases bytes@.len() - j,
        {
            let byte = bytes[j];
            let mut b: u8 = 0;
            while b < 8
                invariant
                    j < bytes@.len(),
                    b <= 8,
                    byte == bytes@[j as int],
                    bits == bits_of(bytes@),
                    self@.wf(),
                    self@ == scan_from(old(self)@, bits.take(8 * j + b)),
                decreases 8 - b,
            {
                let bit = (byte >> b) & 1 == 1;
                proof {
                    let k = 8 * j + b;
                    assert(k / 8 == j as int && k % 8 == b as int);
                    assert(bits[k] == bit);
                    assert(bits.take(k + 1).drop_last() =~= bits.take(k));
                    assert(bits.take(k + 1).last() == bits[k]);
                }
                self.feed(bit);
                b = b + 1;
            }
            j = j + 1;
        }
        assert(bits.take(8 * j) =~= bits);
        self.done
    }

    /// Take the level of the pin with bit `mask` in each bank sample;
    /// stops early once the chain has ended. Returns whether it has.
    pub fn feed_samples(&mut self, samples: &[u8], mask: u8) -> (r: bool)
        requires
            old(self)@.wf(),
        ensures
            final(self)@.wf(),
            final(self)@ == scan_from(old(self)@, project(samples@, mask)),
            r == final(self)@.done,
    {
        let ghost bits = project(samples@, mask);
        let mut i: usize = 0;
        assert(bits.take(0) =~= Seq::<bool>::empty());
        while i < samples.len()
            invariant
                i <= samples@.len(),
                bits == project(samples@, mask),
                self@.wf(),
                self@ == scan_from(old(self)@, bits.take(i as int)),
            decreases samples@.len() - i,
        {
            let bit = samples[i] & mask != 0;
            assert(bits.take(i + 1).drop_last() =~= bits.take(i as int));
            self.feed(bit);
            i = i + 1;
        }
        assert(bits.take(i as int) =~= bits);
        self.done
    }

    /// The device slots of the chain: IDCODEs, `None` for a device in
    /// bypass.
    pub fn chain(&self) -> (r: Vec<Option<u32>>)
        requires
            self@.wf(),
        ensures
            r@ == chain_ids(self@),
    {
        let n: usize = if self.done && self.zeros == ID_LEN {
            self.ids.len() - 32
        } else {
            self.ids.len()
        };
        let mut r: Vec<Option<u32>> = Vec::new();
        let mut i: usize = 0;
        while i < n
            invariant
                i <= n <= self.ids@.len(),
                r@ == self.ids@.take(i as int),
            decreases n - i,
        {
            r.push(self.ids[i]);
            i = i + 1;
            assert(self.ids@.take(i as int) =~= self.ids@.take(i - 1) + seq![self.ids@[i - 1]]);
        }
        assert(self.ids@.take(n as int) =~= chain_ids(self@));
        r
    }

    /// Every slot seen, including a run of bypass bits that ended the chain.
    pub fn chain_all(&self) -> (r: Vec<Option<u32>>)
        ensures
            r@ == self@.ids,
    {
        self.ids.clone()
    }

    /// Every slot seen, a bypass bit as 0.
    pub fn slots(&self) -> (r: Vec<u32>)
        ensures
            r@ == self@.ids.map_values(|x: Option<u32>| x.unwrap_or(0)),
    {
        let mut r: Vec<u32> = Vec::new();
        let mut i: usize = 0;
        while i < self.ids.len()
            invariant
                i <= self.ids@.len(),
                r@ == self.ids@.take(i as int).map_values(|x: Option<u32>| x.unwrap_or(0)),
            decreases self.ids@.len() - i,
        {
            let v = match self.ids[i] {
                Some(x) => x,
                None => 0,
            };
            r.push(v);
            i = i + 1;
            assert(self.ids@.take(i as int).map_values(|x: Option<u32>| x.unwrap_or(0)) =~= self.ids@.take(
                i - 1,
            ).map_values(|x: Option<u32>| x.unwrap_or(0)).push(v));
        }
        assert(self.ids@.take(i as int) =~= self.ids@);
        r
    }
}

/// The level of the pin with bit `mask` in each bank sample.
pub open spec fn project(samples: Seq<u8>, mask: u8) -> Seq<bool> {
    Seq::new(samples.len(), |i: int| samples[i] & mask != 0)
}


/// The 32 bits of an IDCODE as they come out of TDO, LSB first.
pub open spec fn id_bits(id: u32) -> Seq<bool> {
    Seq::new(32, |j: int| (id >> (j as u32)) & 1 == 1)
}

/// The TDO bits of a chain of device slots: one 0 for a device in bypass,
/// 32 bits for a device showing its IDCODE.
pub open spec fn slot_stream(slots: Seq<Option<u32>>) -> Seq<bool>
    decreases slots.len(),
{
    if slots.len() == 0 {
        Seq::empty()
    } else {
        slot_stream(slots.drop_last()) + match slots.last() {
            Some(id) => id_bits(id),
            None => seq![false],
        }
    }
}

/// `n` copies of `b`.
pub open spec fn constant_bits(b: bool, n: int) -> Seq<bool> {
    Seq::new(n as nat, |i: int| b)
}

/// A well-formed IDCODE: bit 0 set, not all ones.
pub open spec fn valid_idcode(id: u32) -> bool {
    id & 1 == 1 && id != 0xffff_ffffu32
}

/// Number of devices in bypass.
pub open spec fn bypass_count(slots: Seq<Option<u32>>) -> int
    decreases slots.len(),
{
    if slots.len() == 0 {
        0
    } else {
        bypass_count(slots.drop_last()) + if slots.last() is None {
            1int
        } else {
            0
        }
    }
}

proof fn lemma_scan_append(s: ScanState, a: Seq<bool>, b: Seq<bool>)
    ensures
        scan_from(s, a + b) == scan_from(scan_from(s, a), b),
    decreases b.len(),
{
    if b.len() == 0 {
        assert(a + b =~= a);
    } else {
        assert((a + b).drop_last() =~= a + b.drop_last());
        assert((a + b).last() == b.last());
        lemma_scan_append(s, a, b.drop_last());
    }
}

/// The IDCODE register after `j` of the 32 bits of `id`, from `c`.
spec fn reg_after(c: u32, id: u32, j: u32) -> u32 {
    if j == 0 {
        c
    } else if j == 32 {
        id
    } else {
        (c >> j) | (id << ((32 - j) as u32))
    }
}

proof fn lemma_reg_step(c: u32, id: u32, j: u32)
    requires
        j < 32,
    ensures
        shift_in(reg_after(c, id, j), (id >> j) & 1 == 1) == reg_after(c, id, (j + 1) as u32),
{
    let bit = (id >> j) & 1 == 1;
    if j == 0 {
        if bit {
            assert(((c >> 1u32) | 0x8000_0000u32) == ((c >> 1u32) | (id << 31u32))) by (bit_vector)
                requires
                    (id >> 0u32) & 1 == 1,
            ;
        } else {
            assert(((c >> 1u32) | 0u32) == ((c >> 1u32) | (id << 31u32))) by (bit_vector)
                requires
                    (id >> 0u32) & 1 != 1,
            ;
        }
    } else if j == 31 {
        if bit {
            assert(((((c >> 31u32) | (id << 1u32)) >> 1u32) | 0x8000_0000u32) == id) by (bit_vector)
                requires
                    (id >> 31u32) & 1 == 1,
            ;
        } else {
            assert(((((c >> 31u32) | (id << 1u32)) >> 1u32) | 0u32) == id) by (bit_vector)
                requires
                    (id >> 31u32) & 1 != 1,
            ;
        }
    } else {
        if bit {
            assert(((((c >> j) | (id << (32 - j) as u32)) >> 1u32) | 0x8000_0000u32) == ((c >> (j
                + 1) as u32) | (id << (31 - j) as u32))) by (bit_vector)
                requires
                    1 <= j <= 30,
                    (id >> j) & 1 == 1,
            ;
        } else {
            assert(((((c >> j) | (id << (32 - j) as u32)) >> 1u32) | 0u32) == ((c >> (j
                + 1) as u32) | (id << (31 - j) as u32))) by (bit_vector)
                requires
                    1 <= j <= 30,
                    (id >> j) & 1 != 1,
            ;
        }
    }
}

/// Reading the first `j` (1 to 31) bits of an IDCODE whose bit 0 is set.
proof fn lemma_id_prefix(s: ScanState, id: u32, j: int)
    requires
        !s.done,
        s.count == 0,
        s.zeros < 32,
        id & 1 == 1,
        1 <= j <= 31,
    ensures
        scan_from(s, id_bits(id).take(j)) == (ScanState {
            cur: reg_after(s.cur, id, j as u32),
            count: j,
            zeros: 0,
            ..s
        }),
    decreases j,
{
    let bits = id_bits(id).take(j);
    assert(bits.drop_last() =~= id_bits(id).take(j - 1));
    assert(bits.last() == ((id >> ((j - 1) as u32)) & 1 == 1));
    lemma_reg_step(s.cur, id, (j - 1) as u32);
    if j == 1 {
        assert(id_bits(id).take(0) =~= Seq::<bool>::empty());
        assert((id >> 0u32) & 1 == 1) by (bit_vector)
            requires
                id & 1 == 1,
        ;
    } else {
        lemma_id_prefix(s, id, j - 1);
    }
}

/// Reading all 32 bits of a well-formed IDCODE records it.
proof fn lemma_feed_id(s: ScanState, id: u32)
    requires
        !s.done,
        s.count == 0,
        s.zeros < 32,
        valid_idcode(id),
    ensures
        scan_from(s, id_bits(id)) == (ScanState {
            ids: s.ids.push(Some(id)),
            cur: id,
            count: 0,
            zeros: 0,
            ..s
        }),
{
    lemma_id_prefix(s, id, 31);
    assert(id_bits(id).drop_last() =~= id_bits(id).take(31));
    lemma_reg_step(s.cur, id, 31);
}

/// Reading 32 ones from the start of a slot ends the scan and records
/// nothing.
proof fn lemma_feed_ones(s: ScanState)
    requires
        !s.done,
        s.count == 0,
        s.zeros < 32,
    ensures
        scan_from(s, constant_bits(true, 32)).ids == s.ids,
        scan_from(s, constant_bits(true, 32)).done,
{
    let m = 0xffff_ffffu32;
    assert(0xffff_ffffu32 & 1 == 1) by (bit_vector);
    assert(id_bits(m) =~= constant_bits(true, 32)) by {
        assert forall|j: int| 0 <= j < 32 implies #[trigger] id_bits(m)[j] by {
            let k = j as u32;
            assert((0xffff_ffffu32 >> k) & 1 == 1) by (bit_vector)
                requires
                    k < 32,
            ;
        }
    }
    lemma_id_prefix(s, m, 31);
    assert(id_bits(m).drop_last() =~= id_bits(m).take(31));
    lemma_reg_step(s.cur, m, 31);
}

/// Reading `n` zeros from the start of a slot records `n` devices in
/// bypass; at 32 bypass bits in a row the scan ends.
proof fn lemma_feed_zeros(s: ScanState, n: int)
    requires
        !s.done,
        s.count == 0,
        0 <= n,
        s.zeros < 32,
        s.zeros + n <= 32,
    ensures
        scan_from(s, constant_bits(false, n)) == (ScanState {
            ids: s.ids + Seq::new(n as nat, |i: int| None::<u32>),
            zeros: s.zeros + n,
            done: s.zeros + n == 32,
            ..s
        }),
    decreases n,
{
    if n == 0 {
        assert(constant_bits(false, 0) =~= Seq::<bool>::empty());
        assert(s.ids + Seq::new(0, |i: int| None::<u32>) =~= s.ids);
    } else {
        assert(constant_bits(false, n).drop_last() =~= constant_bits(false, n - 1));
        assert(constant_bits(false, n).last() == false);
        lemma_feed_zeros(s, n - 1);
        let t = scan_from(s, constant_bits(false, n - 1));
        assert(t.ids.push(None) =~= s.ids + Seq::new(n as nat, |i: int| None::<u32>));
        let u = scan_step(t, false);
        assert(u.ids == t.ids.push(None));
        assert(u.zeros == s.zeros + n);
        assert(u.count == 0 && u.cur == s.cur);
        assert(u.done == (s.zeros + n == 32));
    }
}

proof fn lemma_feed_slots(slots: Seq<Option<u32>>)
    requires
        forall|i: int| 0 <= i < slots.len() && (#[trigger] slots[i]) is Some ==> valid_idcode(
            slots[i]->Some_0,
        ),
        bypass_count(slots) < 32,
    ensures
        scan_from(scan_init(), slot_stream(slots)).ids == slots,
        !scan_from(scan_init(), slot_stream(slots)).done,
        scan_from(scan_init(), slot_stream(slots)).count == 0,
        scan_from(scan_init(), slot_stream(slots)).zeros <= bypass_count(slots),
        slots.len() > 0 && slots.last() is Some ==> scan_from(
            scan_init(),
            slot_stream(slots),
        ).zeros == 0,
    decreases slots.len(),
{
    if slots.len() == 0 {
        assert(scan_init().ids =~= slots);
    } else {
        let front = slots.drop_last();
        assert forall|i: int| 0 <= i < front.len() && (#[trigger] front[i]) is Some implies valid_idcode(
            front[i]->Some_0,
        ) by {
            assert(front[i] == slots[i]);
        }
        lemma_bypass_count_nonneg(front);
        lemma_feed_slots(front);
        let s = scan_from(scan_init(), slot_stream(front));
        match slots.last() {
            Some(id) => {
                assert(slots[slots.len() - 1] == slots.last());
                lemma_scan_append(scan_init(), slot_stream(front), id_bits(id));
                lemma_feed_id(s, id);
            },
            None => {
                lemma_scan_append(scan_init(), slot_stream(front), seq![false]);
                assert(seq![false] =~= constant_bits(false, 1));
                lemma_feed_zeros(s, 1);
            },
        }
        assert(front.push(slots.last()) =~= slots);
    }
}

proof fn lemma_bypass_count_nonneg(slots: Seq<Option<u32>>)
    ensures
        bypass_count(slots) >= 0,
    decreases slots.len(),
{
    if slots.len() > 0 {
        lemma_bypass_count_nonneg(slots.drop_last());
    }
}

/// IDCODE parser: the TDO bits of `k` well-formed IDCODEs followed by 32
/// zeros are read as exactly those IDCODEs, and the scan ends there.
pub proof fn lemma_idcode_chain(ids: Seq<u32>)
    requires
        forall|i: int| 0 <= i < ids.len() ==> valid_idcode(#[trigger] ids[i]),
    ensures
        ({
            let s = scan_from(
                scan_init(),
                slot_stream(ids.map_values(|id: u32| Some(id))) + constant_bits(false, 32),
            );
            s.done && chain_ids(s) == ids.map_values(|id: u32| Some(id))
        }),
{
    let slots = ids.map_values(|id: u32| Some(id));
    assert forall|i: int| 0 <= i < slots.len() && (#[trigger] slots[i]) is Some implies valid_idcode(
        slots[i]->Some_0,
    ) by {
        assert(slots[i] == Some(ids[i]));
    }
    lemma_no_bypass(slots);
    lemma_feed_slots(slots);
    let s = scan_from(scan_init(), slot_stream(slots));
    assert(s.zeros == 0) by {
        if slots.len() > 0 {
            assert(slots.last() == Some(ids[ids.len() - 1]));
        }
    }
    lemma_scan_append(scan_init(), slot_stream(slots), constant_bits(false, 32));
    lemma_feed_zeros(s, 32);
    let t = scan_from(s, constant_bits(false, 32));
    assert(t.ids.take(t.ids.len() - 32) =~= slots);
}

proof fn lemma_no_bypass(slots: Seq<Option<u32>>)
    requires
        forall|i: int| 0 <= i < slots.len() ==> (#[trigger] slots[i]) is Some,
    ensures
        bypass_count(slots) == 0,
    decreases slots.len(),
{
    if slots.len() > 0 {
        let front = slots.drop_last();
        assert forall|i: int| 0 <= i < front.len() implies (#[trigger] front[i]) is Some by {
            assert(front[i] == slots[i]);
        }
        lemma_no_bypass(front);
        assert(slots[slots.len() - 1] == slots.last());
    }
}

/// Detector identity, for a correctly wired chain whose last device shows
/// its IDCODE and with fewer than 32 devices in bypass: scanning with TDI
/// low reports exactly 32 more slots than scanning with TDI high.
pub proof fn lemma_detector_identity(slots: Seq<Option<u32>>)
    requires
        forall|i: int| 0 <= i < slots.len() && (#[trigger] slots[i]) is Some ==> valid_idcode(
            slots[i]->Some_0,
        ),
        bypass_count(slots) < 32,
        slots.len() > 0 ==> slots.last() is Some,
    ensures
        scan_from(scan_init(), slot_stream(slots) + constant_bits(false, 32)).ids.len()
            - scan_from(scan_init(), slot_stream(slots) + constant_bits(true, 32)).ids.len() == 32,
        scan_from(scan_init(), slot_stream(slots) + constant_bits(false, 32)).done,
        scan_from(scan_init(), slot_stream(slots) + constant_bits(true, 32)).done,
{
    lemma_feed_slots(slots);
    let s = scan_from(scan_init(), slot_stream(slots));
    lemma_scan_append(scan_init(), slot_stream(slots), constant_bits(false, 32));
    lemma_scan_append(scan_init(), slot_stream(slots), constant_bits(true, 32));
    lemma_feed_zeros(s, 32);
    lemma_feed_ones(s);
}


/// Walk to Run-Test/Idle.
pub fn goto_idle_command() -> (cmd: MpsseCmdBuilder)
    ensures
        cmd.wf(),
        cmd.response_len() == 0,
        cmd.bytes() == tms_seq(0b0001_1111, 6),
{
    let mut b = JtagCmdBuilder::new();
    b.jtag_any2idle();
    assert(b.bytes() =~= tms_seq(0b0001_1111, 6));
    b.0
}

/// Start of a chain scan: through Test-Logic-Reset and Run-Test/Idle to
/// Shift-DR.
pub fn scan_start_command() -> (cmd: MpsseCmdBuilder)
    ensures
        cmd.wf(),
        cmd.response_len() == 0,
        cmd.bytes() == tms_seq(0b0001_1111, 6) + tms_seq(0b0000_0001, 3),
{
    let mut b = JtagCmdBuilder::new();
    b.jtag_any2idle();
    b.jtag_idle2dr();
    assert(b.bytes() =~= tms_seq(0b0001_1111, 6) + tms_seq(0b0000_0001, 3));
    b.0
}

/// Bytes a chain scan reads per round trip (64 bits).
pub const SCAN_CHUNK: usize = 8;

/// One round trip of a chain scan: shift 64 bits of `tdi` through the
/// chain, reading TDO (eight answer bytes).
pub fn scan_chunk_command(tdi: bool) -> (cmd: MpsseCmdBuilder)
    ensures
        cmd.wf(),
        cmd.response_len() == 8,
        cmd.bytes() == shift_out_stream(
            bytes_inout_op(),
            Seq::new(
                8,
                |i: int|
                    if tdi {
                        0xffu8
                    } else {
                        0u8
                    },
            ),
        ),
{
    let v: u8 = if tdi {
        0xff
    } else {
        0
    };
    let data = vec![v; SCAN_CHUNK];
    assert(data@ =~= Seq::new(
        8,
        |i: int|
            if tdi {
                0xffu8
            } else {
                0u8
            },
    ));
    let mut cmd = MpsseCmdBuilder::new();
    cmd.shift_bytes(false, true, data.as_slice());
    assert(cmd.bytes() =~= Seq::<u8>::empty() + shift_out_stream(bytes_inout_op(), data@));
    cmd
}

/// Switch adaptive clocking (RTCK on lower pin 7) on or off.
pub fn adaptive_command(state: bool) -> (cmd: MpsseCmdBuilder)
    ensures
        cmd.wf(),
        cmd.response_len() == 0,
        cmd.bytes() == seq![
            if state {
                crate::mpsse_cmd::ENABLE_ADAPTIVE
            } else {
                crate::mpsse_cmd::DISABLE_ADAPTIVE
            },
        ],
{
    let mut cmd = MpsseCmdBuilder::new();
    cmd.enable_adaptive_clocking(state);
    assert(cmd.bytes() =~= seq![
        if state {
            crate::mpsse_cmd::ENABLE_ADAPTIVE
        } else {
            crate::mpsse_cmd::DISABLE_ADAPTIVE
        },
    ]);
    cmd
}

/// Prefix of the IR/DR operations: the walk to Run-Test/Idle unless the
/// TAP is known to be there, then to Shift-IR, the IR shift, and on to
/// Shift-DR.
pub open spec fn ir_prefix(is_idle: bool, ir: Seq<u8>, irlen: int) -> Seq<u8> {
    (if is_idle {
        Seq::empty()
    } else {
        tms_seq(0b0001_1111, 6)
    }) + tms_seq(0b0000_0011, 4) + shift_write_seq(ir, irlen) + tms_seq(0b0000_0011, 4)
}

/// Suffix of the IR/DR operations: back to Run-Test/Idle and seven idle
/// clocks.
pub open spec fn dr_suffix() -> Seq<u8> {
    tms_seq(0b0000_0001, 2) + tms_seq(0, 7)
}

fn ir_prefix_into(b: &mut JtagCmdBuilder, is_idle: bool, ir: &[u8], irlen: usize)
    requires
        old(b).wf(),
        old(b).bytes() == Seq::<u8>::empty(),
        old(b).response_len() == 0,
        irlen >= 1,
        ir@.len() > full_bytes(irlen as int),
    ensures
        final(b).wf(),
        final(b).bytes() == ir_prefix(is_idle, ir@, irlen as int),
        final(b).response_len() == 0,
{
    if !is_idle {
        b.jtag_any2idle();
    }
    b.jtag_idle2ir();
    b.jtag_shift_write(ir, irlen);
    b.jtag_ir_exit2dr();
    assert(b.bytes() =~= ir_prefix(is_idle, ir@, irlen as int));
}

/// Write `irlen` bits of `ir`, then `drlen` bits of `dr`.
pub fn write_command(is_idle: bool, ir: &[u8], irlen: usize, dr: &[u8], drlen: usize) -> (cmd:
    MpsseCmdBuilder)
    requires
        irlen >= 1,
        ir@.len() > full_bytes(irlen as int),
        drlen >= 1,
        dr@.len() > full_bytes(drlen as int),
    ensures
        cmd.wf(),
        cmd.response_len() == 0,
        cmd.bytes() == ir_prefix(is_idle, ir@, irlen as int) + shift_write_seq(dr@, drlen as int)
            + dr_suffix(),
{
    let mut b = JtagCmdBuilder::new();
    ir_prefix_into(&mut b, is_idle, ir, irlen);
    b.jtag_shift_write(dr, drlen);
    b.jtag_dr_exit2idle();
    b.jtag_idle_cycle();
    assert(b.bytes() =~= ir_prefix(is_idle, ir@, irlen as int) + shift_write_seq(dr@, drlen as int)
        + dr_suffix());
    b.0
}

/// Write `irlen` bits of `ir`, then read `drlen` bits of DR.
pub fn read_command(is_idle: bool, ir: &[u8], irlen: usize, drlen: usize) -> (cmd:
    MpsseCmdBuilder)
    requires
        irlen >= 1,
        ir@.len() > full_bytes(irlen as int),
        drlen >= 1,
    ensures
        cmd.wf(),
        cmd.response_len() == shift_response_len(drlen as int),
        cmd.bytes() == ir_prefix(is_idle, ir@, irlen as int) + shift_read_seq(drlen as int)
            + dr_suffix(),
{
    let mut b = JtagCmdBuilder::new();
    ir_prefix_into(&mut b, is_idle, ir, irlen);
    b.jtag_shift_read(drlen);
    b.jtag_dr_exit2idle();
    b.jtag_idle_cycle();
    assert(b.bytes() =~= ir_prefix(is_idle, ir@, irlen as int) + shift_read_seq(drlen as int)
        + dr_suffix());
    b.0
}

/// Write `irlen` bits of `ir`, then shift `drlen` bits of `dr` through DR
/// reading what comes out.
pub fn write_read_command(is_idle: bool, ir: &[u8], irlen: usize, dr: &[u8], drlen: usize) -> (cmd:
    MpsseCmdBuilder)
    requires
        irlen >= 1,
        ir@.len() > full_bytes(irlen as int),
        drlen >= 1,
        dr@.len() > full_bytes(drlen as int),
    ensures
        cmd.wf(),
        cmd.response_len() == shift_response_len(drlen as int),
        cmd.bytes() == ir_prefix(is_idle, ir@, irlen as int) + shift_seq(dr@, drlen as int)
            + dr_suffix(),
{
    let mut b = JtagCmdBuilder::new();
    ir_prefix_into(&mut b, is_idle, ir, irlen);
    b.jtag_shift(dr, drlen);
    b.jtag_dr_exit2idle();
    b.jtag_idle_cycle();
    assert(b.bytes() =~= ir_prefix(is_idle, ir@, irlen as int) + shift_seq(dr@, drlen as int)
        + dr_suffix());
    b.0
}

} // verus!

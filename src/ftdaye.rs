//! The USB side of a channel, as values: control requests, and the framing
//! of bulk-in packets (two status bytes before the payload).
use crate::FtdiError;
use vstd::prelude::*;

verus! {

/// Vendor request that resets the channel or purges its buffers.
pub const SIO_RESET_REQUEST: u8 = 0x00;

/// Values of the reset request.
pub const SIO_RESET_SIO: u16 = 0;

pub const SIO_RESET_PURGE_RX: u16 = 1;

pub const SIO_RESET_PURGE_TX: u16 = 2;

/// Vendor request that sets the latency timer (ms).
pub const SIO_SET_LATENCY_TIMER_REQUEST: u8 = 0x09;

/// Latency timer used by the driver.
pub const LATENCY_MS: u8 = 16;

/// Vendor request that sets the bit mode.
pub const SIO_SET_BITMODE_REQUEST: u8 = 0x0b;

/// First status byte of a packet that reports a bad opcode.
pub const BAD_COMMAND_STATUS: u8 = 0xfa;

/// Operating modes of a channel.
#[derive(Debug, Clone, Copy, PartialEq, Eq, Structural)]
pub enum BitMode {
    Reset,
    Bitbang,
    Mpsse,
    SyncBb,
    Mcu,
    Opto,
    Cbus,
    SyncFf,
    Ft1284,
}

impl BitMode {
    pub open spec fn spec_code(self) -> int {
        match self {
            BitMode::Reset => 0,
            BitMode::Bitbang => 1,
            BitMode::Mpsse => 2,
            BitMode::SyncBb => 4,
            BitMode::Mcu => 8,
            BitMode::Opto => 16,
            BitMode::Cbus => 32,
            BitMode::SyncFf => 64,
            BitMode::Ft1284 => 128,
        }
    }

    /// The mode's code in the set-bit-mode request.
    pub fn code(self) -> (r: u8)
        ensures
            r == self.spec_code(),
    {
        match self {
            BitMode::Reset => 0,
            BitMode::Bitbang => 1,
            BitMode::Mpsse => 2,
            BitMode::SyncBb => 4,
            BitMode::Mcu => 8,
            BitMode::Opto => 16,
            BitMode::Cbus => 32,
            BitMode::SyncFf => 64,
            BitMode::Ft1284 => 128,
        }
    }
}

/// Value of the set-bit-mode request: the pin mask in the low byte, the
/// mode in the high byte.
pub fn bitmode_value(bitmask: u8, mode: BitMode) -> (r: u16)
    ensures
        r == bitmask as int + 256 * mode.spec_code(),
{
    bitmask as u16 + 256 * (mode.code() as u16)
}

/// What one bulk-in packet adds to an answer of `wanted` bytes gathered so
/// far into `got`: packets of two bytes or fewer carry only status; a
/// packet whose first status byte is 0xFA reports a bad opcode (its second
/// byte); otherwise the payload after the status bytes, up to what is
/// still wanted.
pub open spec fn absorb(got: Seq<u8>, packet: Seq<u8>, wanted: int) -> Result<Seq<u8>, FtdiError> {
    if packet.len() <= 2 {
        Ok(got)
    } else if packet[0] == BAD_COMMAND_STATUS {
        Err(FtdiError::BadMpsseCommand(packet[1]))
    } else {
        let room = if wanted > got.len() {
            wanted - got.len()
        } else {
            0
        };
        let payload = packet.skip(2);
        Ok(
            got + payload.take(
                if payload.len() < room {
                    payload.len() as int
                } else {
                    room
                },
            ),
        )
    }
}

/// Take one bulk-in packet into the answer gathered so far.
pub fn absorb_packet(gathered: &mut Vec<u8>, packet: &[u8], wanted: usize) -> (r: Result<
    (),
    FtdiError,
>)
    ensures
        match absorb(old(gathered)@, packet@, wanted as int) {
            Ok(g) => r is Ok && final(gathered)@ == g,
            Err(e) => r == Err::<(), FtdiError>(e) && final(gathered)@ == old(gathered)@,
        },
{
    if packet.len() <= 2 {
        return Ok(());
    }
    if packet[0] == BAD_COMMAND_STATUS {
        return Err(FtdiError::BadMpsseCommand(packet[1]));
    }
    let ghost g0 = gathered@;
    let mut i: usize = 2;
    while i < packet.len() && gathered.len() < wanted
        invariant
            2 <= i <= packet@.len(),
            gathered@ == g0 + packet@.subrange(2, i as int),
            g0.len() + (i - 2) <= wanted || i == 2,
        decreases packet@.len() - i,
    {
        gathered.push(packet[i]);
        i = i + 1;
        assert(gathered@ =~= g0 + packet@.subrange(2, i as int));
    }
    proof {
        let payload = packet@.skip(2);
        let room = if wanted > g0.len() {
            wanted - g0.len()
        } else {
            0
        };
        let n = if payload.len() < room {
            payload.len() as int
        } else {
            room
        };
        assert(i - 2 == n);
        assert(payload.take(n) =~= packet@.subrange(2, i as int));
    }
    Ok(())
}

} // verus!

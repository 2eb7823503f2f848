//! Host-side driver logic for the FTDI multi-protocol synchronous serial
//! engine (MPSSE): command streams, pin bookkeeping, and the I2C, SPI, JTAG
//! and SWD protocol encoders and decoders built on them.
//!
//! Everything in this crate is pure computation on plain values; moving the
//! bytes over USB is left to the caller.
use vstd::prelude::*;

pub use mpsse::PinUse;

pub mod mpsse_cmd;
pub mod mpsse;
pub mod i2c;
pub mod swd;
pub mod jtag;
pub mod spi;
pub mod ftdaye;
pub mod gpio;
pub mod list;

verus! {

/// A blocking delay provider; the waiting itself is done by the caller's
/// platform.
pub struct Delay;

/// The FTDI chip families recognised by the driver.
#[derive(Debug, Clone, Copy, PartialEq, Eq, Structural)]
pub enum ChipType {
    Am,
    Bm,
    FT2232C,
    R,
    FT2232D,
    FT2232H,
    FT4232H,
    FT232H,
    FT230X,
    Unknown,
}

impl ChipType {
    /// The high-speed family: 30 MHz clock with a divide-by-5 prescaler.
    pub open spec fn is_h_family(self) -> bool {
        self == ChipType::FT2232H || self == ChipType::FT4232H || self == ChipType::FT232H
    }

    /// The dual-channel parts that came before the high-speed family.
    pub open spec fn is_dual_pre_h(self) -> bool {
        self == ChipType::FT2232C || self == ChipType::FT2232D
    }

    pub open spec fn spec_interfaces(self) -> Seq<Interface> {
        match self {
            ChipType::FT232H => seq![Interface::A],
            ChipType::FT2232C | ChipType::FT2232D | ChipType::FT2232H => seq![
                Interface::A,
                Interface::B,
            ],
            ChipType::FT4232H => seq![Interface::A, Interface::B, Interface::C, Interface::D],
            _ => Seq::empty(),
        }
    }

    pub open spec fn spec_mpsse_interfaces(self) -> Seq<Interface> {
        match self {
            ChipType::FT232H | ChipType::FT2232C | ChipType::FT2232D => seq![Interface::A],
            ChipType::FT2232H | ChipType::FT4232H => seq![Interface::A, Interface::B],
            _ => Seq::empty(),
        }
    }

    /// The chip has an MPSSE on channel `i`.
    pub open spec fn spec_has_mpsse(self, i: Interface) -> bool {
        match self {
            ChipType::FT232H | ChipType::FT2232C | ChipType::FT2232D => i == Interface::A,
            ChipType::FT2232H | ChipType::FT4232H => i == Interface::A || i == Interface::B,
            _ => false,
        }
    }

    pub open spec fn spec_upper_pins(self) -> int {
        match self {
            ChipType::FT232H | ChipType::FT2232H => 8,
            ChipType::FT2232C | ChipType::FT2232D => 4,
            _ => 0,
        }
    }

    pub open spec fn spec_max_frequency(self) -> int {
        if self.is_h_family() {
            30_000_000
        } else {
            6_000_000
        }
    }

    /// The channels the chip has.
    pub fn interface_list(self) -> (r: Vec<Interface>)
        ensures
            r@ == self.spec_interfaces(),
    {
        match self {
            ChipType::FT232H => vec![Interface::A],
            ChipType::FT2232C | ChipType::FT2232D | ChipType::FT2232H => vec![
                Interface::A,
                Interface::B,
            ],
            ChipType::FT4232H => vec![Interface::A, Interface::B, Interface::C, Interface::D],
            _ => Vec::new(),
        }
    }

    /// The channels that have an MPSSE.
    pub fn mpsse_list(self) -> (r: Vec<Interface>)
        ensures
            r@ == self.spec_mpsse_interfaces(),
    {
        match self {
            ChipType::FT232H | ChipType::FT2232C | ChipType::FT2232D => vec![Interface::A],
            ChipType::FT2232H | ChipType::FT4232H => vec![Interface::A, Interface::B],
            _ => Vec::new(),
        }
    }

    /// Whether `interface` is one of the chip's MPSSE channels.
    pub fn has_mpsse(self, interface: Interface) -> (r: bool)
        ensures
            r == self.spec_has_mpsse(interface),
            r == self.spec_mpsse_interfaces().contains(interface),
    {
        proof {
            let l = self.spec_mpsse_interfaces();
            if self.spec_has_mpsse(interface) {
                if interface == Interface::A {
                    assert(l[0] == interface);
                } else {
                    assert(l[1] == interface);
                }
            }
        }
        let list = self.mpsse_list();
        let mut i: usize = 0;
        while i < list.len()
            invariant
                list@ == self.spec_mpsse_interfaces(),
                i <= list@.len(),
                forall|j: int| 0 <= j < i ==> list@[j] != interface,
            decreases list@.len() - i,
        {
            if list[i] == interface {
                return true;
            }
            i = i + 1;
        }
        false
    }

    /// Number of pins in the upper bank.
    pub fn upper_pins(self) -> (r: usize)
        ensures
            r == self.spec_upper_pins(),
    {
        match self {
            ChipType::FT232H | ChipType::FT2232H => 8,
            ChipType::FT2232C | ChipType::FT2232D => 4,
            _ => 0,
        }
    }

    /// Base clock of the MPSSE in Hz.
    pub fn max_frequency(self) -> (r: usize)
        ensures
            r == self.spec_max_frequency(),
    {
        match self {
            ChipType::FT232H | ChipType::FT2232H | ChipType::FT4232H => 30_000_000,
            _ => 6_000_000,
        }
    }

    /// Whether the chip has the divide-by-5 clock prescaler.
    pub fn has_devide_by5(self) -> (r: bool)
        ensures
            r == self.is_h_family(),
    {
        match self {
            ChipType::FT232H | ChipType::FT2232H | ChipType::FT4232H => true,
            _ => false,
        }
    }

    /// Base clock, and the prescaler setting to send with a divisor: off on
    /// chips that have one, absent on the others.
    pub fn max_frequecny(self) -> (r: (usize, Option<bool>))
        ensures
            r.0 == self.spec_max_frequency(),
            r.1 == if self.is_h_family() {
                Some(false)
            } else {
                None::<bool>
            },
    {
        if self.has_devide_by5() {
            (self.max_frequency(), Some(false))
        } else {
            (self.max_frequency(), None)
        }
    }

    /// USB bulk packet size of the chip.
    pub fn max_packet_size(self) -> (r: usize)
        ensures
            r == if self.is_h_family() {
                512int
            } else {
                64
            },
    {
        match self {
            ChipType::FT232H | ChipType::FT2232H | ChipType::FT4232H => 512,
            _ => 64,
        }
    }
}

/// One channel (interface) of a multi-channel FTDI chip.
#[derive(Debug, Clone, Copy, PartialEq, Eq, Structural)]
pub enum Interface {
    A,
    B,
    C,
    D,
}

impl Interface {
    /// Position of the channel: 1 for A up to 4 for D.
    pub open spec fn ordinal(self) -> int {
        match self {
            Interface::A => 1,
            Interface::B => 2,
            Interface::C => 3,
            Interface::D => 4,
        }
    }

    /// Bulk-in endpoint of the channel.
    pub fn read_ep(self) -> (r: u8)
        ensures
            r == 0x81 + 2 * (self.ordinal() - 1),
    {
        match self {
            Interface::A => 0x81,
            Interface::B => 0x83,
            Interface::C => 0x85,
            Interface::D => 0x87,
        }
    }

    /// Bulk-out endpoint of the channel.
    pub fn write_ep(self) -> (r: u8)
        ensures
            r == 2 * self.ordinal(),
    {
        match self {
            Interface::A => 0x02,
            Interface::B => 0x04,
            Interface::C => 0x06,
            Interface::D => 0x08,
        }
    }

    /// Index used in control transfers to the channel.
    pub fn index(self) -> (r: u16)
        ensures
            r == self.ordinal(),
    {
        match self {
            Interface::A => 1,
            Interface::B => 2,
            Interface::C => 3,
            Interface::D => 4,
        }
    }

    /// USB interface number of the channel.
    pub fn interface_number(self) -> (r: u8)
        ensures
            r == self.ordinal() - 1,
    {
        (self.index() - 1) as u8
    }
}

/// A GPIO pin: a bank and an index (0 to 7) within it.
#[derive(Debug, Clone, Copy, PartialEq, Eq, Structural)]
pub enum Pin {
    Lower(usize),
    Upper(usize),
}

/// The byte with only bit `i` set.
pub open spec fn bit_mask(i: int) -> u8 {
    (1u8 << (i as u8)) as u8
}

impl Pin {
    pub open spec fn idx(self) -> int {
        match self {
            Pin::Lower(i) => i as int,
            Pin::Upper(i) => i as int,
        }
    }

    pub open spec fn is_upper(self) -> bool {
        self is Upper
    }

    /// The pin's bit within its bank.
    pub fn mask(self) -> (r: u8)
        requires
            self.idx() < 8,
        ensures
            r == bit_mask(self.idx()),
    {
        match self {
            Pin::Lower(idx) => 1u8 << (idx as u8),
            Pin::Upper(idx) => 1u8 << (idx as u8),
        }
    }
}

/// Declares `std::io::Error` (opaque here): the USB transport's error,
/// carried unchanged in `FtdiError::Usb`.
#[verifier::external_type_specification]
#[verifier::external_body]
pub struct ExIoError(std::io::Error);

/// Errors of the driver.
#[derive(Debug)]
pub enum FtdiError {
    /// The USB transfer failed (unplugged device, permissions, another
    /// driver holding the device).
    Usb(std::io::Error),
    /// The device could not be opened or described.
    OpenFailed(String),
    /// The chip is not one this driver can drive.
    UnsupportedChip(ChipType),
    /// The channel of the chip has no MPSSE.
    ChannelNotMpsse { chip: ChipType, interface: Interface },
    /// The device rejected an opcode.
    BadMpsseCommand(u8),
    /// A protocol use was asked of a pin on a channel without an MPSSE.
    IncorrectUsage { chip: ChipType, interface: Interface, usage: PinUse },
    /// The pin does not exist on this chip.
    PinNotVaild { chip: ChipType, interface: Interface, pin: Pin },
    /// The pin is already held for another use.
    PinInUsed { pin: Pin, purpose: PinUse, current: PinUse },
    /// Pins that must differ were given the same index.
    PinFault(String),
    /// Another misuse, described.
    Other(&'static str),
}

} // verus!

//! Pin bookkeeping of one MPSSE channel, chip identification and clock setup.
use crate::mpsse_cmd::{
    MpsseCmdBuilder, DISABLE_3PHASE, DISABLE_ADAPTIVE, DISABLE_DIVIDE_BY5, DISABLE_LOOPBACK,
    GET_GPIO_LOWER, GET_GPIO_UPPER, SET_CLOCK_DIVISOR, SET_GPIO_LOWER, SET_GPIO_UPPER,
};
use crate::{bit_mask, ChipType, FtdiError, Interface, Pin};
use vstd::prelude::*;

verus! {

/// What a pin is held for.
#[derive(Debug, Clone, Copy, PartialEq, Eq, Structural)]
pub enum PinUse {
    Output,
    Input,
    I2c,
    Spi,
    Jtag,
    Swd,
}


impl PinUse {
    /// Uses that need the channel's MPSSE.
    pub open spec fn is_protocol(self) -> bool {
        !(self is Output || self is Input)
    }
}

/// Bit `i` of `b`.
pub open spec fn bit_of(b: u8, i: int) -> bool {
    (b >> (i as u8)) & 1 == 1
}

proof fn lemma_bit_update(x: u8, i: u8, j: u8)
    requires
        i < 8,
        j < 8,
    ensures
        ((x | (1u8 << i)) >> j) & 1 == if i == j {
            1
        } else {
            (x >> j) & 1
        },
        ((x & !(1u8 << i)) >> j) & 1 == if i == j {
            0
        } else {
            (x >> j) & 1
        },
{
    assert(((x | (1u8 << i)) >> j) & 1 == if i == j {
        1
    } else {
        (x >> j) & 1
    }) by (bit_vector)
        requires
            i < 8,
            j < 8,
    ;
    assert(((x & !(1u8 << i)) >> j) & 1 == if i == j {
        0
    } else {
        (x >> j) & 1
    }) by (bit_vector)
        requires
            i < 8,
            j < 8,
    ;
}

proof fn lemma_clear_clear_bit(x: u8, i: u8)
    requires
        i < 8,
        (x >> i) & 1 != 1,
    ensures
        x & !(1u8 << i) == x,
{
    assert(x & !(1u8 << i) == x) by (bit_vector)
        requires
            i < 8,
            (x >> i) & 1 != 1,
    ;
}

/// Model of one bank of 8 pins.
pub struct GpioBank {
    /// 1 = output.
    pub direction: u8,
    /// 1 = driven high.
    pub value: u8,
    /// What each pin is held for.
    pub pins: Seq<Option<PinUse>>,
}

impl GpioBank {
    /// Eight slots, and a pin held by nobody is an input driven low.
    pub open spec fn wf(self) -> bool {
        &&& self.pins.len() == 8
        &&& forall|i: int|
            0 <= i < 8 && (#[trigger] self.pins[i]) is None ==> !bit_of(self.direction, i)
                && !bit_of(self.value, i)
    }

    pub open spec fn with_direction(self, i: int, out: bool) -> GpioBank {
        GpioBank {
            direction: if out {
                self.direction | bit_mask(i)
            } else {
                self.direction & !bit_mask(i)
            },
            ..self
        }
    }

    pub open spec fn with_value(self, i: int, high: bool) -> GpioBank {
        GpioBank {
            value: if high {
                self.value | bit_mask(i)
            } else {
                self.value & !bit_mask(i)
            },
            ..self
        }
    }

    /// Pin `i` released: no use, input, low.
    pub open spec fn freed(self, i: int) -> GpioBank {
        GpioBank {
            direction: self.direction & !bit_mask(i),
            value: self.value & !bit_mask(i),
            pins: self.pins.update(i, None),
        }
    }
}

/// Model of the pin registry of one channel.
pub struct RegistryModel {
    pub chip: ChipType,
    pub interface: Interface,
    pub lower: GpioBank,
    pub upper: GpioBank,
}

impl RegistryModel {
    pub open spec fn wf(self) -> bool {
        &&& self.lower.wf()
        &&& self.upper.wf()
        &&& forall|i: int|
            self.chip.spec_upper_pins() <= i < 8 ==> (#[trigger] self.upper.pins[i]) is None
    }

    pub open spec fn bank(self, pin: Pin) -> GpioBank {
        if pin.is_upper() {
            self.upper
        } else {
            self.lower
        }
    }

    pub open spec fn with_bank(self, pin: Pin, b: GpioBank) -> RegistryModel {
        if pin.is_upper() {
            RegistryModel { upper: b, ..self }
        } else {
            RegistryModel { lower: b, ..self }
        }
    }

    /// Number of pins of the pin's bank on this chip.
    pub open spec fn bank_size(self, pin: Pin) -> int {
        if pin.is_upper() {
            self.chip.spec_upper_pins()
        } else {
            8
        }
    }

    /// The pin exists and is held for some use.
    pub open spec fn held(self, pin: Pin) -> bool {
        pin.idx() < self.bank_size(pin) && self.bank(pin).pins[pin.idx()] is Some
    }

    /// The set-bank command that puts the pin's bank on the wire.
    pub open spec fn bank_cmd(self, pin: Pin) -> Seq<u8> {
        if pin.is_upper() {
            seq![SET_GPIO_UPPER, self.upper.value, self.upper.direction]
        } else {
            seq![SET_GPIO_LOWER, self.lower.value, self.lower.direction]
        }
    }
}

/// Outcome of asking for `pin` for `usage`.
pub open spec fn alloc_model(r: RegistryModel, pin: Pin, usage: PinUse) -> Result<
    RegistryModel,
    FtdiError,
> {
    if pin.idx() >= r.bank_size(pin) {
        Err(FtdiError::PinNotVaild { chip: r.chip, interface: r.interface, pin })
    } else if r.bank(pin).pins[pin.idx()] is Some {
        Err(
            FtdiError::PinInUsed {
                pin,
                purpose: usage,
                current: r.bank(pin).pins[pin.idx()]->Some_0,
            },
        )
    } else if usage.is_protocol() && !r.chip.spec_has_mpsse(r.interface) {
        Err(FtdiError::IncorrectUsage { chip: r.chip, interface: r.interface, usage })
    } else {
        Ok(
            r.with_bank(
                pin,
                GpioBank { pins: r.bank(pin).pins.update(pin.idx(), Some(usage)), ..r.bank(pin) },
            ),
        )
    }
}

/// The registry after `pin` is released.
pub open spec fn free_model(r: RegistryModel, pin: Pin) -> RegistryModel {
    r.with_bank(pin, r.bank(pin).freed(pin.idx()))
}

/// Releasing a pin right after taking it gives back the registry as it was,
/// with the pin an input driven low.
pub proof fn lemma_alloc_then_free(r: RegistryModel, pin: Pin, usage: PinUse)
    requires
        r.wf(),
        alloc_model(r, pin, usage) is Ok,
    ensures
        free_model(alloc_model(r, pin, usage)->Ok_0, pin) == r,
        !bit_of(free_model(alloc_model(r, pin, usage)->Ok_0, pin).bank(pin).direction, pin.idx()),
        !bit_of(free_model(alloc_model(r, pin, usage)->Ok_0, pin).bank(pin).value, pin.idx()),
{
    let i = pin.idx();
    let b = r.bank(pin);
    assert(b.pins[i] is None);
    lemma_clear_clear_bit(b.direction, i as u8);
    lemma_clear_clear_bit(b.value, i as u8);
    assert(b.pins.update(i, Some(usage)).update(i, None) =~= b.pins);
}

/// Taking a pin that is already held fails, naming the use that holds it.
pub proof fn lemma_double_alloc(r: RegistryModel, pin: Pin, u1: PinUse, u2: PinUse)
    requires
        r.wf(),
        alloc_model(r, pin, u1) is Ok,
    ensures
        alloc_model(alloc_model(r, pin, u1)->Ok_0, pin, u2) == Err::<RegistryModel, FtdiError>(
            FtdiError::PinInUsed { pin, purpose: u2, current: u1 },
        ),
{
}

/// Direction, value and holders of one bank of 8 pins.
pub struct GpioByte {
    pub direction: u8,
    pub value: u8,
    pub pins: [Option<PinUse>; 8],
}

impl View for GpioByte {
    type V = GpioBank;

    open spec fn view(&self) -> GpioBank {
        GpioBank { direction: self.direction, value: self.value, pins: self.pins@ }
    }
}

impl GpioByte {
    /// All pins free, inputs, low.
    pub fn new() -> (r: GpioByte)
        ensures
            r@.direction == 0,
            r@.value == 0,
            r@.pins == Seq::new(8, |i: int| None::<PinUse>),
            r@.wf(),
    {
        let r = GpioByte { direction: 0, value: 0, pins: [None; 8] };
        proof {
            assert(r@.pins =~= Seq::new(8, |i: int| None::<PinUse>));
            assert forall|i: int| 0 <= i < 8 implies !bit_of(0u8, i) by {
                let j = i as u8;
                assert((0u8 >> j) & 1 == 0) by (bit_vector);
            }
        }
        r
    }
}

/// Pin state of one MPSSE channel: for each bank, direction and value as
/// last put on the wire, and which use holds each pin.
pub struct PinRegistry {
    pub chip_type: ChipType,
    pub interface: Interface,
    pub lower: GpioByte,
    pub upper: GpioByte,
}

impl View for PinRegistry {
    type V = RegistryModel;

    open spec fn view(&self) -> RegistryModel {
        RegistryModel {
            chip: self.chip_type,
            interface: self.interface,
            lower: self.lower@,
            upper: self.upper@,
        }
    }
}

impl PinRegistry {
    /// All pins of both banks free, inputs, low.
    pub fn new(chip_type: ChipType, interface: Interface) -> (r: PinRegistry)
        ensures
            r@.wf(),
            r@.chip == chip_type,
            r@.interface == interface,
            r@.lower.direction == 0 && r@.lower.value == 0,
            r@.upper.direction == 0 && r@.upper.value == 0,
            r@.lower.pins == Seq::new(8, |i: int| None::<PinUse>),
            r@.upper.pins == Seq::new(8, |i: int| None::<PinUse>),
    {
        PinRegistry { chip_type, interface, lower: GpioByte::new(), upper: GpioByte::new() }
    }

    /// Take `pin` for `usage`. Fails when the pin does not exist on the chip,
    /// when it is already held (naming the holder), or when a protocol use
    /// is asked on a channel without an MPSSE; then nothing changes.
    pub fn alloc_pin(&mut self, pin: Pin, usage: PinUse) -> (r: Result<(), FtdiError>)
        requires
            old(self)@.wf(),
        ensures
            final(self)@.wf(),
            match alloc_model(old(self)@, pin, usage) {
                Ok(m) => r is Ok && final(self)@ == m,
                Err(e) => r == Err::<(), FtdiError>(e) && final(self)@ == old(self)@,
            },
    {
        let (idx, size) = match pin {
            Pin::Lower(idx) => (idx, 8usize),
            Pin::Upper(idx) => (idx, self.chip_type.upper_pins()),
        };
        if idx >= size {
            return Err(
                FtdiError::PinNotVaild { chip: self.chip_type, interface: self.interface, pin },
            );
        }
        let current = match pin {
            Pin::Lower(_) => self.lower.pins[idx],
            Pin::Upper(_) => self.upper.pins[idx],
        };
        if let Some(current) = current {
            return Err(FtdiError::PinInUsed { pin, purpose: usage, current });
        }
        let protocol = match usage {
            PinUse::Output | PinUse::Input => false,
            _ => true,
        };
        if protocol && !self.chip_type.has_mpsse(self.interface) {
            return Err(
                FtdiError::IncorrectUsage { chip: self.chip_type, interface: self.interface, usage },
            );
        }
        match pin {
            Pin::Lower(_) => {
                self.lower.pins[idx] = Some(usage);
            },
            Pin::Upper(_) => {
                self.upper.pins[idx] = Some(usage);
            },
        }
        proof {
            let m = alloc_model(old(self)@, pin, usage)->Ok_0;
            assert(self@.bank(pin).pins =~= m.bank(pin).pins);
            assert(self@ == m);
        }
        Ok(())
    }

    /// Whether `pin` exists on the chip and is held for some use.
    pub fn is_held(&self, pin: Pin) -> (r: bool)
        ensures
            r == self@.held(pin),
    {
        let (idx, size) = match pin {
            Pin::Lower(idx) => (idx, 8usize),
            Pin::Upper(idx) => (idx, self.chip_type.upper_pins()),
        };
        if idx >= size || idx >= 8 {
            return false;
        }
        match pin {
            Pin::Lower(_) => self.lower.pins[idx].is_some(),
            Pin::Upper(_) => self.upper.pins[idx].is_some(),
        }
    }

    /// The set-bank command for the bank of `pin`, from the registry's state.
    pub fn bank_command(&self, pin: Pin) -> (r: MpsseCmdBuilder)
        ensures
            r.wf(),
            r.bytes() == self@.bank_cmd(pin),
            r.response_len() == 0,
    {
        let mut cmd = MpsseCmdBuilder::new();
        match pin {
            Pin::Lower(_) => cmd.set_gpio_lower(self.lower.value, self.lower.direction),
            Pin::Upper(_) => cmd.set_gpio_upper(self.upper.value, self.upper.direction),
        }
        assert(cmd.bytes() =~= self@.bank_cmd(pin));
        cmd
    }

    /// Release `pin` (held or not): no use, input, low; the returned command
    /// puts its bank on the wire.
    pub fn free_pin(&mut self, pin: Pin) -> (cmd: MpsseCmdBuilder)
        requires
            old(self)@.wf(),
            pin.idx() < 8,
        ensures
            final(self)@.wf(),
            final(self)@ == free_model(old(self)@, pin),
            cmd.wf(),
            cmd.response_len() == 0,
            cmd.bytes() == final(self)@.bank_cmd(pin),
            !bit_of(final(self)@.bank(pin).direction, pin.idx()),
            !bit_of(final(self)@.bank(pin).value, pin.idx()),
    {
        let mask = pin.mask();
        let ghost i = pin.idx();
        match pin {
            Pin::Lower(idx) => {
                self.lower.pins[idx] = None;
                self.lower.value = self.lower.value & !mask;
                self.lower.direction = self.lower.direction & !mask;
            },
            Pin::Upper(idx) => {
                self.upper.pins[idx] = None;
                self.upper.value = self.upper.value & !mask;
                self.upper.direction = self.upper.direction & !mask;
            },
        }
        proof {
            let ob = old(self)@.bank(pin);
            let nb = self@.bank(pin);
            assert(nb.pins =~= ob.pins.update(i, None));
            assert forall|j: int| 0 <= j < 8 implies (bit_of(nb.direction, j) == if j == i {
                false
            } else {
                bit_of(ob.direction, j)
            }) && (bit_of(nb.value, j) == if j == i {
                false
            } else {
                bit_of(ob.value, j)
            }) by {
                lemma_bit_update(ob.direction, i as u8, j as u8);
                lemma_bit_update(ob.value, i as u8, j as u8);
            }
            assert(self@ == free_model(old(self)@, pin));
        }
        self.bank_command(pin)
    }

    /// Make a held pin an output (`out`) or an input; the returned command
    /// puts its bank on the wire.
    pub fn set_direction(&mut self, pin: Pin, out: bool) -> (cmd: MpsseCmdBuilder)
        requires
            old(self)@.wf(),
            old(self)@.held(pin),
        ensures
            final(self)@.wf(),
            final(self)@ == old(self)@.with_bank(
                pin,
                old(self)@.bank(pin).with_direction(pin.idx(), out),
            ),
            cmd.wf(),
            cmd.response_len() == 0,
            cmd.bytes() == final(self)@.bank_cmd(pin),
    {
        let mask = pin.mask();
        let ghost i = pin.idx();
        match pin {
            Pin::Lower(_) => {
                self.lower.direction = if out {
                    self.lower.direction | mask
                } else {
                    self.lower.direction & !mask
                };
            },
            Pin::Upper(_) => {
                self.upper.direction = if out {
                    self.upper.direction | mask
                } else {
                    self.upper.direction & !mask
                };
            },
        }
        proof {
            let ob = old(self)@.bank(pin);
            let nb = self@.bank(pin);
            assert forall|j: int| 0 <= j < 8 && j != i implies bit_of(nb.direction, j) == bit_of(
                ob.direction,
                j,
            ) by {
                lemma_bit_update(ob.direction, i as u8, j as u8);
            }
        }
        self.bank_command(pin)
    }

    /// Drive a held pin high or low; the returned command puts its bank on
    /// the wire.
    pub fn set_level(&mut self, pin: Pin, high: bool) -> (cmd: MpsseCmdBuilder)
        requires
            old(self)@.wf(),
            old(self)@.held(pin),
        ensures
            final(self)@.wf(),
            final(self)@ == old(self)@.with_bank(
                pin,
                old(self)@.bank(pin).with_value(pin.idx(), high),
            ),
            cmd.wf(),
            cmd.response_len() == 0,
            cmd.bytes() == final(self)@.bank_cmd(pin),
    {
        let mask = pin.mask();
        let ghost i = pin.idx();
        match pin {
            Pin::Lower(_) => {
                self.lower.value = if high {
                    self.lower.value | mask
                } else {
                    self.lower.value & !mask
                };
            },
            Pin::Upper(_) => {
                self.upper.value = if high {
                    self.upper.value | mask
                } else {
                    self.upper.value & !mask
                };
            },
        }
        proof {
            let ob = old(self)@.bank(pin);
            let nb = self@.bank(pin);
            assert forall|j: int| 0 <= j < 8 && j != i implies bit_of(nb.value, j) == bit_of(
                ob.value,
                j,
            ) by {
                lemma_bit_update(ob.value, i as u8, j as u8);
            }
        }
        self.bank_command(pin)
    }
}

/// The command that reads the levels of the bank of `pin` (one answer byte).
pub fn read_bank_command(pin: Pin) -> (cmd: MpsseCmdBuilder)
    ensures
        cmd.wf(),
        cmd.response_len() == 1,
        cmd.bytes() == seq![
            if pin.is_upper() {
                GET_GPIO_UPPER
            } else {
                GET_GPIO_LOWER
            },
        ],
{
    let mut cmd = MpsseCmdBuilder::new();
    match pin {
        Pin::Lower(_) => cmd.gpio_lower(),
        Pin::Upper(_) => cmd.gpio_upper(),
    }
    assert(cmd.bytes() =~= seq![
        if pin.is_upper() {
            GET_GPIO_UPPER
        } else {
            GET_GPIO_LOWER
        },
    ]);
    cmd
}

/// The level of `pin` in a bank byte read back from the device.
pub fn pin_level(bank: u8, pin: Pin) -> (r: bool)
    requires
        pin.idx() < 8,
    ensures
        r == (bank & bit_mask(pin.idx()) != 0),
{
    bank & pin.mask() != 0
}


/// The chip named by the device's `bcdDevice` (and, for 0x200, by whether
/// it reports a serial number).
pub open spec fn chip_of_version(version: u16, serial_empty: bool) -> ChipType {
    if version == 0x200 {
        if serial_empty {
            ChipType::Bm
        } else {
            ChipType::Am
        }
    } else if version == 0x400 {
        ChipType::Bm
    } else if version == 0x500 {
        ChipType::FT2232D
    } else if version == 0x600 {
        ChipType::R
    } else if version == 0x700 {
        ChipType::FT2232H
    } else if version == 0x800 {
        ChipType::FT4232H
    } else if version == 0x900 {
        ChipType::FT232H
    } else if version == 0x1000 {
        ChipType::FT230X
    } else {
        ChipType::Unknown
    }
}

/// The chip named by the device's `bcdDevice`.
pub fn chip_type_of(version: u16, serial_empty: bool) -> (r: ChipType)
    ensures
        r == chip_of_version(version, serial_empty),
{
    match version {
        0x200 => if serial_empty {
            ChipType::Bm
        } else {
            ChipType::Am
        },
        0x400 => ChipType::Bm,
        0x500 => ChipType::FT2232D,
        0x600 => ChipType::R,
        0x700 => ChipType::FT2232H,
        0x800 => ChipType::FT4232H,
        0x900 => ChipType::FT232H,
        0x1000 => ChipType::FT230X,
        _ => ChipType::Unknown,
    }
}

/// Decide whether a device can be opened on `interface`: the chip must
/// have an MPSSE, and on that channel.
pub fn check_device(version: u16, serial_empty: bool, interface: Interface) -> (r: Result<
    ChipType,
    FtdiError,
>)
    ensures
        ({
            let c = chip_of_version(version, serial_empty);
            if c.spec_mpsse_interfaces().len() == 0 {
                r == Err::<ChipType, FtdiError>(FtdiError::UnsupportedChip(c))
            } else if !c.spec_has_mpsse(interface) {
                r == Err::<ChipType, FtdiError>(FtdiError::ChannelNotMpsse { chip: c, interface })
            } else {
                r == Ok::<ChipType, FtdiError>(c)
            }
        }),
{
    let chip = chip_type_of(version, serial_empty);
    let list = chip.mpsse_list();
    if list.len() == 0 {
        return Err(FtdiError::UnsupportedChip(chip));
    }
    if !chip.has_mpsse(interface) {
        return Err(FtdiError::ChannelNotMpsse { chip, interface });
    }
    Ok(chip)
}

/// The command sent once the channel is in MPSSE mode: both banks inputs
/// and low, loopback off, on the high-speed family 3-phase and adaptive
/// clocking off, and the fastest clock.
pub fn open_command(chip: ChipType) -> (cmd: MpsseCmdBuilder)
    ensures
        cmd.wf(),
        cmd.response_len() == 0,
        cmd.bytes() == seq![SET_GPIO_LOWER, 0u8, 0u8, SET_GPIO_UPPER, 0u8, 0u8, DISABLE_LOOPBACK]
            + if chip.is_h_family() {
            seq![DISABLE_3PHASE, DISABLE_ADAPTIVE, DISABLE_DIVIDE_BY5, SET_CLOCK_DIVISOR, 0u8, 0u8]
        } else {
            seq![SET_CLOCK_DIVISOR, 0u8, 0u8]
        },
{
    let mut cmd = MpsseCmdBuilder::new();
    cmd.set_gpio_lower(0, 0);
    cmd.set_gpio_upper(0, 0);
    cmd.enable_loopback(false);
    if chip.has_devide_by5() {
        cmd.enable_3phase_data_clocking(false);
        cmd.enable_adaptive_clocking(false);
        cmd.set_clock(0, Some(false));
    } else {
        cmd.set_clock(0, None);
    }
    assert(cmd.bytes() =~= seq![SET_GPIO_LOWER, 0u8, 0u8, SET_GPIO_UPPER, 0u8, 0u8, DISABLE_LOOPBACK]
        + if chip.is_h_family() {
        seq![DISABLE_3PHASE, DISABLE_ADAPTIVE, DISABLE_DIVIDE_BY5, SET_CLOCK_DIVISOR, 0u8, 0u8]
    } else {
        seq![SET_CLOCK_DIVISOR, 0u8, 0u8]
    });
    cmd
}

/// The clock division (1 to 65536) for a wanted rate: the smallest that
/// does not exceed `hz`, clamped to what the 16-bit divisor can do.
pub open spec fn divisor_for(max: int, hz: int) -> int {
    if hz > max {
        1
    } else if hz < max / 65536 + 1 {
        65536
    } else {
        (max + hz - 1) / hz
    }
}

/// The clock division for `hz` on a base clock of `max` Hz.
pub fn clock_division(max: usize, hz: usize) -> (d: usize)
    requires
        1 <= max <= 30_000_000,
    ensures
        d == divisor_for(max as int, hz as int),
        1 <= d <= 65536,
{
    let min = max / 65536 + 1;
    if hz > max {
        1
    } else if hz < min {
        65536
    } else {
        let d = (max + hz - 1) / hz;
        proof {
            let (m, h, q) = (max as int, hz as int, d as int);
            assert(h * 65536 > m) by (nonlinear_arith)
                requires
                    h >= m / 65536 + 1,
            ;
            assert(1 <= q <= 65536) by (nonlinear_arith)
                requires
                    q == (m + h - 1) / h,
                    h * 65536 > m,
                    1 <= h <= m,
            ;
        }
        d
    }
}

/// The command that sets the clock as near `hz` as the chip allows from
/// below, and the rate it gives.
pub fn frequency_command(chip: ChipType, hz: usize) -> (r: (MpsseCmdBuilder, usize))
    ensures
        r.0.wf(),
        r.0.response_len() == 0,
        ({
            let d = divisor_for(chip.spec_max_frequency(), hz as int);
            &&& r.0.bytes() == if chip.is_h_family() {
                seq![DISABLE_DIVIDE_BY5]
            } else {
                Seq::<u8>::empty()
            } + seq![SET_CLOCK_DIVISOR, ((d - 1) % 256) as u8, ((d - 1) / 256) as u8]
            &&& r.1 == chip.spec_max_frequency() / d
        }),
{
    let (max, div5) = chip.max_frequecny();
    let d = clock_division(max, hz);
    let mut cmd = MpsseCmdBuilder::new();
    cmd.set_clock((d - 1) as u16, div5);
    assert(cmd.bytes() =~= if chip.is_h_family() {
        seq![DISABLE_DIVIDE_BY5]
    } else {
        Seq::<u8>::empty()
    } + seq![SET_CLOCK_DIVISOR, ((d - 1) % 256) as u8, ((d - 1) / 256) as u8]);
    (cmd, max / d)
}

/// Bank state that a protocol's commands start from, and the optional pin
/// that enables an external data-line driver.
#[derive(Clone, Copy)]
pub struct BankSnapshot {
    pub lower_value: u8,
    pub lower_direction: u8,
    pub upper_value: u8,
    pub upper_direction: u8,
    pub direction_pin: Option<Pin>,
}

impl BankSnapshot {
    pub open spec fn wf(self) -> bool {
        match self.direction_pin {
            Some(p) => p.idx() < 8,
            None => true,
        }
    }

    /// Snapshot of a registry's banks.
    pub fn from_registry(reg: &PinRegistry, direction_pin: Option<Pin>) -> (r: BankSnapshot)
        ensures
            r.lower_value == reg@.lower.value,
            r.lower_direction == reg@.lower.direction,
            r.upper_value == reg@.upper.value,
            r.upper_direction == reg@.upper.direction,
            r.direction_pin == direction_pin,
    {
        BankSnapshot {
            lower_value: reg.lower.value,
            lower_direction: reg.lower.direction,
            upper_value: reg.upper.value,
            upper_direction: reg.upper.direction,
            direction_pin,
        }
    }
}

} // verus!

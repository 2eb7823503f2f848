//! Taking and releasing pins: single GPIO pins, and the groups of pins that
//! the protocols hold.
use crate::mpsse::{alloc_model, free_model, lemma_alloc_then_free, PinRegistry, RegistryModel, PinUse};
use crate::mpsse_cmd::{MpsseCmdBuilder, SET_GPIO_LOWER, SET_GPIO_UPPER};
use crate::{FtdiError, Pin};
use vstd::prelude::*;

verus! {

/// Outcome of taking each of `pins` in turn for `usage`: the first failure,
/// or the registry with all of them taken.
pub open spec fn alloc_all(r: RegistryModel, pins: Seq<Pin>, usage: PinUse) -> Result<
    RegistryModel,
    FtdiError,
>
    decreases pins.len(),
{
    if pins.len() == 0 {
        Ok(r)
    } else {
        match alloc_model(r, pins[0], usage) {
            Err(e) => Err(e),
            Ok(m) => alloc_all(m, pins.drop_first(), usage),
        }
    }
}

/// The registry with each of `pins` released in turn.
pub open spec fn free_all(r: RegistryModel, pins: Seq<Pin>) -> RegistryModel
    decreases pins.len(),
{
    if pins.len() == 0 {
        r
    } else {
        free_all(free_model(r, pins[0]), pins.drop_first())
    }
}

/// Set-bank commands for both banks.
pub open spec fn both_banks_cmd(r: RegistryModel) -> Seq<u8> {
    seq![SET_GPIO_LOWER, r.lower.value, r.lower.direction, SET_GPIO_UPPER, r.upper.value, r.upper.direction]
}

/// Take all of `pins` for `usage`, or none: on the first failure the pins
/// already taken are released again and the registry is as before.
pub fn claim_pins(reg: &mut PinRegistry, pins: &[Pin], usage: PinUse) -> (r: Result<(), FtdiError>)
    requires
        old(reg)@.wf(),
    ensures
        final(reg)@.wf(),
        match alloc_all(old(reg)@, pins@, usage) {
            Ok(m) => r is Ok && final(reg)@ == m,
            Err(e) => r == Err::<(), FtdiError>(e) && final(reg)@ == old(reg)@,
        },
{
    let ghost mut st: Seq<RegistryModel> = seq![reg@];
    let mut i: usize = 0;
    assert(pins@.skip(0) =~= pins@);
    while i < pins.len()
        invariant
            i <= pins@.len(),
            st.len() == i + 1,
            st[0] == old(reg)@,
            reg@ == st[i as int],
            reg@.wf(),
            forall|k: int| 0 <= k <= i ==> (#[trigger] st[k]).wf(),
            forall|k: int|
                0 <= k < i ==> alloc_model(#[trigger] st[k], pins@[k], usage) == Ok::<
                    RegistryModel,
                    FtdiError,
                >(st[k + 1]),
            alloc_all(old(reg)@, pins@, usage) == alloc_all(st[i as int], pins@.skip(i as int), usage),
        decreases pins@.len() - i,
    {
        assert(pins@.skip(i as int).drop_first() =~= pins@.skip(i + 1));
        assert(pins@.skip(i as int)[0] == pins@[i as int]);
        match reg.alloc_pin(pins[i], usage) {
            Ok(()) => {
                proof {
                    st = st.push(reg@);
                }
                i = i + 1;
            },
            Err(e) => {
                let mut j: usize = i;
                while j > 0
                    invariant
                        j <= i < pins@.len(),
                        st.len() == i + 1,
                        reg@ == st[j as int],
                        reg@.wf(),
                        forall|k: int| 0 <= k <= i ==> (#[trigger] st[k]).wf(),
                        forall|k: int|
                            0 <= k < i ==> alloc_model(#[trigger] st[k], pins@[k], usage) == Ok::<
                                RegistryModel,
                                FtdiError,
                            >(st[k + 1]),
                    decreases j,
                {
                    let ghost prev = st[j - 1];
                    let p = pins[j - 1];
                    proof {
                        assert(alloc_model(prev, p, usage) is Ok);
                        lemma_alloc_then_free(prev, p, usage);
                    }
                    let _ = reg.free_pin(p);
                    j = j - 1;
                }
                return Err(e);
            },
        }
    }
    assert(pins@.skip(i as int) =~= Seq::<Pin>::empty());
    Ok(())
}

/// Release each of `pins` (input, low, no use), and put both banks on the
/// wire in one command.
pub fn release_pins(reg: &mut PinRegistry, pins: &[Pin]) -> (cmd: MpsseCmdBuilder)
    requires
        old(reg)@.wf(),
        forall|k: int| 0 <= k < pins@.len() ==> (#[trigger] pins@[k]).idx() < 8,
    ensures
        final(reg)@.wf(),
        final(reg)@ == free_all(old(reg)@, pins@),
        cmd.wf(),
        cmd.response_len() == 0,
        cmd.bytes() == both_banks_cmd(final(reg)@),
{
    let mut i: usize = 0;
    assert(pins@.skip(0) =~= pins@);
    while i < pins.len()
        invariant
            i <= pins@.len(),
            forall|k: int| 0 <= k < pins@.len() ==> (#[trigger] pins@[k]).idx() < 8,
            reg@.wf(),
            free_all(old(reg)@, pins@) == free_all(reg@, pins@.skip(i as int)),
        decreases pins@.len() - i,
    {
        assert(pins@.skip(i as int).drop_first() =~= pins@.skip(i + 1));
        assert(pins@.skip(i as int)[0] == pins@[i as int]);
        let _ = reg.free_pin(pins[i]);
        i = i + 1;
    }
    assert(pins@.skip(i as int) =~= Seq::<Pin>::empty());
    let mut cmd = MpsseCmdBuilder::new();
    cmd.set_gpio_lower(reg.lower.value, reg.lower.direction);
    cmd.set_gpio_upper(reg.upper.value, reg.upper.direction);
    assert(cmd.bytes() =~= both_banks_cmd(reg@));
    cmd
}

/// Take `pin` as a GPIO output (driven low until set); the command puts its
/// bank on the wire. Fails as taking the pin fails, changing nothing.
pub fn claim_output(reg: &mut PinRegistry, pin: Pin) -> (r: Result<MpsseCmdBuilder, FtdiError>)
    requires
        old(reg)@.wf(),
    ensures
        final(reg)@.wf(),
        match alloc_model(old(reg)@, pin, PinUse::Output) {
            Ok(m) => r matches Ok(cmd) && final(reg)@ == m.with_bank(
                pin,
                m.bank(pin).with_direction(pin.idx(), true),
            ) && cmd.wf() && cmd.response_len() == 0 && cmd.bytes() == final(reg)@.bank_cmd(pin),
            Err(e) => r matches Err(f) && f == e && final(reg)@ == old(reg)@,
        },
{
    match reg.alloc_pin(pin, PinUse::Output) {
        Ok(()) => Ok(reg.set_direction(pin, true)),
        Err(e) => Err(e),
    }
}

/// Take `pin` as a GPIO input; the command puts its bank on the wire.
/// Fails as taking the pin fails, changing nothing.
pub fn claim_input(reg: &mut PinRegistry, pin: Pin) -> (r: Result<MpsseCmdBuilder, FtdiError>)
    requires
        old(reg)@.wf(),
    ensures
        final(reg)@.wf(),
        match alloc_model(old(reg)@, pin, PinUse::Input) {
            Ok(m) => r matches Ok(cmd) && final(reg)@ == m.with_bank(
                pin,
                m.bank(pin).with_direction(pin.idx(), false),
            ) && cmd.wf() && cmd.response_len() == 0 && cmd.bytes() == final(reg)@.bank_cmd(pin),
            Err(e) => r matches Err(f) && f == e && final(reg)@ == old(reg)@,
        },
{
    match reg.alloc_pin(pin, PinUse::Input) {
        Ok(()) => Ok(reg.set_direction(pin, false)),
        Err(e) => Err(e),
    }
}

} // verus!

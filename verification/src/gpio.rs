//! Port masks for driving one GPIO pin: the data-direction update that makes
//! the pin an output, and the set/clear word written to PSOR/PCOR.
use vstd::prelude::*;
use crate::bits::bit_set;

verus! {

/// PTC5, the LED of the Teensy 3.2 (board pin 13).
pub const LED_PIN: u32 = 5;

/// The port word with only bit `pin` set: what PSOR/PCOR take to set or clear
/// that one pin.
pub fn pin_mask(pin: u32) -> (mask: u32)
    requires
        pin < 32,
    ensures
        mask == 1u32 << pin,
        forall|i: u32| i < 32 ==> (bit_set(mask, i) <==> i == pin),
{
    let mask = 1u32 << pin;
    assert forall|i: u32| i < 32 implies (bit_set(mask, i) <==> i == pin) by {
        assert(((1u32 << pin) >> i) & 1 == 1 <==> i == pin) by (bit_vector)
            requires
                pin < 32,
                i < 32,
        ;
    }
    mask
}

/// The PDDR value that makes `pin` an output and leaves every other pin's
/// direction as it was.
pub fn with_output(pddr: u32, pin: u32) -> (new_pddr: u32)
    requires
        pin < 32,
    ensures
        new_pddr == pddr | (1u32 << pin),
        bit_set(new_pddr, pin),
        forall|i: u32| i < 32 && i != pin ==> bit_set(new_pddr, i) == bit_set(pddr, i),
{
    let new_pddr = pddr | pin_mask(pin);
    assert(((pddr | (1u32 << pin)) >> pin) & 1 == 1) by (bit_vector)
        requires
            pin < 32,
    ;
    assert forall|i: u32| i < 32 && i != pin implies bit_set(new_pddr, i) == bit_set(pddr, i) by {
        assert(((pddr | (1u32 << pin)) >> i) & 1 == (pddr >> i) & 1) by (bit_vector)
            requires
                pin < 32,
                i < 32,
                i != pin,
        ;
    }
    new_pddr
}

} // verus!

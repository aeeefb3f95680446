//! The discrete part of event-to-intensity reconstruction.
//!
//! An event's intensity is `D_SHIFT[d] / delta_t`: a power-of-two magnitude
//! selected by the quantized exponent `d`, spread over the elapsed ticks.
//! This module computes the exact integer numerator and denominator of that
//! quotient; performing the division at a chosen numeric precision is the
//! caller's concern.

use vstd::prelude::*;

verus! {

/// Number of entries in the reconstruction table `adder_codec_core::D_SHIFT`.
pub const D_SHIFT_LEN: usize = 129;

/// The intensity magnitude an exponent selects: `2^d` for `d` below 128,
/// and 0 for every saturated or invalid exponent.
pub open spec fn intensity_numerator(d: u8) -> u128 {
    if d < 128 {
        1u128 << (d as u128)
    } else {
        0u128
    }
}

/// The elapsed time an event's intensity is spread over: `delta_t`, with 0
/// read as 1 so the quotient is always defined.
pub open spec fn intensity_denominator(delta_t: u32) -> u32 {
    if delta_t == 0 {
        1u32
    } else {
        delta_t
    }
}

/// Relies on `adder_codec_core::D_SHIFT`: a 129-entry table whose entry `i`
/// holds `1 << i`, except the last, which holds 0.
#[verifier::external_body]
fn d_shift_entry(i: usize) -> (r: u128)
    requires
        i < D_SHIFT_LEN,
    ensures
        r == (if i < 128 {
            1u128 << (i as u128)
        } else {
            0u128
        }),
{
    adder_codec_core::D_SHIFT[i]
}

/// The exact value of an event's reconstructed intensity, as a fraction:
/// numerator `D_SHIFT[d]` (0 once `d` saturates the table) over denominator
/// `delta_t` (1 when no time elapsed).
pub fn event_to_intensity_fraction(d: u8, delta_t: u32) -> (r: (u128, u32))
    ensures
        r.0 == intensity_numerator(d),
        r.1 == intensity_denominator(delta_t),
{
    let numerator: u128 = if (d as usize) >= D_SHIFT_LEN {
        0
    } else {
        d_shift_entry(d as usize)
    };
    let denominator: u32 = if delta_t == 0 {
        1
    } else {
        delta_t
    };
    (numerator, denominator)
}

} // verus!

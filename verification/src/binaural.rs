//! Integer side of the binaural renderer: its input kinds, filter
//! profiles, spherical-harmonic channel numbering and the resampling rates
//! its filter design supports.

use vstd::prelude::*;

verus! {

/// SH-HRIR filter profiles.
#[derive(Debug, Clone, Copy, PartialEq, Eq, Structural)]
pub enum FilterProfile {
    /// The default profile.
    Ambient,
    /// Anechoic short HRIRs.
    Direct,
}

/// What the renderer consumes for one audio element.
#[derive(Debug, Clone, Copy, PartialEq, Eq, Structural)]
pub enum BinauralInput {
    /// Channel-based content in rendering order for `loudspeaker_layout`
    /// (0..=8).
    Speakers { loudspeaker_layout: u8 },
    /// ACN/SN3D ambisonics of the given order (1..=4).
    Hoa { order: usize },
}

/// Transition bandwidth ratio of the interpolation filter.
pub const TRANSITION_BANDWIDTH_RATIO: u64 = 13;

/// Longest interpolation filter the resampler builds.
pub const MAX_FILTER_LENGTH: u64 = 16384;

/// Greatest common divisor, by Euclid's algorithm.
pub open spec fn spec_gcd(a: nat, b: nat) -> nat
    decreases b,
{
    if b == 0 {
        a
    } else {
        spec_gcd(b, a % b)
    }
}

proof fn lemma_gcd_positive(a: nat, b: nat)
    requires
        a > 0 || b > 0,
    ensures
        spec_gcd(a, b) > 0,
        spec_gcd(a, b) <= if a > b {
            a
        } else {
            b
        },
    decreases b,
{
    if b > 0 {
        assert(a % b < b);
        lemma_gcd_positive(b, a % b);
    }
}

fn gcd(a: u64, b: u64) -> (g: u64)
    ensures
        g == spec_gcd(a as nat, b as nat),
    decreases b,
{
    if b == 0 {
        a
    } else {
        gcd(b, a % b)
    }
}

/// The resampler can convert `source` Hz to `destination` Hz when its
/// interpolation filter, `max(source, destination) / gcd * 13` taps
/// rounded up to even, fits in `MAX_FILTER_LENGTH`.
pub open spec fn spec_rates_supported(source: u32, destination: u32) -> bool {
    let g = spec_gcd(source as nat, destination as nat);
    let max_rate = (if source > destination {
        source
    } else {
        destination
    }) as nat / g;
    let length = max_rate * 13;
    length + length % 2 <= 16384
}

/// Whether the one-shot resampler supports converting `source` Hz to
/// `destination` Hz (at least one of them nonzero).
pub fn rates_supported(source: u32, destination: u32) -> (ok: bool)
    requires
        source != 0 || destination != 0,
    ensures
        ok == spec_rates_supported(source, destination),
{
    proof {
        lemma_gcd_positive(source as nat, destination as nat);
    }
    let g = gcd(source as u64, destination as u64);
    let larger = if source > destination {
        source
    } else {
        destination
    };
    let max_rate = larger as u64 / g;
    assert(max_rate <= u32::MAX) by (nonlinear_arith)
        requires
            max_rate == larger as u64 / g,
            g > 0,
            larger <= u32::MAX,
    ;
    let mut filter_length = max_rate * TRANSITION_BANDWIDTH_RATIO;
    filter_length = filter_length + filter_length % 2;
    filter_length <= MAX_FILTER_LENGTH
}

/// ACN channel index of the spherical harmonic of `degree` and `order`:
/// `degree² + degree + order`.
pub fn acn(degree: i32, order: i32) -> (index: usize)
    requires
        i32::MIN <= degree * degree <= i32::MAX,
        i32::MIN <= degree * degree + degree <= i32::MAX,
        i32::MIN <= degree * degree + degree + order <= i32::MAX,
    ensures
        index == (degree * degree + degree + order) as usize,
{
    (degree * degree + degree + order) as usize
}

} // verus!

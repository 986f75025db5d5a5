//! The latency simulator: an optional artificial delay injected between
//! dispatch and send, for testing backpressure and timing assumptions. The
//! random mode draws from an exponential distribution with the configured
//! mean minus the floor, added to the floor, approximating network jitter
//! with a hard minimum. The draw is computed in fixed-point integer
//! arithmetic against an exact functional specification; only the raw
//! random word comes from outside.

use vstd::prelude::*;

use vstd::arithmetic::div_mod::lemma_div_is_ordered;
use vstd::arithmetic::power2::{
    lemma2_to64, lemma_pow2_pos, lemma_pow2_strictly_increases, lemma_pow2_unfold, pow2,
};

verus! {

/// How much artificial delay the server injects before each response.
#[derive(Debug, Clone, Copy, PartialEq, Eq, Structural)]
pub enum SimulatedLatency {
    /// No delay.
    Disabled,
    /// A fixed delay, in milliseconds.
    Fixed(u64),
    /// An exponentially distributed delay, in milliseconds: never below
    /// `min`, with mean `mean`.
    Random { min: u64, mean: u64 },
}

/// Relies on `rand::random`: a machine word drawn from the thread-local
/// generator. Nothing is promised of its value.
#[verifier::external_body]
fn random_u64() -> u64 {
    rand::random()
}

/// The natural logarithm of two in Q32 fixed point, rounded to nearest.
pub const LN2_Q32: u64 = 2977044472;

/// The bit pattern with only the top bit of a 64-bit word set.
pub const TOP_BIT: u64 = 0x8000_0000_0000_0000;

/// One in Q32 fixed point.
pub const Q32_ONE: u64 = 0x1_0000_0000;

/// How many doublings bring a nonzero word into the top half of the 64-bit
/// range: its leading zero count.
pub open spec fn spec_norm_count(m: u64) -> int
    decreases u64::MAX - m,
    when 1 <= m
{
    if m >= TOP_BIT {
        0
    } else {
        1 + spec_norm_count((2 * m) as u64)
    }
}

/// The word those doublings produce: the normalized mantissa in
/// `[2^63, 2^64)`.
pub open spec fn spec_norm_value(m: u64) -> u64
    decreases u64::MAX - m,
    when 1 <= m
{
    if m >= TOP_BIT {
        m
    } else {
        spec_norm_value((2 * m) as u64)
    }
}

/// Clamps a value to the Q32 fraction range. The computation below never
/// exceeds it; the clamp only makes the range obvious.
pub open spec fn spec_clamp_q32(x: int) -> int {
    if x > 0xFFFF_FFFF {
        0xFFFF_FFFF
    } else {
        x
    }
}

/// The exact value the exponential sampler computes from one random word:
/// for `u = (r | 1) / 2^64` it approximates `-ln(u)` in Q32 fixed point,
/// via `-ln(u) = (lz + 1) ln 2 - ln(m / 2^63)` for the normalized mantissa
/// `m`, with `ln` of the mantissa from a short arctanh series.
pub open spec fn spec_exp_sample_q32(r: u64) -> int {
    let z = r | 1;
    let m = spec_norm_value(z);
    let lz = spec_norm_count(z);
    let t = spec_clamp_q32(((m - TOP_BIT) * (Q32_ONE as int)) / ((m + TOP_BIT) as int));
    let t2 = spec_clamp_q32((t * t) / (Q32_ONE as int));
    let t3 = spec_clamp_q32((t2 * t) / (Q32_ONE as int));
    let t5 = spec_clamp_q32((t3 * t2) / (Q32_ONE as int));
    let t7 = spec_clamp_q32((t5 * t2) / (Q32_ONE as int));
    let ln_frac = 2 * (t + t3 / 3 + t5 / 5 + t7 / 7);
    let base = (lz + 1) * (LN2_Q32 as int);
    if ln_frac > base {
        0
    } else {
        base - ln_frac
    }
}

/// Normalization is doubling: the count stays within a word, and the value
/// is the input times two to the count, landing in the top half.
pub proof fn lemma_norm(m: u64)
    requires
        1 <= m,
    ensures
        0 <= spec_norm_count(m) <= 63,
        TOP_BIT <= spec_norm_value(m),
        spec_norm_value(m) == m * pow2(spec_norm_count(m) as nat),
    decreases u64::MAX - m,
{
    if m >= TOP_BIT {
        lemma2_to64();
        assert(m * pow2(0) == m) by (nonlinear_arith)
            requires
                pow2(0) == 1,
        ;
    } else {
        let m2 = (2 * m) as u64;
        lemma_norm(m2);
        let c2 = spec_norm_count(m2) as nat;
        lemma_pow2_unfold(c2 + 1);
        assert(m2 * pow2(c2) == m * pow2(c2 + 1)) by (nonlinear_arith)
            requires
                m2 == 2 * m,
                pow2(c2 + 1) == 2 * pow2(c2),
        ;
        // The count cannot reach 64: the value is `m * 2^count` and fits a
        // word, so `2^count` is below `2^64`.
        lemma_pow2_pos(c2 + 1);
        assert(pow2(c2 + 1) <= m * pow2(c2 + 1)) by (nonlinear_arith)
            requires
                1 <= m,
                pow2(c2 + 1) > 0,
        ;
        if c2 + 1 > 63 {
            lemma2_to64();
            lemma_pow2_strictly_increases(64, c2 + 1);
        }
    }
}

/// A sample of the standard exponential distribution, in Q32 fixed point,
/// computed from one uniform random word, equal to its functional
/// specification on every input.
fn exp_sample_q32(r: u64) -> (e: u64)
    ensures
        e == spec_exp_sample_q32(r),
        e <= 64 * LN2_Q32,
{
    let z = r | 1;
    proof {
        assert(z >= 1) by (bit_vector)
            requires
                z == r | 1,
        ;
        lemma_norm(z);
    }
    let mut m: u64 = z;
    let mut lz: u64 = 0;
    while m < TOP_BIT
        invariant
            1 <= m,
            z >= 1,
            spec_norm_value(z) == spec_norm_value(m),
            spec_norm_count(z) == lz + spec_norm_count(m),
            0 <= spec_norm_count(z) <= 63,
        decreases u64::MAX - m,
    {
        proof {
            lemma_norm(m);
            lemma_norm((2 * m) as u64);
        }
        m = m * 2;
        lz = lz + 1;
    }
    proof {
        assert(spec_norm_count(m) == 0);
        assert(spec_norm_value(m) == m);
        assert(m == spec_norm_value(z));
        assert(lz == spec_norm_count(z));
    }
    // t = (m - 2^63) / (m + 2^63) in Q32: the arctanh argument, in [0, 1/3).
    proof {
        assert(((m - TOP_BIT) as u128) * (Q32_ONE as u128) <= (
        0xFFFF_FFFF_FFFF_FFFFu128) * (Q32_ONE as u128)) by (nonlinear_arith)
            requires
                m >= TOP_BIT,
        ;
    }
    let num: u128 = ((m - TOP_BIT) as u128) * (Q32_ONE as u128);
    let den: u128 = (m as u128) + (TOP_BIT as u128);
    let t_wide: u128 = num / den;
    let t: u64 = if t_wide > 0xFFFF_FFFF {
        0xFFFF_FFFF
    } else {
        t_wide as u64
    };
    // ln(m / 2^63) = 2 * atanh(t) ~ 2 * (t + t^3/3 + t^5/5 + t^7/7).
    proof {
        assert(forall|a: u64, b: u64|
            a <= 0xFFFF_FFFF && b <= 0xFFFF_FFFF ==> #[trigger] ((a as u128) * (b as u128))
                <= 0xFFFF_FFFF_FFFF_FFFF) by (nonlinear_arith);
    }
    let t2w: u128 = (t as u128 * t as u128) / (Q32_ONE as u128);
    let t2: u64 = if t2w > 0xFFFF_FFFF {
        0xFFFF_FFFF
    } else {
        t2w as u64
    };
    let t3w: u128 = (t2 as u128 * t as u128) / (Q32_ONE as u128);
    let t3: u64 = if t3w > 0xFFFF_FFFF {
        0xFFFF_FFFF
    } else {
        t3w as u64
    };
    let t5w: u128 = (t3 as u128 * t2 as u128) / (Q32_ONE as u128);
    let t5: u64 = if t5w > 0xFFFF_FFFF {
        0xFFFF_FFFF
    } else {
        t5w as u64
    };
    let t7w: u128 = (t5 as u128 * t2 as u128) / (Q32_ONE as u128);
    let t7: u64 = if t7w > 0xFFFF_FFFF {
        0xFFFF_FFFF
    } else {
        t7w as u64
    };
    let ln_frac: u64 = 2 * (t + t3 / 3 + t5 / 5 + t7 / 7);
    // -ln(z / 2^64) = (lz + 1) * ln 2 - ln(m / 2^63).
    proof {
        assert((lz + 1) * LN2_Q32 <= 64 * LN2_Q32) by (nonlinear_arith)
            requires
                lz <= 63,
        ;
    }
    let base: u64 = (lz + 1) * LN2_Q32;
    if ln_frac > base {
        0
    } else {
        base - ln_frac
    }
}

/// Draws the delay one request/response cycle is held back by, in
/// milliseconds: none when the simulator is off, the configured value in
/// fixed mode, and in random mode an exponentially distributed value that
/// never undercuts the floor and never overshoots it by more than 64 ln 2
/// spreads (the largest value one 64-bit draw can produce).
pub fn sample_latency(config: &SimulatedLatency) -> (r: Option<u64>)
    ensures
        (r is Some) == !(config is Disabled),
        (match *config {
            SimulatedLatency::Disabled => true,
            SimulatedLatency::Fixed(ms) => r == Some(ms),
            SimulatedLatency::Random { min, mean } => {
                &&& r matches Some(d) && d >= min
                &&& (mean > min ==> (r->0 as int) <= min + (64 * LN2_Q32) * ((mean - min)
                    as int) / (Q32_ONE as int))
                &&& (mean <= min ==> r == Some(min))
            },
        }),
{
    match config {
        SimulatedLatency::Disabled => None,
        SimulatedLatency::Fixed(ms) => Some(*ms),
        SimulatedLatency::Random { min, mean } => {
            let spread: u64 = if *mean > *min {
                *mean - *min
            } else {
                0
            };
            let e = exp_sample_q32(random_u64());
            proof {
                assert((e as u128) * (spread as u128) <= ((64 * LN2_Q32) as u128) * (
                spread as u128)) by (nonlinear_arith)
                    requires
                        e <= 64 * LN2_Q32,
                ;
                assert(((64 * LN2_Q32) as u128) * (spread as u128) <= u128::MAX) by (
                nonlinear_arith)
                    requires
                        spread <= 0xFFFF_FFFF_FFFF_FFFFu64,
                ;
                lemma_div_is_ordered(
                    (e as int) * (spread as int),
                    (64 * LN2_Q32) * (spread as int),
                    Q32_ONE as int,
                );
            }
            let extra_wide: u128 = ((e as u128) * (spread as u128)) / (Q32_ONE as u128);
            let extra: u64 = if extra_wide > 0xFFFF_FFFF_FFFF_FFFF {
                u64::MAX
            } else {
                extra_wide as u64
            };
            Some(min.saturating_add(extra))
        },
    }
}

} // verus!

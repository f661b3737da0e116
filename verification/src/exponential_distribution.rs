use vstd::prelude::*;
use crate::rng::rand_word;
use rand::rngs::StdRng;
use vstd::arithmetic::power2::{lemma2_to64, lemma2_to64_rest, lemma_pow2_adds, pow2};
use vstd::arithmetic::div_mod::{lemma_div_is_ordered, lemma_multiply_divide_lt};

verus! {

/// `ln 2` in 32-bit fixed point: `floor(ln 2 * 2^32)`.
pub const LN2_Q32: u64 = 2977044471;

/// The largest value the sampler can produce: `64 * LN2_Q32`, reached when
/// the uniform draw is zero.
pub const EXPONENTIAL_MAX_Q32: u64 = 190530846144;

/// The normalization step of the logarithm: double `y` until it reaches
/// `2^63`, lowering the binary exponent `e` by one each time.
pub open spec fn normalize_shift(y: int, e: int) -> (int, int)
    decreases e,
{
    if y >= 0x8000000000000000 || e <= 0 {
        (y, e)
    } else {
        normalize_shift(2 * y, e - 1)
    }
}

/// The fraction-extraction step of the logarithm: square the normalized
/// mantissa (kept in `[2^63, 2^64)`) once per round; each round the
/// mantissa's square either crosses `2^64`, yielding a one bit, or does
/// not, yielding a zero bit.
pub open spec fn square_rounds(y: int, frac: int, rounds: nat) -> (int, int)
    decreases rounds,
{
    if rounds == 0 {
        (y, frac)
    } else {
        let squared = (y * y) / 0x8000000000000000;
        if squared >= 0x10000000000000000 {
            square_rounds(squared / 2, 2 * frac + 1, (rounds - 1) as nat)
        } else {
            square_rounds(squared, 2 * frac, (rounds - 1) as nat)
        }
    }
}

/// The value `neg_ln_q32` computes from a drawn word `w`: reading the
/// word as the uniform `u = (w + 1) / 2^64`, this is `-ln u` in 32-bit
/// fixed point — `64 ln 2` minus `ln(w + 1)`, with `log2(w + 1)` taken to
/// 32 fractional bits by the two steps above and scaled by `ln 2`.
pub open spec fn spec_neg_ln_q32(word: u64) -> int {
    if word == 0xffffffffffffffff {
        0
    } else {
        let normalized = normalize_shift(word + 1, 63);
        let extracted = square_rounds(normalized.0, 0, 32);
        let log2_q32 = normalized.1 * 0x100000000 + extracted.1;
        EXPONENTIAL_MAX_Q32 - (log2_q32 * LN2_Q32) / 0x100000000
    }
}

/// One draw from the standard exponential distribution (rate one), in
/// 32-bit fixed point: the field holds `floor(x * 2^32)` for the drawn
/// real `x`.
pub struct StandardExponential(pub u64);

/// `-ln((word + 1) / 2^64)` in 32-bit fixed point: exactly the value of
/// `spec_neg_ln_q32` on the given word. The logarithm is extracted bit by
/// bit by repeated squaring of the normalized mantissa, then scaled by
/// `ln 2`.
pub fn neg_ln_q32(word: u64) -> (r: u64)
    ensures
        r as int == spec_neg_ln_q32(word),
        r <= EXPONENTIAL_MAX_Q32,
{
    if word == 0xffffffffffffffffu64 {
        // The uniform draw is 1; its logarithm is 0.
        return 0;
    }
    let v = word + 1;

    // Normalize: find e and y with y == v * 2^(63 - e),
    // 2^63 <= y < 2^64, so that log2(v) = e + log2(y / 2^63).
    let mut y: u128 = v as u128;
    let mut e: u64 = 63;
    let mut low: u128 = 1;
    proof {
        lemma2_to64();
        lemma2_to64_rest();
    }
    while y < 0x8000000000000000u128
        invariant
            1 <= y < 0x10000000000000000u128,
            e <= 63,
            low == pow2((63 - e) as nat),
            low <= 0x8000000000000000u128,
            y >= low,
            normalize_shift(y as int, e as int) == normalize_shift(v as int, 63),
        decreases e,
    {
        proof {
            lemma2_to64();
            lemma2_to64_rest();
            if e == 0 {
                assert(low == pow2(63));
            }
            assert(e >= 1);
            lemma_pow2_adds((63 - e) as nat, 1);
            assert(pow2((64 - e) as nat) == pow2((63 - e) as nat) * 2);
            if e >= 2 {
                vstd::arithmetic::power2::lemma_pow2_strictly_increases(
                    (64 - e) as nat,
                    63,
                );
            }
            assert(normalize_shift(y as int, e as int) == normalize_shift(
                2 * (y as int),
                e as int - 1,
            ));
        }
        y = y * 2;
        e = e - 1;
        low = low * 2;
    }
    proof {
        assert(normalize_shift(y as int, e as int) == (y as int, e as int));
    }
    let ghost y_start = y as int;

    // Extract 32 fractional bits of log2(y / 2^63) by repeated
    // squaring.
    let mut frac: u64 = 0;
    proof {
        lemma2_to64();
    }
    for k in 0..32u64
        invariant
            0x8000000000000000u128 <= y < 0x10000000000000000u128,
            frac < pow2(k as nat),
            frac < 0x100000000u64,
            square_rounds(y as int, frac as int, (32 - k) as nat) == square_rounds(
                y_start,
                0,
                32,
            ),
    {
        proof {
            lemma2_to64();
            lemma2_to64_rest();
            assert(y * y < 0x10000000000000000u128 * 0x10000000000000000u128)
                by (nonlinear_arith)
                requires y < 0x10000000000000000u128;
            assert(y * y >= 0x8000000000000000u128 * 0x8000000000000000u128)
                by (nonlinear_arith)
                requires y >= 0x8000000000000000u128;
            lemma_div_is_ordered(
                0x8000000000000000u128 * 0x8000000000000000u128 as int,
                (y * y) as int,
                0x8000000000000000u128 as int,
            );
            lemma_multiply_divide_lt(
                (y * y) as int,
                0x8000000000000000u128 as int,
                0x20000000000000000u128 as int,
            );
            assert(pow2((k + 1) as nat) == pow2(k as nat) * 2) by {
                lemma_pow2_adds(k as nat, 1);
            }
            assert(pow2(k as nat) <= pow2(31)) by {
                if k < 31 {
                    vstd::arithmetic::power2::lemma_pow2_strictly_increases(
                        k as nat,
                        31,
                    );
                }
            }
            assert(square_rounds(y as int, frac as int, (32 - k) as nat) == (if ((y as int) * (
            y as int)) / 0x8000000000000000 >= 0x10000000000000000 {
                square_rounds(
                    ((y as int) * (y as int)) / 0x8000000000000000 / 2,
                    2 * (frac as int) + 1,
                    (32 - k - 1) as nat,
                )
            } else {
                square_rounds(
                    ((y as int) * (y as int)) / 0x8000000000000000,
                    2 * (frac as int),
                    (32 - k - 1) as nat,
                )
            }));
        }
        y = (y * y) / 0x8000000000000000u128;
        if y >= 0x10000000000000000u128 {
            frac = frac * 2 + 1;
            y = y / 2;
        } else {
            frac = frac * 2;
        }
    }
    proof {
        assert(square_rounds(y as int, frac as int, 0) == (y as int, frac as int));
        assert(frac as int == square_rounds(y_start, 0, 32).1);
    }

    // log2(v) in 32-bit fixed point, then times ln 2.
    let log2_q32: u64 = e * 0x100000000u64 + frac;
    assert(log2_q32 < 64 * 0x100000000u64);
    proof {
        assert((log2_q32 as int) * (LN2_Q32 as int) < 0x100000000000000000000)
            by (nonlinear_arith)
            requires log2_q32 < 64 * 0x100000000u64, LN2_Q32 == 2977044471u64;
    }
    let prod: u128 = (log2_q32 as u128) * (LN2_Q32 as u128);
    proof {
        assert(prod < (64 * 0x100000000u128) * (LN2_Q32 as u128)) by (nonlinear_arith)
            requires prod == (log2_q32 as u128) * (LN2_Q32 as u128), log2_q32 < 64 * 0x100000000u64;
        lemma_multiply_divide_lt(
            prod as int,
            0x100000000u128 as int,
            (64 * LN2_Q32) as int,
        );
        assert((64 * 0x100000000u128) * (LN2_Q32 as u128) == 0x100000000u128 * ((64
            * LN2_Q32) as u128)) by (nonlinear_arith);
        vstd::arithmetic::div_mod::lemma_div_pos_is_pos(prod as int, 0x100000000);
    }
    let ln_q32: u64 = (prod / 0x100000000u128) as u64;
    assert(ln_q32 < EXPONENTIAL_MAX_Q32);
    proof {
        assert(spec_neg_ln_q32(word) == EXPONENTIAL_MAX_Q32 - ln_q32);
    }
    EXPONENTIAL_MAX_Q32 - ln_q32
}

impl StandardExponential {
    /// Draw a standard-exponential variate by inverse transform sampling:
    /// `x = -ln u` for a uniform `u` in `(0, 1]`. The uniform draw is one
    /// trusted machine word; everything after it is `neg_ln_q32`, whose
    /// contract gives the exact fixed-point value for every word. Of the
    /// random draw itself only the range can be promised.
    pub fn sample(rng: &mut StdRng) -> (r: StandardExponential)
        ensures
            r.0 <= EXPONENTIAL_MAX_Q32,
    {
        let w = rand_word(rng);
        StandardExponential(neg_ln_q32(w))
    }
}

} // verus!

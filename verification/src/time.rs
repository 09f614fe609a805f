//! Epoch timestamps taken from binary64 bit patterns.
//!
//! A time travels as the bit pattern of its epoch-second value.  For
//! display it is split, by exact integer arithmetic on the pattern,
//! into whole seconds and nanoseconds: the encoded value is truncated
//! toward minus infinity at nanosecond precision.  Turning the split
//! into civil-time text is chrono's work, behind trusted wrappers.

use vstd::arithmetic::div_mod::lemma_fundamental_div_mod;
use vstd::arithmetic::div_mod::lemma_fundamental_div_mod_converse;
use vstd::arithmetic::mul::lemma_mul_inequality;
use vstd::arithmetic::power2::lemma2_to64;
use vstd::arithmetic::power2::lemma2_to64_rest;
use vstd::arithmetic::power2::lemma_pow2_adds;
use vstd::arithmetic::power2::lemma_pow2_pos;
use vstd::arithmetic::power2::lemma_pow2_strictly_increases;
use vstd::arithmetic::power2::pow2;
use vstd::prelude::*;

use chrono::TimeZone;

use crate::fbits::F64_P52;
use crate::fbits::F64_SIGN;
use crate::fbits::f64_is_finite;
use crate::fbits::fin_mant;
use crate::fbits::fin_pow;
use crate::fbits::is_finite_bits;
use crate::fbits::pow2_u128;
use crate::fbits::sign_bit;

verus! {

/// The signed significand: `fin_mant` with the sign applied.
pub open spec fn signed_sig(b: u64) -> int {
    if sign_bit(b) {
        -(fin_mant(b) as int)
    } else {
        fin_mant(b) as int
    }
}

/// The encoded value in whole nanoseconds, truncated toward minus
/// infinity: `floor(value * 10^9)`.
pub open spec fn ns_of(b: u64) -> int
    recommends
        is_finite_bits(b),
{
    let m = signed_sig(b) * 1_000_000_000;
    let k = fin_pow(b);
    if k >= 0 {
        m * pow2(k as nat)
    } else {
        m / (pow2((-k) as nat) as int)
    }
}

/// The encoded time as whole seconds and nanoseconds within the
/// second, both floored, or `None` when the value is not finite or
/// its seconds do not fit a 64-bit count.
pub open spec fn ts_parts_of(b: u64) -> Option<(i64, u32)> {
    if is_finite_bits(b) {
        let ns = ns_of(b);
        let secs = ns / 1_000_000_000;
        if i64::MIN <= secs <= i64::MAX {
            Some((secs as i64, (ns % 1_000_000_000) as u32))
        } else {
            None
        }
    } else {
        None
    }
}

/// Splits the encoded time into seconds and nanoseconds as
/// [`ts_parts_of`] states.
#[verifier::loop_isolation(false)]
#[verifier::rlimit(60)]
pub fn f64_ts_parts(b: u64) -> (r: Option<(i64, u32)>)
    ensures
        r == ts_parts_of(b),
{
    if !f64_is_finite(b) {
        return None;
    }
    let neg = b >= F64_SIGN;
    let mag = if neg {
        b - F64_SIGN
    } else {
        b
    };
    let e = mag / F64_P52;
    let f = mag % F64_P52;
    let m: u64 = if e == 0 {
        f
    } else {
        f + F64_P52
    };
    proof {
        assert(m == fin_mant(b));
        assert(m < 0x20_0000_0000_0000);
        lemma2_to64();
        lemma2_to64_rest();
    }
    if e >= 1075 {
        let k = e - 1075;
        let ghost sm = signed_sig(b);
        proof {
            assert(fin_pow(b) == k);
            assert(ns_of(b) == (sm * 1_000_000_000) * pow2(k as nat));
            assert((sm * pow2(k as nat)) * 1_000_000_000 == (sm * 1_000_000_000) * pow2(
                k as nat,
            )) by (nonlinear_arith);
            lemma_fundamental_div_mod_converse(
                (sm * 1_000_000_000) * pow2(k as nat),
                1_000_000_000,
                sm * pow2(k as nat),
                0,
            );
            assert(ns_of(b) / 1_000_000_000 == sm * pow2(k as nat));
            assert(ns_of(b) % 1_000_000_000 == 0);
        }
        if k >= 12 {
            proof {
                lemma_pow2_strictly_increases(11, k as nat);
                assert(pow2(12) <= pow2(k as nat)) by {
                    if k > 12 {
                        lemma_pow2_strictly_increases(12, k as nat);
                    }
                }
                assert(m >= 0x10_0000_0000_0000);
                lemma_mul_inequality(0x10_0000_0000_0000, m as int, pow2(k as nat) as int);
                assert(m as int * pow2(k as nat) >= 0x10_0000_0000_0000 * pow2(12)) by {
                    lemma_mul_inequality(pow2(12) as int, pow2(k as nat) as int, m as int);
                    assert(m as int * pow2(12) <= m as int * pow2(k as nat)) by (
                    nonlinear_arith)
                        requires
                            pow2(12) <= pow2(k as nat),
                            m >= 0,
                    ;
                    assert(0x10_0000_0000_0000 * pow2(12) <= m as int * pow2(12)) by (
                    nonlinear_arith)
                        requires
                            m >= 0x10_0000_0000_0000,
                    ;
                }
                lemma_pow2_adds(52, 12);
                assert(sm * pow2(k as nat) == if neg {
                    -(m as int * pow2(k as nat))
                } else {
                    m as int * pow2(k as nat)
                }) by (nonlinear_arith)
                    requires
                        sm == if neg {
                            -(m as int)
                        } else {
                            m as int
                        },
                ;
                assert(ts_parts_of(b) is None);
            }
            return None;
        }
        let p2k = pow2_u128(k);
        proof {
            assert(p2k <= 0x800) by {
                if (k as nat) < 11 {
                    lemma_pow2_strictly_increases(k as nat, 11);
                }
                lemma2_to64();
            }
            assert((m as u128) * p2k < 0x20_0000_0000_0000u128 * 0x1000) by (nonlinear_arith)
                requires
                    m < 0x20_0000_0000_0000,
                    p2k <= 0x800,
            ;
        }
        let v = (m as u128) * p2k;
        proof {
            assert(v == m as int * pow2(k as nat));
            assert(v < 0x20_0000_0000_0000u128 * 0x1000) by (nonlinear_arith)
                requires
                    m < 0x20_0000_0000_0000,
                    p2k <= 0x800,
                    v == m as u128 * p2k,
            ;
        }
        proof {
            assert(sm * pow2(k as nat) == if neg {
                -(v as int)
            } else {
                v as int
            }) by (nonlinear_arith)
                requires
                    sm == if neg {
                        -(m as int)
                    } else {
                        m as int
                    },
                    v == m as int * pow2(k as nat),
            ;
        }
        if neg {
            if v > 0x8000_0000_0000_0000u128 {
                return None;
            }
            let secs: i64 = if v == 0x8000_0000_0000_0000u128 {
                i64::MIN
            } else {
                -(v as i64)
            };
            Some((secs, 0))
        } else {
            if v > 0x7fff_ffff_ffff_ffffu128 {
                proof {
                    assert(ts_parts_of(b) is None);
                }
                return None;
            }
            Some((v as i64, 0))
        }
    } else {
        let j: u64 = if e == 0 {
            1074
        } else {
            1075 - e
        };
        proof {
            assert(fin_pow(b) == -(j as int));
        }
        let a: u128 = (m as u128) * 1_000_000_000;
        proof {
            assert(a < 0x20_0000_0000_0000u128 * 1_000_000_000) by (nonlinear_arith)
                requires
                    m < 0x20_0000_0000_0000,
                    a == m as u128 * 1_000_000_000,
            ;
            assert(a == (fin_mant(b) as int) * 1_000_000_000);
        }
        let ghost d = pow2(j as nat) as int;
        proof {
            lemma_pow2_pos(j as nat);
        }
        if j >= 84 {
            proof {
                assert(a < pow2(83)) by {
                    lemma_pow2_adds(64, 19);
                    lemma2_to64();
                    lemma2_to64_rest();
                }
                lemma_pow2_strictly_increases(83, j as nat);
                assert(a < d);
                if !neg {
                    lemma_fundamental_div_mod_converse(a as int, d, 0, a as int);
                    assert(ns_of(b) == 0);
                    lemma_fundamental_div_mod_converse(0, 1_000_000_000, 0, 0);
                } else {
                    if m == 0 {
                        assert(ns_of(b) == 0int / d);
                        lemma_fundamental_div_mod_converse(0, d, 0, 0);
                        lemma_fundamental_div_mod_converse(0, 1_000_000_000, 0, 0);
                    } else {
                        assert(a >= 1_000_000_000);
                        lemma_fundamental_div_mod_converse(-(a as int), d, -1, d - a);
                        assert(ns_of(b) == -1);
                        lemma_fundamental_div_mod_converse(-1, 1_000_000_000, -1, 999_999_999);
                    }
                }
            }
            if !neg || m == 0 {
                Some((0, 0))
            } else {
                Some((-1, 999_999_999))
            }
        } else {
            let dd = pow2_u128(j);
            let q = a / dd;
            let rr = a % dd;
            proof {
                lemma_fundamental_div_mod(a as int, d);
                assert(q == a as int / d);
                assert(rr == a as int % d);
                assert(q <= a) by (nonlinear_arith)
                    requires
                        d >= 1,
                        q == a as int / d,
                        a >= 0,
                ;
            }
            if !neg {
                proof {
                    assert(ns_of(b) == q);
                    lemma_fundamental_div_mod(q as int, 1_000_000_000);
                }
                Some(((q / 1_000_000_000) as i64, (q % 1_000_000_000) as u32))
            } else {
                let n_mag: u128 = if rr == 0 {
                    q
                } else {
                    q + 1
                };
                proof {
                    if rr == 0 {
                        assert(-(a as int) == d * (-(q as int)) + 0) by (nonlinear_arith)
                            requires
                                a as int == d * (q as int) + (rr as int),
                                rr == 0,
                        ;
                        lemma_fundamental_div_mod_converse(-(a as int), d, -(q as int), 0);
                    } else {
                        assert(-(a as int) == d * (-(q as int) - 1) + (d - rr)) by (
                        nonlinear_arith)
                            requires
                                a as int == d * (q as int) + (rr as int),
                        ;
                        lemma_fundamental_div_mod_converse(
                            -(a as int),
                            d,
                            -(q as int) - 1,
                            d - rr,
                        );
                    }
                    assert(ns_of(b) == -(n_mag as int));
                }
                if n_mag == 0 {
                    proof {
                        lemma_fundamental_div_mod_converse(0, 1_000_000_000, 0, 0);
                    }
                    Some((0, 0))
                } else {
                    let qs = n_mag / 1_000_000_000;
                    let rs = n_mag % 1_000_000_000;
                    proof {
                        lemma_fundamental_div_mod(n_mag as int, 1_000_000_000);
                        if rs == 0 {
                            lemma_fundamental_div_mod_converse(
                                -(n_mag as int),
                                1_000_000_000,
                                -(qs as int),
                                0,
                            );
                        } else {
                            assert(-(n_mag as int) == 1_000_000_000 * (-(qs as int) - 1) + (
                            1_000_000_000 - rs));
                            lemma_fundamental_div_mod_converse(
                                -(n_mag as int),
                                1_000_000_000,
                                -(qs as int) - 1,
                                1_000_000_000 - rs,
                            );
                        }
                        assert(qs <= n_mag) by (nonlinear_arith)
                            requires
                                qs == n_mag as int / 1_000_000_000,
                                n_mag >= 0,
                        ;
                    }
                    if rs == 0 {
                        Some((-(qs as i64), 0))
                    } else {
                        Some((-(qs as i64) - 1, (1_000_000_000 - rs) as u32))
                    }
                }
            }
        }
    }
}

/// The text chrono renders for the UTC instant at the given split
/// timestamp, or `None` where chrono holds the instant unrepresentable.
pub uninterp spec fn utc_full_of(secs: i64, nanos: u32) -> Option<Seq<char>>;

/// The hour-and-minute text, `HH:MM`, chrono renders for the UTC
/// instant at the given split timestamp, or `None` where chrono holds
/// the instant unrepresentable.
pub uninterp spec fn utc_hm_of(secs: i64, nanos: u32) -> Option<Seq<char>>;

/// Relies on `chrono::Utc::timestamp_opt` and the `Display` of
/// `chrono::DateTime<Utc>`: a single instant exists exactly for
/// in-range seconds and nanoseconds, and its display text depends on
/// the two numbers alone.
#[verifier::external_body]
pub fn utc_full_text(secs: i64, nanos: u32) -> (r: Option<String>)
    ensures
        (r is Some) == (utc_full_of(secs, nanos) is Some),
        r matches Some(s) ==> utc_full_of(secs, nanos) == Some(s@),
{
    match chrono::Utc.timestamp_opt(secs, nanos) {
        chrono::LocalResult::Single(ts) => Some(ts.to_string()),
        _ => None,
    }
}

/// Relies on `chrono::Utc::timestamp_opt` and chrono's `format` with
/// the fixed pattern `%H:%M`: the rendered hour and minute depend on
/// the two numbers alone.
#[verifier::external_body]
pub fn utc_hm_text(secs: i64, nanos: u32) -> (r: Option<String>)
    ensures
        (r is Some) == (utc_hm_of(secs, nanos) is Some),
        r matches Some(s) ==> utc_hm_of(secs, nanos) == Some(s@),
{
    match chrono::Utc.timestamp_opt(secs, nanos) {
        chrono::LocalResult::Single(ts) => Some(ts.format("%H:%M").to_string()),
        _ => None,
    }
}

/// The full timestamp text of a time given as a bit pattern:
/// `None` when the split or chrono's rendering refuses it.
pub open spec fn time_text_of(b: u64) -> Option<Seq<char>> {
    match ts_parts_of(b) {
        None => None,
        Some((secs, nanos)) => utc_full_of(secs, nanos),
    }
}

/// The hour-and-minute text of a time given as a bit pattern.
pub open spec fn time_hm_of(b: u64) -> Option<Seq<char>> {
    match ts_parts_of(b) {
        None => None,
        Some((secs, nanos)) => utc_hm_of(secs, nanos),
    }
}

/// Renders the full timestamp text for the encoded time.
pub fn f64_time_text(b: u64) -> (r: Option<String>)
    ensures
        (r is Some) == (time_text_of(b) is Some),
        r matches Some(s) ==> time_text_of(b) == Some(s@),
{
    match f64_ts_parts(b) {
        None => None,
        Some((secs, nanos)) => utc_full_text(secs, nanos),
    }
}

/// Renders the hour-and-minute text for the encoded time.
pub fn f64_time_hm(b: u64) -> (r: Option<String>)
    ensures
        (r is Some) == (time_hm_of(b) is Some),
        r matches Some(s) ==> time_hm_of(b) == Some(s@),
{
    match f64_ts_parts(b) {
        None => None,
        Some((secs, nanos)) => utc_hm_text(secs, nanos),
    }
}

} // verus!

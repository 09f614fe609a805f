//! Verified text rendering of the numbers the encoders emit.
//!
//! Integers are rendered by verified decimal and hexadecimal
//! conversions.  A binary64 bit pattern is rendered either in the
//! shortest round-tripping decimal form (through a trusted call into
//! `serde_json`) or, for the text dump, with a sign and exactly three
//! decimal places, computed here from the bit pattern by exact integer
//! arithmetic.

use vstd::arithmetic::power2::*;
use vstd::prelude::*;
use vstd::string::StrSliceExecFns;
use vstd::string::StringExecFns;

use crate::fbits::F64_P52;
use crate::fbits::F64_SIGN;
use crate::fbits::fin_mant;
use crate::fbits::fin_pow;
use crate::fbits::pow2_u128;
use crate::fbits::f64_is_finite;
use crate::fbits::f64_is_nan;
use crate::fbits::is_finite_bits;
use crate::fbits::is_inf_bits;
use crate::fbits::is_nan_bits;
use crate::fbits::sign_bit;

verus! {

/// The decimal digit `d` as a character.
pub open spec fn digit_char(d: nat) -> char {
    if d == 0 {
        '0'
    } else if d == 1 {
        '1'
    } else if d == 2 {
        '2'
    } else if d == 3 {
        '3'
    } else if d == 4 {
        '4'
    } else if d == 5 {
        '5'
    } else if d == 6 {
        '6'
    } else if d == 7 {
        '7'
    } else if d == 8 {
        '8'
    } else {
        '9'
    }
}

/// The hexadecimal digit `d` as a lower-case character.
pub open spec fn hex_digit_char(d: nat) -> char {
    if d < 10 {
        digit_char(d)
    } else if d == 10 {
        'a'
    } else if d == 11 {
        'b'
    } else if d == 12 {
        'c'
    } else if d == 13 {
        'd'
    } else if d == 14 {
        'e'
    } else {
        'f'
    }
}

/// The usual decimal rendering of `n`, most significant digit first,
/// without leading zeros (except for `n == 0`).
pub open spec fn dec_of(n: nat) -> Seq<char>
    decreases n,
{
    if n < 10 {
        seq![digit_char(n)]
    } else {
        dec_of(n / 10).push(digit_char(n % 10))
    }
}

/// The hexadecimal rendering of `n` without leading zeros.
pub open spec fn hex_of(n: nat) -> Seq<char>
    decreases n,
{
    if n < 16 {
        seq![hex_digit_char(n)]
    } else {
        hex_of(n / 16).push(hex_digit_char(n % 16))
    }
}

/// `n` copies of the character `c`.
pub open spec fn repeat_char(c: char, n: nat) -> Seq<char>
    decreases n,
{
    if n == 0 {
        Seq::<char>::empty()
    } else {
        repeat_char(c, (n - 1) as nat).push(c)
    }
}

/// `s` left-padded with spaces to at least `w` characters.
pub open spec fn pad_left_of(s: Seq<char>, w: nat) -> Seq<char> {
    if s.len() >= w {
        s
    } else {
        repeat_char(' ', (w - s.len()) as nat) + s
    }
}

/// `hex_of(n)` left-padded with zeros to at least six digits.
pub open spec fn hex6_of(n: nat) -> Seq<char> {
    if hex_of(n).len() >= 6 {
        hex_of(n)
    } else {
        repeat_char('0', (6 - hex_of(n).len()) as nat) + hex_of(n)
    }
}

/// The single decimal digit `d` as a one-character string slice.
fn digit_str(d: u64) -> (r: &'static str)
    requires
        d < 10,
    ensures
        r@ =~= seq![digit_char(d as nat)],
{
    proof {
        reveal_strlit("0");
        reveal_strlit("1");
        reveal_strlit("2");
        reveal_strlit("3");
        reveal_strlit("4");
        reveal_strlit("5");
        reveal_strlit("6");
        reveal_strlit("7");
        reveal_strlit("8");
        reveal_strlit("9");
    }
    match d {
        0 => "0",
        1 => "1",
        2 => "2",
        3 => "3",
        4 => "4",
        5 => "5",
        6 => "6",
        7 => "7",
        8 => "8",
        _ => "9",
    }
}

/// The single hexadecimal digit `d` as a one-character string slice.
pub(crate) fn hex_digit_str(d: u64) -> (r: &'static str)
    requires
        d < 16,
    ensures
        r@ =~= seq![hex_digit_char(d as nat)],
{
    proof {
        reveal_strlit("a");
        reveal_strlit("b");
        reveal_strlit("c");
        reveal_strlit("d");
        reveal_strlit("e");
        reveal_strlit("f");
    }
    if d < 10 {
        digit_str(d)
    } else {
        match d {
            10 => "a",
            11 => "b",
            12 => "c",
            13 => "d",
            14 => "e",
            _ => "f",
        }
    }
}

/// Decimal rendering of `n`.
pub fn u64_dec(n: u64) -> (r: String)
    ensures
        r@ == dec_of(n as nat),
    decreases n,
{
    if n < 10 {
        digit_str(n).to_owned()
    } else {
        let mut s = u64_dec(n / 10);
        s.append(digit_str(n % 10));
        proof {
            assert(dec_of(n as nat) =~= dec_of((n / 10) as nat) + seq![
                digit_char((n % 10) as nat),
            ]);
        }
        s
    }
}

/// Decimal rendering of `n`, for indices and counts held as `usize`.
pub fn usize_dec(n: usize) -> (r: String)
    ensures
        r@ == dec_of(n as nat),
{
    u64_dec(n as u64)
}

/// Hexadecimal rendering of `n`, zero-padded to at least six digits.
pub fn u32_hex6(n: u32) -> (r: String)
    ensures
        r@ == hex6_of(n as nat),
{
    let mut s = hex_rec(n as u64);
    let len = s.as_str().unicode_len();
    let mut out = String::new();
    let mut i: usize = len;
    while i < 6
        invariant
            out@ =~= repeat_char('0', (i - len) as nat),
            len == s@.len(),
            s@ == hex_of(n as nat),
            len <= i <= 6 || i == len,
        decreases 6 - i,
    {
        out.append("0");
        proof {
            reveal_strlit("0");
            assert(out@ =~= repeat_char('0', (i + 1 - len) as nat));
        }
        i = i + 1;
    }
    out.append(s.as_str());
    proof {
        assert(out@ =~= hex6_of(n as nat));
    }
    out
}

/// Hexadecimal rendering of `n` without padding.
fn hex_rec(n: u64) -> (r: String)
    ensures
        r@ == hex_of(n as nat),
    decreases n,
{
    if n < 16 {
        hex_digit_str(n).to_owned()
    } else {
        let mut s = hex_rec(n / 16);
        s.append(hex_digit_str(n % 16));
        proof {
            assert(hex_of(n as nat) =~= hex_of((n / 16) as nat) + seq![
                hex_digit_char((n % 16) as nat),
            ]);
        }
        s
    }
}

/// `s` left-padded with spaces to at least `w` characters.
pub fn pad_left(s: String, w: usize) -> (r: String)
    ensures
        r@ == pad_left_of(s@, w as nat),
{
    let len = s.as_str().unicode_len();
    if len >= w {
        return s;
    }
    let mut out = String::new();
    let mut i: usize = len;
    while i < w
        invariant
            out@ =~= repeat_char(' ', (i - len) as nat),
            len == s@.len(),
            len < w,
            len <= i <= w,
        decreases w - i,
    {
        out.append(" ");
        proof {
            reveal_strlit(" ");
            assert(out@ =~= repeat_char(' ', (i + 1 - len) as nat));
        }
        i = i + 1;
    }
    out.append(s.as_str());
    proof {
        assert(out@ =~= pad_left_of(s@, w as nat));
    }
    out
}

/// The shortest decimal text that parses back to the finite value
/// encoded by `b`; what the feature-collection encoder writes for a
/// finite number.
pub uninterp spec fn json_num_of(b: u64) -> Seq<char>;

/// Relies on `serde_json::Number::from_f64` and the `Display` of
/// `serde_json::Number`: `from_f64` returns `Some` exactly for finite
/// values, and the displayed text is the crate's shortest
/// round-tripping decimal form, a function of the bit pattern alone.
/// `bytemuck::cast` moves the bit pattern to the encoded value
/// unchanged.
#[verifier::external_body]
fn finite_num_str(b: u64) -> (r: Option<String>)
    ensures
        r matches Some(s) ==> s@ == json_num_of(b),
        r is Some <==> is_finite_bits(b),
{
    match serde_json::Number::from_f64(bytemuck::cast(b)) {
        Some(n) => Some(n.to_string()),
        None => None,
    }
}

/// The text this library writes for the value encoded by `b` wherever
/// a free-form number is called for: the shortest round-tripping
/// decimal form for finite values, and `NaN`, `inf` or `-inf`
/// otherwise.
pub open spec fn num_text_of(b: u64) -> Seq<char> {
    if is_finite_bits(b) {
        json_num_of(b)
    } else if is_nan_bits(b) {
        "NaN"@
    } else if sign_bit(b) {
        "-inf"@
    } else {
        "inf"@
    }
}

/// Renders the value encoded by `b` as [`num_text_of`] states.
pub fn f64_text(b: u64) -> (r: String)
    ensures
        r@ == num_text_of(b),
{
    if f64_is_finite(b) {
        match finite_num_str(b) {
            Some(s) => s,
            None => String::new(),
        }
    } else if f64_is_nan(b) {
        "NaN".to_owned()
    } else if b >= F64_SIGN {
        "-inf".to_owned()
    } else {
        "inf".to_owned()
    }
}

/// Relies on `String::push`: it appends exactly the one character.
pub assume_specification[ String::push ](s: &mut String, c: char)
    ensures
        final(s)@ == old(s)@.push(c),
;

/// The magnitude of a finite value in thousandths, rounded to
/// nearest with ties to even, or `None` when it does not fit 63
/// bits.  The quotient, remainder and half-point are exact, so the
/// rounding is that of the encoded value itself.
pub open spec fn milli_of(b: u64) -> Option<nat>
    recommends
        is_finite_bits(b),
{
    let m = fin_mant(b) as nat * 1000;
    let k = fin_pow(b);
    if k >= 0 {
        if m * pow2(k as nat) < 0x8000_0000_0000_0000 {
            Some(m * pow2(k as nat))
        } else {
            None
        }
    } else {
        let j = (-k) as nat;
        let q = m / pow2(j);
        let r = m % pow2(j);
        let h = pow2((j - 1) as nat);
        if r > h || (r == h && q % 2 == 1) {
            Some(q + 1)
        } else {
            Some(q)
        }
    }
}

/// Exactly three decimal digits, zero-padded, of `n < 1000`.
pub open spec fn dec3_of(n: nat) -> Seq<char> {
    seq![digit_char(n / 100), digit_char((n / 10) % 10), digit_char(n % 10)]
}

/// The text dump's rendering of a value: a sign, the whole part, and
/// exactly three decimal places, rounded to nearest with ties to
/// even.  A NaN is `NaN`, an infinity is `+inf` or `-inf`, and a
/// magnitude beyond 63 bits of thousandths falls back to the
/// shortest decimal form.
pub open spec fn fixed3_of(b: u64) -> Seq<char> {
    if is_nan_bits(b) {
        "NaN"@
    } else if is_inf_bits(b) {
        if sign_bit(b) {
            "-inf"@
        } else {
            "+inf"@
        }
    } else {
        match milli_of(b) {
            Some(mu) => (if sign_bit(b) {
                "-"@
            } else {
                "+"@
            }) + dec_of(mu / 1000) + "."@ + dec3_of(mu % 1000),
            None => num_text_of(b),
        }
    }
}

/// Renders the value encoded by `b` as [`fixed3_of`] states.
#[verifier::rlimit(60)]
pub fn f64_fixed3(b: u64) -> (r: String)
    ensures
        r@ == fixed3_of(b),
{
    if f64_is_nan(b) {
        return "NaN".to_owned();
    }
    let neg = b >= F64_SIGN;
    if !f64_is_finite(b) {
        if neg {
            return "-inf".to_owned();
        } else {
            return "+inf".to_owned();
        }
    }
    let mag = if neg {
        b - F64_SIGN
    } else {
        b
    };
    let e = mag / F64_P52;
    let f = mag % F64_P52;
    let m: u64 = if e == 0 {
        f
    } else {
        f + F64_P52
    };
    let mm: u64 = m * 1000;
    proof {
        assert(m == fin_mant(b));
        assert(m < 0x20_0000_0000_0000);
        lemma2_to64();
        lemma2_to64_rest();
    }
    let milli: Option<u64> = if e >= 1075 {
        let k = e - 1075;
        if k >= 11 {
            proof {
                assert(pow2(11) <= pow2(k as nat)) by {
                    if k > 11 {
                        lemma_pow2_strictly_increases(11, k as nat);
                    }
                }
                assert(m >= 0x10_0000_0000_0000);
                assert(mm as nat * pow2(k as nat) >= 0x8000_0000_0000_0000) by (nonlinear_arith)
                    requires
                        mm >= 0x10_0000_0000_0000u64 * 1000,
                        pow2(k as nat) >= 0x800,
                ;
            }
            None
        } else {
            let p2k = pow2_u128(k);
            proof {
                assert(p2k <= 0x400) by {
                    if (k as nat) < 10 {
                        lemma_pow2_strictly_increases(k as nat, 10);
                    }
                }
                assert((mm as u128) * p2k < 0x8000_0000_0000_0000_0000u128) by (nonlinear_arith)
                    requires
                        mm < 0x8000_0000_0000_0000,
                        p2k <= 0x400,
                ;
            }
            let v = (mm as u128) * p2k;
            if v < 0x8000_0000_0000_0000u128 {
                Some(v as u64)
            } else {
                None
            }
        }
    } else {
        let j: u64 = if e == 0 {
            1074
        } else {
            1075 - e
        };
        proof {
            assert(fin_pow(b) == -(j as int));
        }
        if j >= 64 {
            proof {
                assert(mm < pow2(63));
                assert(pow2(63) <= pow2((j - 1) as nat)) by {
                    if (j - 1) as nat > 63 {
                        lemma_pow2_strictly_increases(63, (j - 1) as nat);
                    }
                }
                lemma_pow2_strictly_increases(63, j as nat);
                assert((mm as nat) / pow2(j as nat) == 0) by {
                    vstd::arithmetic::div_mod::lemma_basic_div(mm as int, pow2(j as nat) as int);
                }
                assert((mm as nat) % pow2(j as nat) == mm) by {
                    lemma_pow2_pos(j as nat);
                    vstd::arithmetic::div_mod::lemma_small_mod(mm as nat, pow2(j as nat));
                }
            }
            Some(0)
        } else {
            let d = pow2_u128(j);
            let h = pow2_u128(j - 1);
            let q = (mm as u128) / d;
            let rr = (mm as u128) % d;
            proof {
                assert(q <= mm) by (nonlinear_arith)
                    requires
                        d >= 1,
                        q == (mm as u128) as int / (d as int),
                ;
            }
            if rr > h || (rr == h && q % 2 == 1) {
                Some((q + 1) as u64)
            } else {
                Some(q as u64)
            }
        }
    };
    match milli {
        None => f64_text(b),
        Some(mu) => {
            let mut out = if neg {
                "-".to_owned()
            } else {
                "+".to_owned()
            };
            let whole = u64_dec(mu / 1000);
            out.append(whole.as_str());
            out.append(".");
            let fr = mu % 1000;
            out.append(digit_str(fr / 100));
            out.append(digit_str((fr / 10) % 10));
            out.append(digit_str(fr % 10));
            proof {
                assert(out@ =~= fixed3_of(b));
            }
            out
        },
    }
}

} // verus!

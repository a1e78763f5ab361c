//! Fixed-point decimals: the verified model of decimal-mode values.
//!
//! A decimal-mode value rounded to `p` fractional digits is carried as the
//! integer `k` with value `k / 10^p`. This module rounds such values to a
//! coarser precision (round half away from zero, as the generator's
//! rounding step does) and renders them as the decimal text that is
//! printed, with trailing fractional zeros trimmed.

use vstd::prelude::*;
use vstd::arithmetic::div_mod::lemma_div_is_strictly_smaller;
use vstd::arithmetic::div_mod::lemma_div_is_ordered_by_denominator;
use vstd::string::StringExecFns;

verus! {

/// Ten to the n-th power.
pub open spec fn pow10(n: nat) -> int
    decreases n,
{
    if n == 0 {
        1
    } else {
        10 * pow10((n - 1) as nat)
    }
}

pub proof fn lemma_pow10_pos(n: nat)
    ensures
        pow10(n) >= 1,
    decreases n,
{
    if n > 0 {
        lemma_pow10_pos((n - 1) as nat);
    }
}

pub proof fn lemma_pow10_mono(a: nat, b: nat)
    requires
        a <= b,
    ensures
        pow10(a) <= pow10(b),
    decreases b,
{
    if a < b {
        lemma_pow10_mono(a, (b - 1) as nat);
        lemma_pow10_pos((b - 1) as nat);
    }
}

/// Ten to the p-th power as a machine word.
pub fn pow10_u64(p: u32) -> (r: u64)
    requires
        p <= 19,
    ensures
        r == pow10(p as nat),
{
    let mut r: u64 = 1;
    let mut i: u32 = 0;
    while i < p
        invariant
            i <= p <= 19,
            r == pow10(i as nat),
        decreases p - i,
    {
        proof {
            lemma_pow10_mono((i + 1) as nat, 19);
            assert(pow10(19) == 10000000000000000000) by {
                reveal_with_fuel(pow10, 21);
            }
        }
        r = r * 10;
        i = i + 1;
    }
    r
}

/// The character of one decimal digit.
pub open spec fn digit_char(d: int) -> char {
    ((48 + d) as u8) as char
}

/// The decimal digits of a nonnegative integer, most significant first.
pub open spec fn digits_rec(n: int) -> Seq<char>
    decreases n,
{
    if n < 10 {
        seq![digit_char(n)]
    } else {
        digits_rec(n / 10).push(digit_char(n % 10))
    }
}

/// Exactly `p` decimal digits of a fraction numerator, zero-padded on the
/// left, most significant first.
pub open spec fn frac_digits(fr: int, p: nat) -> Seq<char>
    decreases p,
{
    if p == 0 {
        Seq::<char>::empty()
    } else {
        frac_digits(fr / 10, (p - 1) as nat).push(digit_char(fr % 10))
    }
}

/// Drop trailing zero digits of a fraction: the numerator and the digit
/// count shrink together until the last digit is significant.
pub open spec fn trim_frac(fr: int, p: nat) -> (int, nat)
    decreases p,
{
    if p > 0 && fr % 10 == 0 {
        trim_frac(fr / 10, (p - 1) as nat)
    } else {
        (fr, p)
    }
}

/// The printed text of the fixed-point value `k / 10^p`: an optional
/// minus sign, the integer part, and the trimmed fraction if any digit
/// of it is significant.
pub open spec fn fixed_decimal(k: int, p: nat) -> Seq<char> {
    let m = if k < 0 {
        -k
    } else {
        k
    };
    let d = pow10(p);
    let t = trim_frac(m % d, p);
    let sign = if k < 0 {
        seq!['-']
    } else {
        Seq::<char>::empty()
    };
    let frac = if t.1 > 0 {
        seq!['.'] + frac_digits(t.0, t.1)
    } else {
        Seq::<char>::empty()
    };
    sign + digits_rec(m / d) + frac
}

/// The one-character text of a decimal digit.
pub fn digit_str(d: u8) -> (s: &'static str)
    requires
        d <= 9,
    ensures
        s@ =~= seq![digit_char(d as int)],
{
    proof {
        reveal_strlit("0");
        reveal_strlit("1");
        reveal_strlit("2");
        reveal_strlit("3");
        reveal_strlit("4");
        reveal_strlit("5");
        reveal_strlit("6");
        reveal_strlit("7");
        reveal_strlit("8");
        reveal_strlit("9");
    }
    match d {
        0 => "0",
        1 => "1",
        2 => "2",
        3 => "3",
        4 => "4",
        5 => "5",
        6 => "6",
        7 => "7",
        8 => "8",
        _ => "9",
    }
}

/// The decimal text of a nonnegative integer.
pub fn digits_string(n: u64) -> (s: String)
    ensures
        s@ == digits_rec(n as int),
    decreases n,
{
    if n < 10 {
        let s = digit_str(n as u8).to_owned();
        proof {
            assert(s@ =~= digits_rec(n as int));
        }
        s
    } else {
        let q = n / 10;
        let r = (n % 10) as u8;
        proof {
            lemma_div_is_strictly_smaller(n as int, 10);
        }
        let mut s = digits_string(q);
        s.append(digit_str(r));
        proof {
            assert(s@ =~= digits_rec(n as int));
        }
        s
    }
}

/// The text of exactly `p` fraction digits, zero-padded on the left.
pub fn frac_string(fr: u64, p: u32) -> (s: String)
    ensures
        s@ == frac_digits(fr as int, p as nat),
    decreases p,
{
    if p == 0 {
        let s = String::new();
        proof {
            assert(s@ =~= frac_digits(fr as int, p as nat));
        }
        s
    } else {
        let mut s = frac_string(fr / 10, p - 1);
        s.append(digit_str((fr % 10) as u8));
        proof {
            assert(s@ =~= frac_digits(fr as int, p as nat));
        }
        s
    }
}

/// Render the fixed-point value `k / 10^p` as the decimal line that is
/// printed for it.
pub fn format_scaled(k: i64, p: u32) -> (s: String)
    requires
        p <= 9,
        k != i64::MIN,
    ensures
        s@ == fixed_decimal(k as int, p as nat),
{
    let m: u64 = if k < 0 {
        (-k) as u64
    } else {
        k as u64
    };
    proof {
        lemma_pow10_pos(p as nat);
    }
    let d = pow10_u64(p);
    let ip = m / d;
    let fr = m % d;
    let mut fr2 = fr;
    let mut p2 = p;
    while p2 > 0 && fr2 % 10 == 0
        invariant
            trim_frac(fr as int, p as nat) == trim_frac(fr2 as int, p2 as nat),
        decreases p2,
    {
        fr2 = fr2 / 10;
        p2 = p2 - 1;
    }
    let mut s = String::new();
    if k < 0 {
        proof {
            reveal_strlit("-");
        }
        s.append("-");
    }
    let ds = digits_string(ip);
    s.append(ds.as_str());
    if p2 > 0 {
        proof {
            reveal_strlit(".");
        }
        s.append(".");
        let fs = frac_string(fr2, p2);
        s.append(fs.as_str());
    }
    proof {
        assert(s@ =~= fixed_decimal(k as int, p as nat));
    }
    s
}

/// Round `v` at denominator `d` to the nearest integer, halves away
/// from zero.
pub open spec fn round_half_away(v: int, d: int) -> int
    recommends
        d >= 1,
{
    if v >= 0 {
        (v + d / 2) / d
    } else {
        -((-v + d / 2) / d)
    }
}

/// Round a fixed-point value carried at `from` fractional digits down to
/// `to` fractional digits, halves away from zero.
pub fn round_scaled(value: i64, from: u32, to: u32) -> (r: i64)
    requires
        to <= from,
        from - to <= 19,
        value != i64::MIN,
    ensures
        r == round_half_away(value as int, pow10((from - to) as nat)),
        to == from ==> r == value,
{
    let d = pow10_u64(from - to);
    if d == 1 {
        value
    } else {
        let m: u64 = if value < 0 {
            (-value) as u64
        } else {
            value as u64
        };
        let h = d / 2;
        proof {
            lemma_pow10_mono((from - to) as nat, 19);
            assert(pow10(19) == 10000000000000000000) by {
                reveal_with_fuel(pow10, 21);
            }
            assert(d >= 10) by {
                if from - to >= 1 {
                    lemma_pow10_mono(1nat, (from - to) as nat);
                    assert(pow10(1nat) == 10) by {
                        reveal_with_fuel(pow10, 2);
                    }
                }
            }
            lemma_div_is_ordered_by_denominator((m + h) as int, 10, d as int);
        }
        let q = (m + h) / d;
        let q64 = q as i64;
        if value < 0 {
            -q64
        } else {
            q64
        }
    }
}

/// Rounding law: a value that already carries the target precision is
/// left unchanged, so rounding a second time at the same precision never
/// moves a value (the divisor of a repeated rounding is one).
pub proof fn lemma_round_idempotent(v: int, d: int)
    requires
        d >= 1,
    ensures
        round_half_away(round_half_away(v, d), 1) == round_half_away(v, d),
{
}

} // verus!

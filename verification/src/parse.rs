//! Validation of the textual command-line arguments: a verified decimal
//! parser for signed 32-bit integers, and the two validators built on it.

use vstd::prelude::*;
use crate::GenError;

verus! {

/// An ASCII decimal digit.
pub open spec fn is_ascii_digit(b: u8) -> bool {
    48 <= b && b <= 57
}

/// Every byte of the sequence is an ASCII decimal digit.
pub open spec fn all_digits(s: Seq<u8>) -> bool {
    forall|i: int| 0 <= i < s.len() ==> is_ascii_digit(#[trigger] s[i])
}

/// The value of a sequence of ASCII digits read in base ten.
pub open spec fn digits_value(s: Seq<u8>) -> int
    decreases s.len(),
{
    if s.len() == 0 {
        0
    } else {
        digits_value(s.drop_last()) * 10 + (s.last() - 48)
    }
}

/// What parsing this text as a signed 32-bit integer yields, as a
/// mathematical value: an optional leading sign, then one or more decimal
/// digits and nothing else, and the signed value must fit in `i32`.
pub open spec fn parse_spec(s: Seq<u8>) -> Option<int> {
    let digs = if s.len() > 0 && (s[0] == 43 || s[0] == 45) {
        s.drop_first()
    } else {
        s
    };
    let neg = s.len() > 0 && s[0] == 45;
    if digs.len() == 0 || !all_digits(digs) {
        None
    } else {
        let v = if neg {
            -digits_value(digs)
        } else {
            digits_value(digs)
        };
        if v < -2147483648 || 2147483647 < v {
            None
        } else {
            Some(v)
        }
    }
}

/// Parse a signed decimal integer from bytes, exactly as `parse_spec` says.
pub fn parse_i32(s: &[u8]) -> (r: Option<i32>)
    ensures
        (match r {
            Some(v) => parse_spec(s@) == Some(v as int),
            None => parse_spec(s@) is None,
        }),
{
    let n = s.len();
    let mut i: usize = 0;
    let mut neg = false;
    if n > 0 && (s[0] == 43 || s[0] == 45) {
        neg = s[0] == 45;
        i = 1;
    }
    if i >= n {
        return None;
    }
    let ghost start = i as int;
    let ghost digs = s@.subrange(start, n as int);
    proof {
        if start == 1 {
            assert(digs =~= s@.drop_first());
        } else {
            assert(digs =~= s@);
        }
    }
    let mut acc: u64 = 0;
    while i < n
        invariant
            0 <= start <= i <= n,
            n == s@.len(),
            digs == s@.subrange(start, n as int),
            start == (if s@.len() > 0 && (s@[0] == 43 || s@[0] == 45) {
                1int
            } else {
                0int
            }),
            neg == (s@.len() > 0 && s@[0] == 45),
            digs == (if s@.len() > 0 && (s@[0] == 43 || s@[0] == 45) {
                s@.drop_first()
            } else {
                s@
            }),
            all_digits(s@.subrange(start, i as int)),
            (acc <= 4294967295u64 && acc == digits_value(s@.subrange(start, i as int)))
                || (digits_value(s@.subrange(start, i as int)) > 4294967295 && acc
                == 4294967296u64),
        decreases n - i,
    {
        let b = s[i];
        if b < 48 || b > 57 {
            proof {
                assert(digs[i - start] == s@[i as int]);
                assert(!all_digits(digs));
            }
            return None;
        }
        let d = (b - 48) as u64;
        proof {
            let ghost pre = s@.subrange(start, i as int);
            let ghost ext = s@.subrange(start, i + 1);
            assert(ext.drop_last() =~= pre);
            assert(ext.last() == s@[i as int]);
            assert(digits_value(ext) == digits_value(pre) * 10 + (b - 48));
            assert forall|k: int| 0 <= k < ext.len() implies is_ascii_digit(#[trigger] ext[k]) by {
                if k < i - start {
                    assert(ext[k] == pre[k]);
                } else {
                    assert(ext[k] == s@[i as int]);
                }
            }
        }
        let nacc = acc * 10 + d;
        acc = if nacc > 4294967295 {
            4294967296
        } else {
            nacc
        };
        i += 1;
    }
    proof {
        assert(s@.subrange(start, i as int) =~= digs);
    }
    if neg {
        if acc > 2147483648 {
            None
        } else {
            let v = (-(acc as i64)) as i32;
            proof {
                assert(-2147483648 <= -(acc as int) <= 0);
            }
            Some(v)
        }
    } else {
        if acc > 2147483647 {
            None
        } else {
            Some(acc as i32)
        }
    }
}

/// Validate the count argument: any text that is not a signed integer is
/// rejected as `InvalidCount`.
pub fn parse_count(s: &[u8]) -> (r: Result<i32, GenError>)
    ensures
        (match r {
            Ok(v) => parse_spec(s@) == Some(v as int),
            Err(e) => e is InvalidCount && parse_spec(s@) is None,
        }),
{
    match parse_i32(s) {
        Some(v) => Ok(v),
        None => Err(GenError::InvalidCount),
    }
}

/// Validate the two bound arguments of integer mode: both must be signed
/// integers, else the run fails with `InvalidRange`.
pub fn parse_int_bounds(low: &[u8], high: &[u8]) -> (r: Result<(i32, i32), GenError>)
    ensures
        (match r {
            Ok(b) => parse_spec(low@) == Some(b.0 as int) && parse_spec(high@) == Some(
                b.1 as int,
            ),
            Err(e) => e is InvalidRange && (parse_spec(low@) is None || parse_spec(high@)
                is None),
        }),
{
    let l = parse_i32(low);
    let h = parse_i32(high);
    match (l, h) {
        (Some(a), Some(b)) => Ok((a, b)),
        _ => Err(GenError::InvalidRange),
    }
}

} // verus!

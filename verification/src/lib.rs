//! Verified core of a command-line random-value generator.
//!
//! Given low/high bounds the tool emits one or more uniformly drawn
//! integers, or fixed-point decimals, optionally distinct within one run.
//! Everything that decides or computes lives here; the thin binary around
//! this library only reads arguments, draws floating-point values and
//! prints lines.

use vstd::prelude::*;

pub mod accum;
pub mod fixed;
pub mod intgen;
pub mod parse;

verus! {

/// No two elements of the sequence are equal.
pub open spec fn pairwise_distinct<T>(s: Seq<T>) -> bool {
    forall|i: int, j: int| 0 <= i < j < s.len() ==> s[i] != s[j]
}

/// A sequence and a pushed element contain exactly the old elements and
/// the new one.
pub proof fn lemma_push_contains<T>(s: Seq<T>, v: T, x: T)
    ensures
        s.push(v).contains(x) <==> s.contains(x) || x == v,
{
    if s.push(v).contains(x) {
        let i = choose|i: int| 0 <= i < s.push(v).len() && s.push(v)[i] == x;
        if i < s.len() {
            assert(s[i] == x);
        }
    }
    if s.contains(x) {
        let i = choose|i: int| 0 <= i < s.len() && s[i] == x;
        assert(s.push(v)[i] == x);
    }
    if x == v {
        assert(s.push(v)[s.len() as int] == x);
    }
}

/// The ways one invocation can fail, as reported on the error stream.
#[derive(Debug, Clone, Copy, PartialEq, Eq)]
pub enum GenError {
    /// The count argument did not parse as a signed integer.
    InvalidCount,
    /// A bound argument did not parse as the numeric type of the mode.
    InvalidRange,
    /// Distinct values were requested but the range holds too few of them.
    UnsatisfiableUniqueness,
}

impl GenError {
    /// The one diagnostic line printed for this error; the wording of the
    /// range diagnostic depends on whether the run is in decimal mode.
    pub fn diagnostic(&self, decimal_mode: bool) -> (s: String)
        ensures
            (match self {
                GenError::InvalidCount => s@ == "Count must be an integer!"@,
                GenError::InvalidRange => if decimal_mode {
                    s@ == "Both ranges must be numbers!"@
                } else {
                    s@ == "Both ranges must be integers!"@
                },
                GenError::UnsatisfiableUniqueness => s@
                    == "Count must not be over the total possible values!"@,
            }),
    {
        match self {
            GenError::InvalidCount => "Count must be an integer!".to_owned(),
            GenError::InvalidRange => if decimal_mode {
                "Both ranges must be numbers!".to_owned()
            } else {
                "Both ranges must be integers!".to_owned()
            },
            GenError::UnsatisfiableUniqueness => "Count must not be over the total possible values!".to_owned(),
        }
    }
}

} // verus!

//! Shared league data model: seasons and win/loss/overtime-loss records as
//! the league reports them.

use vstd::prelude::*;
use crate::decimal::spec_pow10;

verus! {

/// A decimal digit.
pub open spec fn spec_is_digit(c: char) -> bool {
    '0' <= c && c <= '9'
}

/// The value of a decimal digit.
pub open spec fn spec_digit_value(c: char) -> nat {
    (c as u32 - 48) as nat
}

/// The number a sequence of decimal digits denotes, most significant digit
/// first.
pub open spec fn spec_number(s: Seq<char>) -> nat
    decreases s.len(),
{
    if s.len() == 0 {
        0
    } else {
        spec_number(s.drop_last()) * 10 + spec_digit_value(s.last())
    }
}

/// A digit sequence of length `n` denotes a number below `10^n`.
pub proof fn lemma_number_bound(s: Seq<char>)
    requires
        forall|i: int| 0 <= i < s.len() ==> spec_is_digit(#[trigger] s[i]),
    ensures
        spec_number(s) < spec_pow10(s.len() as nat),
    decreases s.len(),
{
    if s.len() > 0 {
        lemma_number_bound(s.drop_last());
        assert(spec_is_digit(s.last()));
        assert(spec_digit_value(s.last()) <= 9);
    }
}

/// A season spans two calendar years; the league codes it as the eight digits
/// of both years back to back.
#[derive(Debug, Clone, Copy, PartialEq, Eq, Structural)]
pub struct Season {
    pub begin: u32,
    pub end: u32,
}

impl Season {
    /// Reads an eight-digit season code: the first four digits are the year
    /// the season begins in, the last four the year it ends in.  Anything
    /// else is rejected.
    pub fn parse(s: &str) -> (r: Option<Season>)
        ensures
            ({
                let ok = s@.len() == 8 && (forall|i: int|
                    0 <= i < 8 ==> spec_is_digit(#[trigger] s@[i]));
                match r {
                    Some(season) => ok && season.begin == spec_number(s@.subrange(0, 4))
                        && season.end == spec_number(s@.subrange(4, 8)),
                    None => !ok,
                }
            }),
    {
        let len = s.unicode_len();
        if len != 8 {
            return None;
        }
        let mut begin: u32 = 0;
        let mut end: u32 = 0;
        for i in 0..8usize
            invariant
                s@.len() == 8,
                forall|k: int| 0 <= k < i ==> spec_is_digit(#[trigger] s@[k]),
                begin == spec_number(s@.subrange(0, if i <= 4 { i as int } else { 4 })),
                end == spec_number(s@.subrange(4, if i >= 4 { i as int } else { 4 })),
                begin < spec_pow10(if i <= 4 { i as nat } else { 4 }),
                end < spec_pow10(if i >= 4 { (i - 4) as nat } else { 0 }),
        {
            let c = s.get_char(i);
            if !('0' <= c && c <= '9') {
                return None;
            }
            let d = c as u32 - 48;
            proof {
                assert(spec_pow10(0) == 1);
                assert(spec_pow10(1) == 10);
                assert(spec_pow10(2) == 100);
                assert(spec_pow10(3) == 1000);
                assert(spec_pow10(4) == 10000);
            }
            if i < 4 {
                proof {
                    assert(s@.subrange(0, i + 1).drop_last() =~= s@.subrange(0, i as int));
                    assert(spec_pow10((i + 1) as nat) == 10 * spec_pow10(i as nat));
                    assert(s@.subrange(4, 4) =~= s@.subrange(4, 4));
                }
                begin = begin * 10 + d;
            } else {
                proof {
                    assert(s@.subrange(4, i + 1).drop_last() =~= s@.subrange(4, i as int));
                    assert(spec_pow10((i - 4 + 1) as nat) == 10 * spec_pow10((i - 4) as nat));
                }
                end = end * 10 + d;
            }
        }
        Some(Season { begin, end })
    }
}

/// One team's tally of wins, losses, and overtime losses.
#[derive(Debug, Clone, Copy, PartialEq, Eq, Structural)]
pub struct LeagueRecord {
    pub wins: u32,
    pub losses: u32,
    pub ot: u32,
}

} // verus!

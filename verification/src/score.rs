//! The series score parser: reads a `"X - Y"` score string into the total
//! number of completed games, treating the forfeit sentinel `FF` as zero
//! games.

use vstd::prelude::*;
use crate::text::{
    chars_of, contains_seq, find_from, int_operand_ok, int_operand_val, is_space_char, occurs_at,
    parse_i32_chars, trim_chars, trim_spec,
};

verus! {

/// A score string that does not have the expected `"X - Y"` shape.
#[derive(Debug, Clone, Copy, PartialEq, Eq, Structural)]
pub struct FormatError;

pub open spec fn sep_seq() -> Seq<char> {
    seq![' ', '-', ' ']
}

/// `s` holds exactly one `" - "` separator, in the sense of `str::split`
/// yielding exactly two parts: a first occurrence exists and no further
/// occurrence follows it.
pub open spec fn sep_split_at(s: Seq<char>, i: int) -> bool {
    occurs_at(s, sep_seq(), i) && (forall|j: int| 0 <= j < i ==> !occurs_at(s, sep_seq(), j))
        && (forall|j: int| j >= i + 3 ==> !occurs_at(s, sep_seq(), j))
}

/// The trimmed operand is the forfeit sentinel `"FF"`.
pub open spec fn is_ff(t: Seq<char>) -> bool {
    t.len() == 2 && t[0] == 'F' && t[1] == 'F'
}

pub open spec fn operand_ok(t: Seq<char>) -> bool {
    is_ff(t) || int_operand_ok(t)
}

/// A valid score string: exactly one `" - "` separator, and each side,
/// trimmed of white space, either the forfeit sentinel or an integer.
pub open spec fn valid_score(s: Seq<char>) -> bool {
    exists|i: int|
        #[trigger] sep_split_at(s, i) && operand_ok(trim_spec(s.take(i))) && operand_ok(
            trim_spec(s.skip(i + 3)),
        )
}

/// The game count of a valid score string: zero when either side
/// forfeited, else the sum of the two operands.
pub open spec fn score_value(s: Seq<char>) -> int {
    let i = choose|i: int| sep_split_at(s, i);
    let x = trim_spec(s.take(i));
    let y = trim_spec(s.skip(i + 3));
    if is_ff(x) || is_ff(y) {
        0
    } else {
        int_operand_val(x) + int_operand_val(y)
    }
}

proof fn lemma_sep_split_unique(s: Seq<char>, i: int, j: int)
    requires
        sep_split_at(s, i),
        sep_split_at(s, j),
    ensures
        i == j,
{
    if i < j {
        assert(!occurs_at(s, sep_seq(), i));
    } else if j < i {
        assert(!occurs_at(s, sep_seq(), j));
    }
}

fn operand_is_ff(t: &Vec<char>) -> (b: bool)
    ensures
        b == is_ff(t@),
{
    t.len() == 2 && t[0] == 'F' && t[1] == 'F'
}

/// Parses a series score of the form `"X - Y"`.
///
/// Returns the total completed-game count: the sum of the two operands, or
/// zero when either operand is the forfeit sentinel `"FF"`.  Fails with a
/// [`FormatError`] when the string does not hold exactly one `" - "`
/// separator or a non-forfeit operand is not an integer.
pub fn parse_score(score: &str) -> (r: Result<i64, FormatError>)
    ensures
        valid_score(score@) ==> r == Ok::<i64, FormatError>(score_value(score@) as i64),
        !valid_score(score@) ==> r == Err::<i64, FormatError>(FormatError),
{
    let v = chars_of(score);
    let mut sep: Vec<char> = Vec::new();
    sep.push(' ');
    sep.push('-');
    sep.push(' ');
    proof {
        assert(sep@ =~= sep_seq());
    }
    let first = find_from(&v, &sep, 0);
    let i = match first {
        Some(i) => i,
        None => {
            proof {
                assert(forall|j: int| j >= 0 ==> !occurs_at(v@, sep_seq(), j));
                assert forall|j: int| !#[trigger] sep_split_at(v@, j) by {
                    assert(!occurs_at(v@, sep_seq(), j) || j < 0);
                    assert(!occurs_at(v@, sep_seq(), j));
                }
                assert(!valid_score(score@));
            }
            return Err(FormatError);
        },
    };
    let later = find_from(&v, &sep, i + 3);
    if let Some(j) = later {
        proof {
            assert forall|k: int| !#[trigger] sep_split_at(v@, k) by {
                if sep_split_at(v@, k) {
                    if k < i {
                        assert(!occurs_at(v@, sep_seq(), k));
                    } else if k > i {
                        assert(!occurs_at(v@, sep_seq(), i as int));
                    } else {
                        assert(!occurs_at(v@, sep_seq(), j as int));
                    }
                }
            }
            assert(!valid_score(score@));
        }
        return Err(FormatError);
    }
    proof {
        assert(sep_split_at(v@, i as int));
    }
    let mut left: Vec<char> = Vec::new();
    let mut k: usize = 0;
    while k < i
        invariant
            k <= i <= v.len(),
            left@ == v@.take(i as int).take(k as int),
        decreases i - k,
    {
        left.push(v[k]);
        proof {
            assert(v@.take(i as int).take(k as int).push(v@[k as int]) =~= v@.take(i as int).take(
                k as int + 1,
            ));
        }
        k += 1;
    }
    proof {
        assert(left@ =~= v@.take(i as int));
    }
    let mut right: Vec<char> = Vec::new();
    let mut k2: usize = i + 3;
    while k2 < v.len()
        invariant
            i + 3 <= k2 <= v.len(),
            right@ == v@.skip(i as int + 3).take(k2 - (i + 3)),
        decreases v.len() - k2,
    {
        right.push(v[k2]);
        proof {
            assert(v@.skip(i as int + 3).take(k2 - (i + 3)).push(v@[k2 as int]) =~= v@.skip(
                i as int + 3,
            ).take(k2 + 1 - (i + 3)));
        }
        k2 += 1;
    }
    proof {
        assert(right@ =~= v@.skip(i as int + 3));
    }
    let x = trim_chars(&left);
    let y = trim_chars(&right);
    let x_ff = operand_is_ff(&x);
    let y_ff = operand_is_ff(&y);
    let ghost gi = choose|gi: int| sep_split_at(v@, gi);
    proof {
        lemma_sep_split_unique(v@, gi, i as int);
    }
    if x_ff && y_ff {
        return Ok(0);
    }
    if x_ff {
        return match parse_i32_chars(&y) {
            Some(_) => Ok(0),
            None => Err(FormatError),
        };
    }
    if y_ff {
        return match parse_i32_chars(&x) {
            Some(_) => Ok(0),
            None => Err(FormatError),
        };
    }
    let xv = match parse_i32_chars(&x) {
        Some(n) => n,
        None => {
            return Err(FormatError);
        },
    };
    let yv = match parse_i32_chars(&y) {
        Some(n) => n,
        None => {
            return Err(FormatError);
        },
    };
    Ok(xv + yv)
}

} // verus!

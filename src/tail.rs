//! `tail`: which line or byte output starts at, and the parser of the count
//! that selects it.
use vstd::prelude::*;
use crate::lines::{line_count, skip_lines, count_lines, line_offset};
use crate::text::{literal_in, parse_i64, chars_of};

verus! {

/// How much of a stream `tail` prints.
#[derive(Clone, Copy, Debug, PartialEq, Eq, Structural)]
pub enum TakeValue {
    /// Everything, from the first unit on (written `+0`).
    PlusZero,
    /// From unit `n` on (1-based) where `n > 0`; the last `-n` units where
    /// `n < 0`; nothing where `n == 0`.
    TakeNum(i64),
}

/// What a count token means: `+0` is everything; a token with a leading `+`
/// keeps its value; a bare positive number counts from the end.
pub open spec fn take_value_of(s: Seq<char>) -> Option<TakeValue> {
    if s =~= seq!['+', '0'] {
        Some(TakeValue::PlusZero)
    } else {
        match literal_in(s, true, i64::MIN as int, i64::MAX as int) {
            Some(v) => if s[0] == '+' || v <= 0 {
                Some(TakeValue::TakeNum(v as i64))
            } else {
                Some(TakeValue::TakeNum((-v) as i64))
            },
            None => None,
        }
    }
}

/// The 0-based index of the first unit to print out of `total`, or `None`
/// where nothing is printed.
pub open spec fn start_index(take: TakeValue, total: int) -> Option<int> {
    if total <= 0 {
        None
    } else {
        match take {
            TakeValue::PlusZero => Some(0),
            TakeValue::TakeNum(v) => if v < 0 {
                Some(if total + v > 0 {
                    total + v
                } else {
                    0
                })
            } else if v == 0 || v - 1 >= total {
                None
            } else {
                Some(v - 1)
            },
        }
    }
}

/// Parses a line or byte count; the error is the token itself.
pub fn parse_num(value: &str) -> (r: Result<TakeValue, String>)
    ensures
        match r {
            Ok(t) => take_value_of(value@) == Some(t),
            Err(e) => take_value_of(value@) is None && e@ == value@,
        },
{
    let cs = chars_of(value);
    if cs.len() == 2 && cs[0] == '+' && cs[1] == '0' {
        assert(value@ =~= seq!['+', '0']);
        return Ok(TakeValue::PlusZero);
    }
    assert(!(value@ =~= seq!['+', '0']));
    match parse_i64(value) {
        Some(v) => {
            if cs[0] == '+' || v <= 0 {
                Ok(TakeValue::TakeNum(v))
            } else {
                Ok(TakeValue::TakeNum(-v))
            }
        },
        None => Err(String::from_str(value)),
    }
}

/// The 0-based index of the first line or byte to print, out of `total`.
pub fn get_start_index(take_val: TakeValue, total: i64) -> (r: Option<u64>)
    ensures
        match start_index(take_val, total as int) {
            Some(s) => r == Some(s as u64) && 0 <= s < total,
            None => r is None,
        },
        total <= 0 ==> r is None,
        total > 0 ==> (take_val == TakeValue::PlusZero ==> r == Some(0u64)),
        total > 0 ==> (take_val == TakeValue::TakeNum(0) ==> r is None),
{
    if total <= 0 {
        return None;
    }
    match take_val {
        TakeValue::PlusZero => Some(0),
        TakeValue::TakeNum(v) => {
            if v < 0 {
                if total + v > 0 {
                    Some((total + v) as u64)
                } else {
                    Some(0)
                }
            } else if v == 0 || v - 1 >= total {
                None
            } else {
                Some((v - 1) as u64)
            }
        },
    }
}

/// The byte offset of `b` from which `tail` prints the lines that `take`
/// selects: the length of `b` where it prints none.
pub fn lines_start(b: &[u8], take: TakeValue) -> (r: usize)
    requires
        b.len() <= i64::MAX,
    ensures
        r == match start_index(take, line_count(b@) as int) {
            Some(s) => skip_lines(b@, s as nat),
            None => b.len() as nat,
        },
        r <= b.len(),
        b.len() == 0 ==> r == 0,
{
    let total = count_lines(b);
    proof {
        assert(line_count(b@) <= b.len()) by {
            crate::lines::lemma_line_count_bound(b@);
        }
    }
    match get_start_index(take, total as i64) {
        Some(s) => line_offset(b, s),
        None => b.len(),
    }
}

} // verus!

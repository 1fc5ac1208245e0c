//! `cat`: which number, if any, goes before each line.
use vstd::prelude::*;

verus! {

/// How many of the first `n` lines are not blank.
pub open spec fn nonblank_count(blank: Seq<bool>, n: int) -> nat
    decreases n,
{
    if n <= 0 {
        0
    } else {
        nonblank_count(blank, n - 1) + if blank[n - 1] {
            0nat
        } else {
            1nat
        }
    }
}

/// The number shown before line `i`: its 1-based position when all lines are
/// numbered, its position among the non-blank lines when only those are, and
/// none otherwise.
pub open spec fn line_number(blank: Seq<bool>, i: int, number_lines: bool, number_nonblank: bool) -> Option<int> {
    if number_lines {
        Some(i + 1)
    } else if number_nonblank && !blank[i] {
        Some(nonblank_count(blank, i + 1) as int)
    } else {
        None
    }
}

/// The number to show before each line, given which lines are blank.
pub fn line_numbers(blank: &[bool], number_lines: bool, number_nonblank: bool) -> (r: Vec<Option<usize>>)
    ensures
        r@.len() == blank@.len(),
        forall|i: int|
            0 <= i < r@.len() ==> (#[trigger] r@[i] matches Some(n) && line_number(
                blank@,
                i,
                number_lines,
                number_nonblank,
            ) == Some(n as int)) || (r@[i] is None && line_number(
                blank@,
                i,
                number_lines,
                number_nonblank,
            ) is None),
{
    let mut out: Vec<Option<usize>> = Vec::new();
    let mut seen: usize = 0;
    let mut i: usize = 0;
    while i < blank.len()
        invariant
            i <= blank.len(),
            out@.len() == i,
            seen == nonblank_count(blank@, i as int),
            seen <= i,
            forall|j: int|
                0 <= j < i ==> (#[trigger] out@[j] matches Some(n) && line_number(
                    blank@,
                    j,
                    number_lines,
                    number_nonblank,
                ) == Some(n as int)) || (out@[j] is None && line_number(
                    blank@,
                    j,
                    number_lines,
                    number_nonblank,
                ) is None),
        decreases blank.len() - i,
    {
        if !blank[i] {
            seen = seen + 1;
        }
        let n = if number_lines {
            Some(i + 1)
        } else if number_nonblank && !blank[i] {
            Some(seen)
        } else {
            None
        };
        out.push(n);
        i = i + 1;
    }
    out
}

} // verus!

//! `grep`: keeping the lines that match, or those that do not.
use vstd::prelude::*;
use regex::Regex;
use crate::text::string_views;

verus! {

/// regex's compiled pattern, which the library only hands to `is_match`.
#[verifier::external_type_specification]
#[verifier::external_body]
pub struct ExRegex(Regex);

/// Relies on `Regex::is_match`: whether the pattern matches somewhere in
/// `text`. Nothing is stated of the answer.
#[verifier::external_body]
pub(crate) fn is_match(pattern: &Regex, text: &str) -> bool {
    pattern.is_match(text)
}

/// The lines `i` among the first `n` with `matched[i] != invert`, in order.
pub open spec fn kept(lines: Seq<Seq<char>>, matched: Seq<bool>, invert: bool, n: int) -> Seq<Seq<char>>
    decreases n,
{
    if n <= 0 {
        Seq::empty()
    } else {
        let before = kept(lines, matched, invert, n - 1);
        if matched[n - 1] != invert {
            before.push(lines[n - 1])
        } else {
            before
        }
    }
}

/// The lines whose match flag differs from `invert`, in order.
pub fn select_lines(lines: &[String], matched: &[bool], invert: bool) -> (r: Vec<String>)
    requires
        matched@.len() == lines@.len(),
    ensures
        string_views(r@) == kept(string_views(lines@), matched@, invert, lines@.len() as int),
{
    let ghost ls = string_views(lines@);
    let mut out: Vec<String> = Vec::new();
    let mut i: usize = 0;
    while i < lines.len()
        invariant
            i <= lines.len(),
            matched@.len() == lines@.len(),
            ls == string_views(lines@),
            string_views(out@) == kept(ls, matched@, invert, i as int),
        decreases lines.len() - i,
    {
        if matched[i] != invert {
            let ghost before = out@;
            out.push(lines[i].clone());
            assert(string_views(out@) =~= string_views(before).push(ls[i as int]));
        }
        i = i + 1;
    }
    out
}

/// The lines that `pattern` matches, or, with `invert_match`, those it does
/// not match, in order.
pub fn find_lines(lines: &[String], pattern: &Regex, invert_match: bool) -> (r: Vec<String>)
    ensures
        exists|m: Seq<bool>|
            m.len() == lines@.len() && string_views(r@) == #[trigger] kept(
                string_views(lines@),
                m,
                invert_match,
                lines@.len() as int,
            ),
{
    let mut matched: Vec<bool> = Vec::new();
    let mut i: usize = 0;
    while i < lines.len()
        invariant
            i <= lines.len(),
            matched@.len() == i,
        decreases lines.len() - i,
    {
        matched.push(is_match(pattern, lines[i].as_str()));
        i = i + 1;
    }
    select_lines(lines, matched.as_slice(), invert_match)
}

} // verus!

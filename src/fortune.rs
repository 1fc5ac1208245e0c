//! `fortune`: splitting a fortune file into its fortunes.
use vstd::prelude::*;
use crate::text::{chars_of, string_views};
use rand::seq::SliceRandom;
use rand::SeedableRng;

verus! {

/// What `str::trim_end` makes of `s`.
pub uninterp spec fn trim_end_of(s: Seq<char>) -> Seq<char>;

/// Relies on `str::trim_end`: the result depends on the characters alone.
#[verifier::external_body]
fn trim_end(s: &str) -> (r: String)
    ensures
        r@ == trim_end_of(s@),
{
    s.trim_end().to_string()
}

/// A line that ends a fortune: `%`, with trailing whitespace.
pub open spec fn is_separator(line: Seq<char>) -> bool {
    trim_end_of(line) == seq!['%']
}

/// The index of the first separator line at or after `pos`, or the number of
/// lines where there is none.
pub open spec fn next_separator(lines: Seq<Seq<char>>, pos: int) -> int
    decreases lines.len() - pos,
{
    if pos >= lines.len() {
        lines.len() as int
    } else if is_separator(lines[pos]) {
        pos
    } else {
        next_separator(lines, pos + 1)
    }
}

/// The lines `lo..hi`, one after another.
pub open spec fn joined(lines: Seq<Seq<char>>, lo: int, hi: int) -> Seq<char>
    decreases hi - lo,
{
    if hi <= lo {
        Seq::empty()
    } else {
        joined(lines, lo, hi - 1) + lines[hi - 1]
    }
}

/// Reads the fortune that starts at line `pos` of `lines` (each line as
/// `read_line` gives it, ending in its newline): the lines up to the next
/// separator, trailing whitespace trimmed. Returns it, or `None` at the end of
/// the input, and the index of the line after it.
pub fn read_next_fortune(lines: &[String], pos: usize) -> (r: (Option<String>, usize))
    requires
        pos <= lines.len(),
    ensures
        ({
            let ls = string_views(lines@);
            let k = next_separator(ls, pos as int);
            let text = joined(ls, pos as int, k);
            if k == ls.len() {
                r.1 == ls.len() && (if text.len() == 0 {
                    r.0 is None
                } else {
                    r.0 matches Some(f) && f@ == trim_end_of(text)
                })
            } else {
                r.1 == k + 1 && (r.0 matches Some(f) && f@ == trim_end_of(text))
            }
        }),
{
    let ghost ls = string_views(lines@);
    let mut fortune = String::new();
    let mut i: usize = pos;
    while i < lines.len()
        invariant
            pos <= i <= lines.len(),
            ls == string_views(lines@),
            next_separator(ls, pos as int) == next_separator(ls, i as int),
            fortune@ == joined(ls, pos as int, i as int),
        decreases lines.len() - i,
    {
        let t = trim_end(lines[i].as_str());
        let tc = chars_of(t.as_str());
        if tc.len() == 1 && tc[0] == '%' {
            assert(tc@ =~= seq!['%']);
            assert(is_separator(ls[i as int]));
            return (Some(trim_end(fortune.as_str())), i + 1);
        }
        assert(!(tc@ =~= seq!['%']) ==> tc@ != seq!['%']);
        assert(!is_separator(ls[i as int]));
        fortune.append(lines[i].as_str());
        i = i + 1;
    }
    if chars_of(fortune.as_str()).len() == 0 {
        (None, i)
    } else {
        (Some(trim_end(fortune.as_str())), i)
    }
}

/// A fortune and the name of the file it came from.
#[derive(Debug)]
pub struct Fortune {
    pub source: String,
    pub text: String,
}

/// Relies on `SliceRandom::choose` with a `StdRng` made by `seed_from_u64`:
/// `None` for an empty slice, else one of its items.
#[verifier::external_body]
fn choose_seeded(texts: &[String], seed: u64) -> (r: Option<String>)
    ensures
        texts@.len() == 0 <==> r is None,
        r matches Some(t) ==> exists|i: int| 0 <= i < texts@.len() && (#[trigger] texts@[i])@ == t@,
{
    let mut prng = rand::rngs::StdRng::seed_from_u64(seed);
    texts.choose(&mut prng).cloned()
}

/// Relies on `SliceRandom::choose` with `thread_rng`: `None` for an empty
/// slice, else one of its items.
#[verifier::external_body]
fn choose_any(texts: &[String]) -> (r: Option<String>)
    ensures
        texts@.len() == 0 <==> r is None,
        r matches Some(t) ==> exists|i: int| 0 <= i < texts@.len() && (#[trigger] texts@[i])@ == t@,
{
    let mut prng = rand::thread_rng();
    texts.choose(&mut prng).cloned()
}

/// The text of one of the fortunes, picked at random (reproducibly, given a
/// seed), or `None` where there are none.
pub fn pick_fortune(fortunes: &[Fortune], seed: Option<u64>) -> (r: Option<String>)
    ensures
        fortunes@.len() == 0 <==> r is None,
        r matches Some(t) ==> exists|i: int|
            0 <= i < fortunes@.len() && (#[trigger] fortunes@[i]).text@ == t@,
{
    let mut texts: Vec<String> = Vec::new();
    let mut i: usize = 0;
    while i < fortunes.len()
        invariant
            i <= fortunes.len(),
            texts@.len() == i,
            forall|j: int| 0 <= j < i ==> (#[trigger] texts@[j])@ == fortunes@[j].text@,
        decreases fortunes.len() - i,
    {
        texts.push(fortunes[i].text.clone());
        i = i + 1;
    }
    let r = match seed {
        Some(s) => choose_seeded(texts.as_slice(), s),
        None => choose_any(texts.as_slice()),
    };
    proof {
        if r is Some {
            let t = r->Some_0;
            let i = choose|i: int| 0 <= i < texts@.len() && (#[trigger] texts@[i])@ == t@;
            assert(fortunes@[i].text@ == t@);
        }
    }
    r
}

pub proof fn lemma_next_separator_bound(lines: Seq<Seq<char>>, pos: int)
    requires
        0 <= pos,
    ensures
        pos <= next_separator(lines, pos) <= lines.len() || (pos > lines.len() && next_separator(
            lines,
            pos,
        ) == lines.len()),
    decreases lines.len() - pos,
{
    if pos < lines.len() && !is_separator(lines[pos]) {
        lemma_next_separator_bound(lines, pos + 1);
    }
}

/// The non-empty fortunes of the lines from `pos` on, in order.
pub open spec fn fortunes_from(lines: Seq<Seq<char>>, pos: int) -> Seq<Seq<char>>
    decreases lines.len() - pos,
{
    if pos < 0 || pos >= lines.len() {
        Seq::empty()
    } else {
        let k = next_separator(lines, pos);
        let text = joined(lines, pos, k);
        let this = if (k < lines.len() || text.len() > 0) && trim_end_of(text).len() > 0 {
            seq![trim_end_of(text)]
        } else {
            Seq::empty()
        };
        if pos < k + 1 && k < lines.len() {
            this + fortunes_from(lines, k + 1)
        } else {
            this
        }
    }
}

/// The non-empty fortunes of a file's lines, each with the file's name.
pub fn fortunes_of(lines: &[String], source: &str) -> (r: Vec<Fortune>)
    ensures
        r@.len() == fortunes_from(string_views(lines@), 0).len(),
        forall|i: int|
            0 <= i < r@.len() ==> (#[trigger] r@[i]).text@ == fortunes_from(string_views(lines@), 0)[i]
                && r@[i].source@ == source@,
{
    let ghost ls = string_views(lines@);
    let mut out: Vec<Fortune> = Vec::new();
    let mut pos: usize = 0;
    let ghost mut done: Seq<Seq<char>> = Seq::empty();
    while pos < lines.len()
        invariant
            pos <= lines.len(),
            ls == string_views(lines@),
            done + fortunes_from(ls, pos as int) == fortunes_from(ls, 0),
            out@.len() == done.len(),
            forall|i: int|
                0 <= i < out@.len() ==> (#[trigger] out@[i]).text@ == done[i] && out@[i].source@
                    == source@,
        decreases lines.len() - pos,
    {
        let (fortune, next) = read_next_fortune(lines, pos);
        proof {
            lemma_next_separator_bound(ls, pos as int);
        }
        let ghost k = next_separator(ls, pos as int);
        let ghost text = joined(ls, pos as int, k);
        let ghost this = if (k < ls.len() || text.len() > 0) && trim_end_of(text).len() > 0 {
            seq![trim_end_of(text)]
        } else {
            Seq::<Seq<char>>::empty()
        };
        assert(k < ls.len() ==> fortunes_from(ls, pos as int) == this + fortunes_from(ls, k + 1));
        assert(k == ls.len() ==> fortunes_from(ls, pos as int) == this);
        match fortune {
            Some(text_s) => {
                if chars_of(text_s.as_str()).len() > 0 {
                    proof {
                        done = done.push(text_s@);
                    }
                    out.push(Fortune { source: String::from_str(source), text: text_s });
                }
            },
            None => {},
        }
        assert(k == ls.len() ==> fortunes_from(ls, next as int) =~= Seq::<Seq<char>>::empty());
        pos = next;
    }
    assert(fortunes_from(ls, pos as int) =~= Seq::<Seq<char>>::empty());
    assert(done =~= fortunes_from(ls, 0));
    out
}

} // verus!

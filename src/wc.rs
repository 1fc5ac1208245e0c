//! `wc`: the line, word, byte and character counts of a text.
use vstd::prelude::*;
use crate::lines::{line_count, count_lines};
use crate::text::{chars_of, int_string, int_text, pad_left, pad_left_string};
use vstd::string::StringSliceAdditionalSpecFns;

verus! {

/// The counts that `wc` reports for one input.
#[derive(Debug, PartialEq, Eq, Structural)]
pub struct FileInfo {
    pub num_lines: usize,
    pub num_words: usize,
    pub num_bytes: usize,
    pub num_chars: usize,
}

/// Whitespace as `str::split_ascii_whitespace` splits on it.
pub open spec fn is_ascii_space(c: char) -> bool {
    c == ' ' || c == '\t' || c == '\n' || c == '\x0C' || c == '\r'
}

/// The number of maximal runs of characters that are not ASCII whitespace.
pub open spec fn word_count(s: Seq<char>) -> nat
    decreases s.len(),
{
    if s.len() == 0 {
        0
    } else {
        word_count(s.drop_last()) + if !is_ascii_space(s.last()) && (s.len() == 1
            || is_ascii_space(s[s.len() - 2])) {
            1nat
        } else {
            0nat
        }
    }
}

/// Counts the lines, words, bytes and characters of `text`.
pub fn count(text: &str) -> (r: FileInfo)
    ensures
        r.num_lines == line_count(text.spec_bytes()),
        r.num_words == word_count(text@),
        r.num_bytes == text.spec_bytes().len(),
        r.num_chars == text@.len(),
{
    let bytes = text.as_bytes();
    let num_lines = count_lines(bytes);
    let num_bytes = bytes.len();
    proof {
        crate::lines::lemma_line_count_bound(bytes@);
    }
    assert(num_lines <= num_bytes);
    let cs = chars_of(text);
    let mut num_words: usize = 0;
    let mut i: usize = 0;
    while i < cs.len()
        invariant
            i <= cs.len(),
            num_words == word_count(cs@.subrange(0, i as int)),
            num_words <= i,
        decreases cs.len() - i,
    {
        let ghost p = cs@.subrange(0, i + 1);
        assert(p.drop_last() =~= cs@.subrange(0, i as int));
        let c = cs[i];
        assert(p.last() == c);
        assert(i > 0 ==> p[p.len() - 2] == cs@[i - 1]);
        let space = c == ' ' || c == '\t' || c == '\n' || c == '\x0C' || c == '\r';
        if !space {
            if i == 0 {
                num_words = num_words + 1;
            } else {
                let d = cs[i - 1];
                if d == ' ' || d == '\t' || d == '\n' || d == '\x0C' || d == '\r' {
                    num_words = num_words + 1;
                }
            }
        }
        i = i + 1;
    }
    assert(cs@.subrange(0, i as int) =~= text@);
    let num_chars = cs.len();
    assert(num_chars == text@.len());
    FileInfo {
        num_lines: num_lines as usize,
        num_words,
        num_bytes,
        num_chars,
    }
}

/// A count as `wc` prints it: right-aligned in eight columns.
pub open spec fn count_field(n: int) -> Seq<char> {
    pad_left(int_text(n), 8)
}

/// The line that `wc` prints for one input (without the newline): the chosen
/// counts in the order lines, words, bytes, characters, then the name unless
/// it is `-`.
pub open spec fn info_text(info: FileInfo, lines: bool, words: bool, bytes: bool, chars: bool, name: Seq<char>) -> Seq<char> {
    (if lines { count_field(info.num_lines as int) } else { Seq::empty() })
    + (if words { count_field(info.num_words as int) } else { Seq::empty() })
    + (if bytes { count_field(info.num_bytes as int) } else { Seq::empty() })
    + (if chars { count_field(info.num_chars as int) } else { Seq::empty() })
    + (if name == seq!['-'] { Seq::empty() } else { seq![' '] + name })
}

fn push_count(out: &mut String, n: usize)
    ensures
        final(out)@ == old(out)@ + count_field(n as int),
{
    let digits = int_string(n as i128);
    let field = pad_left_string(digits.as_str(), 8);
    out.append(field.as_str());
}

/// Formats the line that `wc` prints for one input.
pub fn info_line(info: &FileInfo, lines: bool, words: bool, bytes: bool, chars: bool, name: &str) -> (r: String)
    ensures
        r@ == info_text(*info, lines, words, bytes, chars, name@),
{
    let mut out = String::new();
    let ghost e = Seq::<char>::empty();
    if lines {
        push_count(&mut out, info.num_lines);
    }
    let ghost a = out@;
    if words {
        push_count(&mut out, info.num_words);
    }
    let ghost b = out@;
    if bytes {
        push_count(&mut out, info.num_bytes);
    }
    let ghost c = out@;
    if chars {
        push_count(&mut out, info.num_chars);
    }
    let ghost d = out@;
    let nc = chars_of(name);
    if !(nc.len() == 1 && nc[0] == '-') {
        out.append(" ");
        out.append(name);
        proof {
            reveal_strlit(" ");
        }
    }
    proof {
        assert(!(nc.len() == 1 && nc[0] == '-') ==> name@ != seq!['-']);
        assert((nc.len() == 1 && nc[0] == '-') ==> name@ =~= seq!['-']);
    }
    assert(out@ =~= info_text(*info, lines, words, bytes, chars, name@));
    out
}

} // verus!

//! `comm`: which of two sorted streams the next line of output comes from.
use vstd::prelude::*;
use crate::text::{chars_of, lower_of, lowercase};

verus! {

/// A line of `comm`'s output: only in the first file, only in the second, or
/// in both.
#[derive(Debug, PartialEq, Eq)]
pub enum Line {
    File1(String),
    File2(String),
    Both(String),
}

/// The order of `a` and `b` by code point, as `-1`, `0` or `1`; for valid
/// UTF-8 this is the byte order in which `str` compares.
pub open spec fn lex_cmp(a: Seq<char>, b: Seq<char>) -> int
    decreases a.len(),
{
    if a.len() == 0 && b.len() == 0 {
        0
    } else if a.len() == 0 {
        -1
    } else if b.len() == 0 {
        1
    } else if a[0] < b[0] {
        -1
    } else if a[0] > b[0] {
        1
    } else {
        lex_cmp(a.drop_first(), b.drop_first())
    }
}

/// Compares two texts by code point.
pub fn compare(a: &Vec<char>, b: &Vec<char>) -> (r: i8)
    ensures
        r == lex_cmp(a@, b@),
{
    let mut i: usize = 0;
    proof {
        assert(a@.subrange(0, a@.len() as int) =~= a@);
        assert(b@.subrange(0, b@.len() as int) =~= b@);
    }
    while i < a.len() && i < b.len() && a[i] == b[i]
        invariant
            i <= a.len(),
            i <= b.len(),
            lex_cmp(a@, b@) == lex_cmp(
                a@.subrange(i as int, a@.len() as int),
                b@.subrange(i as int, b@.len() as int),
            ),
        decreases a.len() - i,
    {
        let ghost ra = a@.subrange(i as int, a@.len() as int);
        let ghost rb = b@.subrange(i as int, b@.len() as int);
        assert(ra.drop_first() =~= a@.subrange(i + 1, a@.len() as int));
        assert(rb.drop_first() =~= b@.subrange(i + 1, b@.len() as int));
        assert(ra[0] == rb[0]);
        i = i + 1;
    }
    let ghost ra = a@.subrange(i as int, a@.len() as int);
    let ghost rb = b@.subrange(i as int, b@.len() as int);
    assert(i == a.len() ==> ra.len() == 0);
    assert(i == b.len() ==> rb.len() == 0);
    if i == a.len() && i == b.len() {
        0
    } else if i == a.len() {
        -1
    } else if i == b.len() {
        1
    } else {
        assert(ra[0] == a@[i as int] && rb[0] == b@[i as int]);
        assert(a@[i as int] != b@[i as int]);
        if a[i] < b[i] {
            -1
        } else {
            1
        }
    }
}

/// The order of the two lines that `comm` compares, case-folded by
/// `str::to_lowercase` where `insensitive`.
pub open spec fn line_order(a: Seq<char>, b: Seq<char>, insensitive: bool) -> int {
    if insensitive {
        lex_cmp(lower_of(a), lower_of(b))
    } else {
        lex_cmp(a, b)
    }
}

/// The next line of output, given the next unread line of each file (if
/// any). The caller advances the first file past a `File1` or `Both` line and
/// the second past a `File2` or `Both` line.
pub fn get_next_line(line1: Option<&String>, line2: Option<&String>, insensitive: bool) -> (r:
    Option<Line>)
    ensures
        match (line1, line2) {
            (None, None) => r is None,
            (None, Some(b)) => r matches Some(Line::File2(s)) && s@ == b@,
            (Some(a), None) => r matches Some(Line::File1(s)) && s@ == a@,
            (Some(a), Some(b)) => {
                let o = line_order(a@, b@, insensitive);
                if o == 0 {
                    r matches Some(Line::Both(s)) && s@ == a@
                } else if o < 0 {
                    r matches Some(Line::File1(s)) && s@ == a@
                } else {
                    r matches Some(Line::File2(s)) && s@ == b@
                }
            },
        },
{
    match (line1, line2) {
        (None, None) => None,
        (None, Some(b)) => Some(Line::File2(b.clone())),
        (Some(a), None) => Some(Line::File1(a.clone())),
        (Some(a), Some(b)) => {
            let (x, y) = if insensitive {
                let la = lowercase(a.as_str());
                let lb = lowercase(b.as_str());
                (chars_of(la.as_str()), chars_of(lb.as_str()))
            } else {
                (chars_of(a.as_str()), chars_of(b.as_str()))
            };
            let o = compare(&x, &y);
            if o == 0 {
                Some(Line::Both(a.clone()))
            } else if o < 0 {
                Some(Line::File1(a.clone()))
            } else {
                Some(Line::File2(b.clone()))
            }
        },
    }
}

/// The text that comes before a line of the second or third column: one
/// delimiter for each shown column to its left.
pub open spec fn column_lead(line: Line, show_col1: bool, show_col2: bool, delimiter: Seq<char>) -> Seq<char> {
    match line {
        Line::File1(_) => Seq::empty(),
        Line::File2(_) => if show_col1 {
            delimiter
        } else {
            Seq::empty()
        },
        Line::Both(_) => if show_col1 && show_col2 {
            delimiter + delimiter
        } else if show_col1 || show_col2 {
            delimiter
        } else {
            Seq::empty()
        },
    }
}

pub open spec fn line_text(line: Line) -> Seq<char> {
    match line {
        Line::File1(s) => s@,
        Line::File2(s) => s@,
        Line::Both(s) => s@,
    }
}

pub open spec fn column_shown(line: Line, show_col1: bool, show_col2: bool, show_col3: bool) -> bool {
    match line {
        Line::File1(_) => show_col1,
        Line::File2(_) => show_col2,
        Line::Both(_) => show_col3,
    }
}

/// What `comm` prints for `line`, without the newline: nothing where its
/// column is suppressed.
pub fn output_line(line: &Line, show_col1: bool, show_col2: bool, show_col3: bool, delimiter: &str) -> (r: Option<String>)
    ensures
        match r {
            Some(s) => column_shown(*line, show_col1, show_col2, show_col3) && s@ == column_lead(
                *line,
                show_col1,
                show_col2,
                delimiter@,
            ) + line_text(*line),
            None => !column_shown(*line, show_col1, show_col2, show_col3),
        },
{
    let (shown, text) = match line {
        Line::File1(s) => (show_col1, s),
        Line::File2(s) => (show_col2, s),
        Line::Both(s) => (show_col3, s),
    };
    if !shown {
        return None;
    }
    let mut out = String::new();
    match line {
        Line::File1(_) => {},
        Line::File2(_) => if show_col1 {
            out.append(delimiter);
        },
        Line::Both(_) => {
            if show_col1 {
                out.append(delimiter);
            }
            if show_col2 {
                out.append(delimiter);
            }
        },
    }
    out.append(text.as_str());
    Some(out)
}

/// A line of output as its column (1, 2 or 3) and its text.
pub open spec fn line_view(line: Line) -> (int, Seq<char>) {
    match line {
        Line::File1(s) => (1, s@),
        Line::File2(s) => (2, s@),
        Line::Both(s) => (3, s@),
    }
}

pub open spec fn line_views(v: Seq<Line>) -> Seq<(int, Seq<char>)> {
    v.map_values(|l: Line| line_view(l))
}

/// The merge of `a[i..]` and `b[j..]`, each sorted: the smaller of the two
/// next lines comes first, and two equal lines make one line of column 3.
pub open spec fn merged(a: Seq<Seq<char>>, b: Seq<Seq<char>>, i: int, j: int, insensitive: bool) -> Seq<(int, Seq<char>)>
    decreases a.len() - i + b.len() - j,
{
    if i < 0 || j < 0 || i > a.len() || j > b.len() || (i == a.len() && j == b.len()) {
        Seq::empty()
    } else if i == a.len() {
        seq![(2, b[j])] + merged(a, b, i, j + 1, insensitive)
    } else if j == b.len() {
        seq![(1, a[i])] + merged(a, b, i + 1, j, insensitive)
    } else {
        let o = line_order(a[i], b[j], insensitive);
        if o == 0 {
            seq![(3, a[i])] + merged(a, b, i + 1, j + 1, insensitive)
        } else if o < 0 {
            seq![(1, a[i])] + merged(a, b, i + 1, j, insensitive)
        } else {
            seq![(2, b[j])] + merged(a, b, i, j + 1, insensitive)
        }
    }
}

/// The lines of `comm`'s output for two sorted files, each with its column.
pub fn merge_lines(lines1: &[String], lines2: &[String], insensitive: bool) -> (r: Vec<Line>)
    ensures
        line_views(r@) == merged(
            crate::text::string_views(lines1@),
            crate::text::string_views(lines2@),
            0,
            0,
            insensitive,
        ),
{
    let ghost a = crate::text::string_views(lines1@);
    let ghost b = crate::text::string_views(lines2@);
    let mut out: Vec<Line> = Vec::new();
    let mut i: usize = 0;
    let mut j: usize = 0;
    assert(line_views(out@) + merged(a, b, 0, 0, insensitive) =~= merged(a, b, 0, 0, insensitive));
    while i < lines1.len() || j < lines2.len()
        invariant
            i <= lines1.len(),
            j <= lines2.len(),
            a == crate::text::string_views(lines1@),
            b == crate::text::string_views(lines2@),
            line_views(out@) + merged(a, b, i as int, j as int, insensitive) == merged(
                a,
                b,
                0,
                0,
                insensitive,
            ),
        decreases lines1.len() - i + lines2.len() - j,
    {
        let l1 = if i < lines1.len() {
            Some(&lines1[i])
        } else {
            None
        };
        let l2 = if j < lines2.len() {
            Some(&lines2[j])
        } else {
            None
        };
        let line = get_next_line(l1, l2, insensitive);
        let ghost before = out@;
        let ghost rest = merged(a, b, i as int, j as int, insensitive);
        match line {
            Some(l) => {
                let ghost v = line_view(l);
                match &l {
                    Line::File1(_) => {
                        assert(rest == seq![v] + merged(a, b, i + 1, j as int, insensitive));
                        i = i + 1;
                    },
                    Line::File2(_) => {
                        assert(rest == seq![v] + merged(a, b, i as int, j + 1, insensitive));
                        j = j + 1;
                    },
                    Line::Both(_) => {
                        assert(rest == seq![v] + merged(a, b, i + 1, j + 1, insensitive));
                        i = i + 1;
                        j = j + 1;
                    },
                }
                out.push(l);
                assert(line_views(out@) =~= line_views(before).push(v));
                assert(line_views(out@) + merged(a, b, i as int, j as int, insensitive) =~= line_views(before) + rest);
            },
            None => {
                assert(false);
            },
        }
    }
    assert(merged(a, b, i as int, j as int, insensitive) =~= Seq::<(int, Seq<char>)>::empty());
    assert(line_views(out@) =~= line_views(out@) + merged(a, b, i as int, j as int, insensitive));
    out
}

} // verus!

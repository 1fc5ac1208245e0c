//! `uniq`: grouping runs of equal adjacent lines.
use vstd::prelude::*;
use crate::text::{chars_of, string_views};

verus! {

pub open spec fn ends_with_newline(s: Seq<char>) -> bool {
    s.len() > 0 && s.last() == '\n'
}

/// The line compared with `prev`: a line that lacks a newline counts as
/// having one where that makes it equal to `prev`.
pub open spec fn compared(prev: Seq<char>, curr: Seq<char>) -> Seq<char> {
    if !ends_with_newline(curr) && prev.len() > 0 && prev.drop_last() == curr {
        curr.push('\n')
    } else {
        curr
    }
}

/// After the lines before `k` (and, at `k == lines.len()`, the end of input,
/// which reads as an empty line) have been compared: the groups written so
/// far as (count, line), the line of the open group and the number of lines
/// after its first.
pub open spec fn uniq_state(lines: Seq<Seq<char>>, k: int) -> (Seq<(int, Seq<char>)>, Seq<char>, int)
    decreases k,
{
    if k <= 0 {
        (Seq::empty(), lines[0], 0)
    } else {
        let (out, prev, count) = uniq_state(lines, k - 1);
        let curr = compared(
            prev,
            if k < lines.len() {
                lines[k]
            } else {
                Seq::empty()
            },
        );
        if curr != prev {
            (out.push((count + 1, prev)), curr, 0)
        } else {
            (out, prev, count + 1)
        }
    }
}

/// The groups that `uniq` writes for `lines` (each as `read_line` gives it),
/// each with the number of lines in it.
pub open spec fn uniq_groups(lines: Seq<Seq<char>>) -> Seq<(int, Seq<char>)> {
    if lines.len() == 0 {
        Seq::empty()
    } else {
        uniq_state(lines, lines.len() as int).0
    }
}

pub open spec fn group_views(v: Seq<(usize, String)>) -> Seq<(int, Seq<char>)> {
    v.map_values(|g: (usize, String)| (g.0 as int, g.1@))
}

/// `s` without its last character.
fn drop_last_char(s: &Vec<char>) -> (r: Vec<char>)
    requires
        s.len() > 0,
    ensures
        r@ == s@.drop_last(),
{
    let r = crate::text::sub_chars(s, 0, s.len() - 1);
    assert(s@.subrange(0, s@.len() - 1) =~= s@.drop_last());
    r
}

fn same_chars(a: &Vec<char>, b: &Vec<char>) -> (r: bool)
    ensures
        r == (a@ == b@),
{
    if a.len() != b.len() {
        return false;
    }
    let mut i: usize = 0;
    while i < a.len()
        invariant
            i <= a.len() == b.len(),
            forall|j: int| 0 <= j < i ==> a@[j] == b@[j],
        decreases a.len() - i,
    {
        if a[i] != b[i] {
            return false;
        }
        i = i + 1;
    }
    assert(a@ =~= b@);
    true
}

/// Groups runs of equal adjacent lines, each line as `read_line` gives it.
pub fn uniq_lines(lines: &[String]) -> (r: Vec<(usize, String)>)
    ensures
        group_views(r@) == uniq_groups(string_views(lines@)),
{
    let ghost ls = string_views(lines@);
    let mut out: Vec<(usize, String)> = Vec::new();
    if lines.len() == 0 {
        assert(group_views(out@) =~= Seq::<(int, Seq<char>)>::empty());
        return out;
    }
    let mut prev: Vec<char> = chars_of(lines[0].as_str());
    let mut prev_text: String = lines[0].clone();
    let mut count: usize = 0;
    let mut j: usize = 0;
    assert(group_views(out@) =~= Seq::<(int, Seq<char>)>::empty());
    while j < lines.len()
        invariant
            j <= lines.len(),
            ls == string_views(lines@),
            ls.len() > 0,
            prev@ == prev_text@,
            count <= j,
            uniq_state(ls, j as int) == (group_views(out@), prev@, count as int),
        decreases lines.len() - j,
    {
        let k = j + 1;
        let raw: Vec<char> = if k < lines.len() {
            chars_of(lines[k].as_str())
        } else {
            Vec::new()
        };
        proof {
            if k >= lines.len() {
                assert(raw@ =~= Seq::<char>::empty());
            }
        }
        let ends_nl = raw.len() > 0 && raw[raw.len() - 1] == '\n';
        let mut curr = raw;
        if !ends_nl && prev.len() > 0 {
            let head = drop_last_char(&prev);
            if same_chars(&head, &curr) {
                curr.push('\n');
            }
        }
        if !same_chars(&curr, &prev) {
            let ghost before = out@;
            out.push((count + 1, prev_text));
            assert(group_views(out@) =~= group_views(before).push(((count + 1) as int, prev@)));
            prev_text = crate::text::string_of(curr.as_slice());
            prev = curr;
            count = 0;
        } else {
            count = count + 1;
        }
        j = j + 1;
    }
    out
}

} // verus!

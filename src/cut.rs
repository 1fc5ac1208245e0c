//! `cut`: the list of positions to select, and the selection of characters,
//! bytes or fields of a line.
use vstd::prelude::*;
use core::ops::Range;
use vstd::string::StringSliceAdditionalSpecFns;
use crate::text::{
    chars_of, int_string, int_text, literal_in, parse_in_chars, quoted, quoted_string, string_of,
    string_views, sub_chars,
};

verus! {

pub type PositionList = Vec<Range<usize>>;

/// What `cut` selects from each line, and at which 0-based positions.
#[derive(Debug)]
pub enum Extract {
    Fields(PositionList),
    Bytes(PositionList),
    Chars(PositionList),
}

/// The pieces of `s` between the occurrences of `sep`, as `str::split` yields
/// them: always at least one.
pub open spec fn split_on(s: Seq<char>, sep: char) -> Seq<Seq<char>>
    decreases s.len(),
{
    if s.len() == 0 {
        seq![Seq::empty()]
    } else {
        let init = split_on(s.drop_last(), sep);
        if s.last() == sep {
            init.push(Seq::empty())
        } else {
            init.update(init.len() - 1, init.last().push(s.last()))
        }
    }
}

pub proof fn lemma_split_on_len(s: Seq<char>, sep: char)
    ensures
        split_on(s, sep).len() >= 1,
    decreases s.len(),
{
    if s.len() > 0 {
        lemma_split_on_len(s.drop_last(), sep);
    }
}

/// The index of the first `c` in `s`, or the length of `s` where there is none.
pub open spec fn first_index(s: Seq<char>, c: char) -> int
    decreases s.len(),
{
    if s.len() == 0 {
        0
    } else if s[0] == c {
        0
    } else {
        1 + first_index(s.drop_first(), c)
    }
}

/// A 1-based position: digits with no sign, and not zero.
pub open spec fn index_value(s: Seq<char>) -> Option<int> {
    if s.len() > 0 && s[0] == '+' {
        None
    } else {
        literal_in(s, false, 1, usize::MAX as int)
    }
}

pub open spec fn illegal_value_text(s: Seq<char>) -> Seq<char> {
    quoted("illegal list value: "@, s)
}

pub open spec fn bad_order_text(a: int, b: int) -> Seq<char> {
    "First number in range ("@ + int_text(a) + ") must be lower than second number ("@ + int_text(
        b,
    ) + ")"@
}

/// One item of a position list, `N` or `N-M` with `N < M`, as the 0-based
/// half-open range `(start, end)` that it selects.
pub open spec fn range_of(p: Seq<char>) -> Result<(int, int), Seq<char>> {
    let k = first_index(p, '-');
    if k == p.len() {
        match index_value(p) {
            Some(a) => Ok((a - 1, a)),
            None => Err(illegal_value_text(p)),
        }
    } else {
        match (index_value(p.subrange(0, k)), index_value(p.subrange(k + 1, p.len() as int))) {
            (Some(a), Some(b)) => if b <= a {
                Err(bad_order_text(a, b))
            } else {
                Ok((a - 1, b))
            },
            _ => Err(illegal_value_text(p)),
        }
    }
}

/// The ranges of the items, in order, or the error of the first bad one.
pub open spec fn ranges_of(items: Seq<Seq<char>>) -> Result<Seq<(int, int)>, Seq<char>>
    decreases items.len(),
{
    if items.len() == 0 {
        Ok(Seq::empty())
    } else {
        match ranges_of(items.drop_last()) {
            Err(e) => Err(e),
            Ok(v) => match range_of(items.last()) {
                Ok(r) => Ok(v.push(r)),
                Err(e) => Err(e),
            },
        }
    }
}

/// What a comma-separated position list such as `1,3-5` denotes.
pub open spec fn position_list_of(s: Seq<char>) -> Result<Seq<(int, int)>, Seq<char>> {
    ranges_of(split_on(s, ','))
}

pub open spec fn range_pair(r: Range<usize>) -> (int, int) {
    (r.start as int, r.end as int)
}

pub proof fn lemma_ranges_of_err(items: Seq<Seq<char>>, j: int, e: Seq<char>)
    requires
        0 <= j <= items.len(),
        ranges_of(items.subrange(0, j)) == Err::<Seq<(int, int)>, Seq<char>>(e),
    ensures
        ranges_of(items) == Err::<Seq<(int, int)>, Seq<char>>(e),
    decreases items.len() - j,
{
    if j == items.len() {
        assert(items.subrange(0, j) =~= items);
    } else {
        let p = items.subrange(0, j + 1);
        assert(p.drop_last() =~= items.subrange(0, j));
        lemma_ranges_of_err(items, j + 1, e);
    }
}

/// Reads a 1-based position.
fn index_of_chars(cs: &Vec<char>) -> (r: Option<usize>)
    ensures
        match r {
            Some(n) => index_value(cs@) == Some(n as int),
            None => index_value(cs@) is None,
        },
{
    if cs.len() > 0 && cs[0] == '+' {
        return None;
    }
    match parse_in_chars(cs, false, 1, usize::MAX as i128) {
        Some(n) => Some(n as usize),
        None => None,
    }
}

/// Parses a 1-based position; a leading `+` and zero are refused.
pub fn parse_index(val: &str) -> (r: Result<usize, String>)
    ensures
        match index_value(val@) {
            Some(n) => r == Ok::<usize, String>(n as usize),
            None => r matches Err(e) && e@ == quoted("illegal index value: "@, val@),
        },
{
    let cs = chars_of(val);
    match index_of_chars(&cs) {
        Some(n) => Ok(n),
        None => Err(quoted_string("illegal index value: ", val)),
    }
}

/// The range that one item of a position list denotes.
fn parse_range(p: &Vec<char>) -> (r: Result<Range<usize>, String>)
    ensures
        match r {
            Ok(x) => range_of(p@) == Ok::<(int, int), Seq<char>>(range_pair(x)),
            Err(e) => range_of(p@) == Err::<(int, int), Seq<char>>(e@),
        },
{
    let mut k: usize = 0;
    proof {
        assert(p@.subrange(0, p@.len() as int) =~= p@);
    }
    while k < p.len() && p[k] != '-'
        invariant
            k <= p.len(),
            k + first_index(p@.subrange(k as int, p@.len() as int), '-') == first_index(p@, '-'),
        decreases p.len() - k,
    {
        let ghost rest = p@.subrange(k as int, p@.len() as int);
        assert(rest.drop_first() =~= p@.subrange(k + 1, p@.len() as int));
        k = k + 1;
    }
    proof {
        if k < p.len() {
            assert(p@.subrange(k as int, p@.len() as int)[0] == '-');
        }
    }
    let text = string_of(p.as_slice());
    if k == p.len() {
        match index_of_chars(p) {
            Some(a) => Ok(Range { start: a - 1, end: a }),
            None => Err(quoted_string("illegal list value: ", text.as_str())),
        }
    } else {
        let first = sub_chars(p, 0, k);
        let second = sub_chars(p, k + 1, p.len());
        match (index_of_chars(&first), index_of_chars(&second)) {
            (Some(a), Some(b)) => if b <= a {
                let mut e = String::from_str("First number in range (");
                let sa = int_string(a as i128);
                let sb = int_string(b as i128);
                e.append(sa.as_str());
                e.append(") must be lower than second number (");
                e.append(sb.as_str());
                e.append(")");
                Err(e)
            } else {
                Ok(Range { start: a - 1, end: b })
            },
            _ => Err(quoted_string("illegal list value: ", text.as_str())),
        }
    }
}

/// Splits `cs` at each `sep`.
fn split_chars(cs: &Vec<char>, sep: char) -> (r: Vec<Vec<char>>)
    ensures
        r@.len() == split_on(cs@, sep).len(),
        forall|i: int| 0 <= i < r@.len() ==> (#[trigger] r@[i])@ == split_on(cs@, sep)[i],
{
    let mut parts: Vec<Vec<char>> = Vec::new();
    let mut cur: Vec<char> = Vec::new();
    let mut i: usize = 0;
    proof {
        assert(cs@.subrange(0, 0) =~= Seq::<char>::empty());
    }
    while i < cs.len()
        invariant
            i <= cs.len(),
            parts@.len() + 1 == split_on(cs@.subrange(0, i as int), sep).len(),
            forall|j: int|
                0 <= j < parts@.len() ==> (#[trigger] parts@[j])@ == split_on(
                    cs@.subrange(0, i as int),
                    sep,
                )[j],
            cur@ == split_on(cs@.subrange(0, i as int), sep).last(),
        decreases cs.len() - i,
    {
        let ghost pre = cs@.subrange(0, i as int);
        let ghost next = cs@.subrange(0, i + 1);
        assert(next.drop_last() =~= pre);
        proof {
            lemma_split_on_len(pre, sep);
        }
        let c = cs[i];
        if c == sep {
            parts.push(cur);
            cur = Vec::new();
            assert(cur@ =~= Seq::<char>::empty());
        } else {
            cur.push(c);
        }
        i = i + 1;
    }
    assert(cs@.subrange(0, i as int) =~= cs@);
    parts.push(cur);
    parts
}

/// Parses a comma-separated list of positions (`N`) and ranges (`N-M`),
/// 1-based and inclusive, into 0-based half-open ranges in the given order.
pub fn parse_pos(ranges: &str) -> (r: Result<PositionList, String>)
    ensures
        match r {
            Ok(v) => position_list_of(ranges@) == Ok::<Seq<(int, int)>, Seq<char>>(
                v@.map_values(|x: Range<usize>| range_pair(x)),
            ),
            Err(e) => position_list_of(ranges@) == Err::<Seq<(int, int)>, Seq<char>>(e@),
        },
{
    let cs = chars_of(ranges);
    let items = split_chars(&cs, ',');
    let ghost pieces = split_on(cs@, ',');
    let mut out: PositionList = Vec::new();
    let mut j: usize = 0;
    proof {
        assert(pieces.subrange(0, 0) =~= Seq::<Seq<char>>::empty());
        assert(out@.map_values(|x: Range<usize>| range_pair(x)) =~= Seq::<(int, int)>::empty());
    }
    while j < items.len()
        invariant
            j <= items.len(),
            pieces == split_on(cs@, ','),
            cs@ == ranges@,
            items@.len() == pieces.len(),
            forall|i: int| 0 <= i < items@.len() ==> (#[trigger] items@[i])@ == pieces[i],
            ranges_of(pieces.subrange(0, j as int)) == Ok::<Seq<(int, int)>, Seq<char>>(
                out@.map_values(|x: Range<usize>| range_pair(x)),
            ),
        decreases items.len() - j,
    {
        let ghost p = pieces.subrange(0, j + 1);
        assert(p.drop_last() =~= pieces.subrange(0, j as int));
        assert(p.last() == items@[j as int]@);
        match parse_range(&items[j]) {
            Ok(x) => {
                let ghost before = out@;
                out.push(x);
                assert(out@.map_values(|x: Range<usize>| range_pair(x)) =~= before.map_values(
                    |x: Range<usize>| range_pair(x),
                ).push(range_pair(x)));
            },
            Err(e) => {
                proof {
                    assert(ranges_of(p) == Err::<Seq<(int, int)>, Seq<char>>(e@));
                    lemma_ranges_of_err(pieces, j + 1, e@);
                }
                return Err(e);
            },
        }
        j = j + 1;
    }
    assert(pieces.subrange(0, j as int) =~= pieces);
    Ok(out)
}

/// The part of `s` that one range selects: empty where it starts past the end,
/// cut short where it runs past the end.
pub open spec fn range_part<A>(s: Seq<A>, r: Range<usize>) -> Seq<A> {
    if r.start < s.len() {
        s.subrange(r.start as int, if r.end < s.len() {
            r.end as int
        } else {
            s.len() as int
        })
    } else {
        Seq::empty()
    }
}

/// The parts of `s` that the ranges select, in the order of the ranges.
pub open spec fn select<A>(s: Seq<A>, ranges: Seq<Range<usize>>) -> Seq<A>
    decreases ranges.len(),
{
    if ranges.len() == 0 {
        Seq::empty()
    } else {
        select(s, ranges.drop_last()) + range_part(s, ranges.last())
    }
}

/// No range that starts inside a sequence of length `len` ends before it
/// starts.
pub open spec fn ranges_fit(ranges: Seq<Range<usize>>, len: int) -> bool {
    forall|i: int|
        0 <= i < ranges.len() && (#[trigger] ranges[i]).start < len ==> ranges[i].start
            <= ranges[i].end
}

/// The items of `s` that the ranges select.
fn select_items<A: Copy>(s: &[A], pos: &[Range<usize>]) -> (r: Vec<A>)
    requires
        ranges_fit(pos@, s@.len() as int),
    ensures
        r@ == select(s@, pos@),
{
    let mut out: Vec<A> = Vec::new();
    let mut k: usize = 0;
    while k < pos.len()
        invariant
            k <= pos.len(),
            ranges_fit(pos@, s@.len() as int),
            out@ == select(s@, pos@.subrange(0, k as int)),
        decreases pos.len() - k,
    {
        let ghost q = pos@.subrange(0, k + 1);
        assert(q.drop_last() =~= pos@.subrange(0, k as int));
        let r = &pos[k];
        assert(q.last() == *r);
        if r.start < s.len() {
            let hi = if r.end < s.len() {
                r.end
            } else {
                s.len()
            };
            let mut j: usize = r.start;
            let ghost base = out@;
            assert(s@.subrange(r.start as int, r.start as int) =~= Seq::<A>::empty());
            assert(base =~= base + s@.subrange(r.start as int, r.start as int));
            while j < hi
                invariant
                    r.start <= j <= hi <= s.len(),
                    out@ == base + s@.subrange(r.start as int, j as int),
                decreases hi - j,
            {
                out.push(s[j]);
                j = j + 1;
                assert(out@ =~= base + s@.subrange(r.start as int, j as int));
            }
        } else {
            assert(out@ =~= out@ + Seq::<A>::empty());
        }
        k = k + 1;
    }
    assert(pos@.subrange(0, k as int) =~= pos@);
    out
}

/// The characters of `line` at the given positions.
pub fn extract_chars(line: &str, char_pos: &[Range<usize>]) -> (r: String)
    requires
        ranges_fit(char_pos@, line@.len() as int),
    ensures
        r@ == select(line@, char_pos@),
{
    let cs = chars_of(line);
    let picked = select_items(cs.as_slice(), char_pos);
    string_of(picked.as_slice())
}

/// What `String::from_utf8_lossy` makes of `b`.
pub uninterp spec fn utf8_lossy(b: Seq<u8>) -> Seq<char>;

/// Relies on `String::from_utf8_lossy`: the text of `b`, each invalid sequence
/// replaced; the result depends on the bytes alone.
#[verifier::external_body]
fn lossy_string(b: &[u8]) -> (r: String)
    ensures
        r@ == utf8_lossy(b@),
{
    String::from_utf8_lossy(b).into_owned()
}

/// The bytes of `line` at the given positions, as text.
pub fn extract_bytes(line: &str, byte_pos: &[Range<usize>]) -> (r: String)
    requires
        ranges_fit(byte_pos@, line.spec_bytes().len() as int),
    ensures
        r@ == utf8_lossy(select(line.spec_bytes(), byte_pos@)),
{
    let bytes = line.as_bytes();
    let picked = select_items(bytes, byte_pos);
    lossy_string(picked.as_slice())
}

/// The fields of `record` at the given positions.
pub fn extract_fields(record: &[String], field_pos: &[Range<usize>]) -> (r: Vec<String>)
    requires
        ranges_fit(field_pos@, record@.len() as int),
    ensures
        string_views(r@) == select(string_views(record@), field_pos@),
{
    let ghost views = string_views(record@);
    let mut out: Vec<String> = Vec::new();
    let mut k: usize = 0;
    while k < field_pos.len()
        invariant
            k <= field_pos.len(),
            views == string_views(record@),
            ranges_fit(field_pos@, record@.len() as int),
            string_views(out@) == select(views, field_pos@.subrange(0, k as int)),
        decreases field_pos.len() - k,
    {
        let ghost q = field_pos@.subrange(0, k + 1);
        assert(q.drop_last() =~= field_pos@.subrange(0, k as int));
        let r = &field_pos[k];
        assert(q.last() == *r);
        if r.start < record.len() {
            let hi = if r.end < record.len() {
                r.end
            } else {
                record.len()
            };
            let mut j: usize = r.start;
            let ghost base = string_views(out@);
            assert(base =~= base + views.subrange(r.start as int, r.start as int));
            while j < hi
                invariant
                    r.start <= j <= hi <= record.len(),
                    views == string_views(record@),
                    string_views(out@) == base + views.subrange(r.start as int, j as int),
                decreases hi - j,
            {
                let f = record[j].clone();
                let ghost before = out@;
                out.push(f);
                assert(string_views(out@) =~= string_views(before).push(f@));
                j = j + 1;
                assert(string_views(out@) =~= base + views.subrange(r.start as int, j as int));
            }
        } else {
            assert(string_views(out@) =~= string_views(out@) + Seq::<Seq<char>>::empty());
        }
        k = k + 1;
    }
    assert(field_pos@.subrange(0, k as int) =~= field_pos@);
    out
}

} // verus!

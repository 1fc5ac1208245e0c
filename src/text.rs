//! Decimal integer literals and the conversions between `str`, characters and
//! `String` that the utilities share.
use vstd::prelude::*;

verus! {

pub open spec fn is_digit(c: char) -> bool {
    '0' <= c && c <= '9'
}

pub open spec fn digit_value(c: char) -> int {
    (c as int) - ('0' as int)
}

/// A non-empty run of ASCII digits.
pub open spec fn all_digits(s: Seq<char>) -> bool {
    s.len() > 0 && forall|i: int| 0 <= i < s.len() ==> is_digit(#[trigger] s[i])
}

/// The number that a run of decimal digits denotes.
pub open spec fn digits_value(s: Seq<char>) -> int
    decreases s.len(),
{
    if s.len() == 0 {
        0
    } else {
        digits_value(s.drop_last()) * 10 + digit_value(s.last())
    }
}

/// The integer that `s` denotes as a Rust integer literal: an optional `+`
/// (or `-`, for a signed type) followed by one or more ASCII digits.
pub open spec fn literal_value(s: Seq<char>, signed: bool) -> Option<int> {
    if s.len() > 0 && (s[0] == '+' || (signed && s[0] == '-')) {
        if all_digits(s.drop_first()) {
            Some(
                if s[0] == '-' {
                    -digits_value(s.drop_first())
                } else {
                    digits_value(s.drop_first())
                },
            )
        } else {
            None
        }
    } else if all_digits(s) {
        Some(digits_value(s))
    } else {
        None
    }
}

/// The integer that `s` denotes, where it lies in `lo..=hi`: what parsing `s`
/// into an integer type with those bounds yields.
pub open spec fn literal_in(s: Seq<char>, signed: bool, lo: int, hi: int) -> Option<int> {
    match literal_value(s, signed) {
        Some(v) => if lo <= v && v <= hi {
            Some(v)
        } else {
            None
        },
        None => None,
    }
}

pub proof fn lemma_digits_value_nonneg(s: Seq<char>)
    requires
        forall|i: int| 0 <= i < s.len() ==> is_digit(#[trigger] s[i]),
    ensures
        digits_value(s) >= 0,
    decreases s.len(),
{
    if s.len() > 0 {
        assert forall|i: int| 0 <= i < s.drop_last().len() implies is_digit(
            #[trigger] s.drop_last()[i],
        ) by {
            assert(s.drop_last()[i] == s[i]);
        }
        lemma_digits_value_nonneg(s.drop_last());
        assert(is_digit(s[s.len() - 1]));
    }
}

/// Appending digits never makes a decimal number smaller.
pub proof fn lemma_digits_value_prefix(s: Seq<char>, n: int)
    requires
        0 <= n <= s.len(),
        forall|i: int| 0 <= i < s.len() ==> is_digit(#[trigger] s[i]),
    ensures
        digits_value(s.subrange(0, n)) <= digits_value(s),
    decreases s.len(),
{
    if n < s.len() {
        let p = s.drop_last();
        assert forall|i: int| 0 <= i < p.len() implies is_digit(#[trigger] p[i]) by {
            assert(p[i] == s[i]);
        }
        lemma_digits_value_prefix(p, n);
        assert(p.subrange(0, n) =~= s.subrange(0, n));
        lemma_digits_value_nonneg(p);
        assert(is_digit(s[s.len() - 1]));
    } else {
        assert(s.subrange(0, n) =~= s);
    }
}

/// Reads the digits `s[start..]` as a number no larger than `limit`.
fn digits_at_most(s: &Vec<char>, start: usize, limit: u128) -> (r: Option<u128>)
    requires
        start <= s.len(),
        limit <= 0x1_0000_0000_0000_0000,
    ensures
        ({
            let t = s@.subrange(start as int, s.len() as int);
            match r {
                Some(v) => all_digits(t) && v == digits_value(t) && v <= limit,
                None => !all_digits(t) || digits_value(t) > limit,
            }
        }),
{
    let ghost t = s@.subrange(start as int, s.len() as int);
    if start == s.len() {
        return None;
    }
    let mut i: usize = start;
    let mut acc: u128 = 0;
    while i < s.len()
        invariant
            start <= i <= s.len(),
            t == s@.subrange(start as int, s.len() as int),
            limit <= 0x1_0000_0000_0000_0000,
            acc <= limit,
            acc == digits_value(s@.subrange(start as int, i as int)),
            forall|j: int| start <= j < i ==> is_digit(#[trigger] s@[j]),
        decreases s.len() - i,
    {
        let c = s[i];
        if !('0' <= c && c <= '9') {
            assert(t[i - start] == c);
            return None;
        }
        let d: u128 = (c as u32 - '0' as u32) as u128;
        let next: u128 = acc * 10 + d;
        let ghost p = s@.subrange(start as int, i + 1);
        assert(p.drop_last() =~= s@.subrange(start as int, i as int));
        assert(p.last() == c);
        if next > limit {
            proof {
                if all_digits(t) {
                    lemma_digits_value_prefix(t, i + 1 - start);
                    assert(t.subrange(0, i + 1 - start) =~= p);
                }
            }
            return None;
        }
        acc = next;
        i = i + 1;
    }
    assert(s@.subrange(start as int, i as int) =~= t);
    Some(acc)
}

/// Parses `s` as an integer literal whose value must lie in `lo..=hi`.
pub fn parse_in_chars(s: &Vec<char>, signed: bool, lo: i128, hi: i128) -> (r: Option<i128>)
    requires
        -0x1_0000_0000_0000_0000 <= lo <= hi <= 0x1_0000_0000_0000_0000,
    ensures
        match r {
            Some(v) => literal_in(s@, signed, lo as int, hi as int) == Some(v as int),
            None => literal_in(s@, signed, lo as int, hi as int) is None,
        },
{
    let signed_literal = s.len() > 0 && (s[0] == '+' || (signed && s[0] == '-'));
    let start: usize = if signed_literal {
        1
    } else {
        0
    };
    proof {
        assert(s@.subrange(1, s.len() as int) =~= s@.drop_first());
        assert(s@.subrange(0, s.len() as int) =~= s@);
    }
    match digits_at_most(s, start, 0x1_0000_0000_0000_0000) {
        Some(m) => {
            let v: i128 = if signed_literal && s[0] == '-' {
                -(m as i128)
            } else {
                m as i128
            };
            if lo <= v && v <= hi {
                Some(v)
            } else {
                None
            }
        },
        None => None,
    }
}

/// Relies on `str::chars`: the characters of `s`, in order.
#[verifier::external_body]
pub(crate) fn chars_of(s: &str) -> (r: Vec<char>)
    ensures
        r@ == s@,
{
    s.chars().collect()
}

/// `s` read as an `i64`, as `str::parse::<i64>` reads it.
pub fn parse_i64(s: &str) -> (r: Option<i64>)
    ensures
        match r {
            Some(v) => literal_in(s@, true, i64::MIN as int, i64::MAX as int) == Some(v as int),
            None => literal_in(s@, true, i64::MIN as int, i64::MAX as int) is None,
        },
{
    let cs = chars_of(s);
    match parse_in_chars(&cs, true, i64::MIN as i128, i64::MAX as i128) {
        Some(v) => Some(v as i64),
        None => None,
    }
}

/// `s` read as a `usize`, as `str::parse::<usize>` reads it.
pub fn parse_usize(s: &str) -> (r: Option<usize>)
    ensures
        match r {
            Some(v) => literal_in(s@, false, 0, usize::MAX as int) == Some(v as int),
            None => literal_in(s@, false, 0, usize::MAX as int) is None,
        },
{
    let cs = chars_of(s);
    match parse_in_chars(&cs, false, 0, usize::MAX as i128) {
        Some(v) => Some(v as usize),
        None => None,
    }
}

/// `s` read as a `u64`, as `str::parse::<u64>` reads it.
pub fn parse_u64(s: &str) -> (r: Option<u64>)
    ensures
        match r {
            Some(v) => literal_in(s@, false, 0, u64::MAX as int) == Some(v as int),
            None => literal_in(s@, false, 0, u64::MAX as int) is None,
        },
{
    let cs = chars_of(s);
    match parse_in_chars(&cs, false, 0, u64::MAX as i128) {
        Some(v) => Some(v as u64),
        None => None,
    }
}

/// `s` read as a `u32`, as `str::parse::<u32>` reads it.
pub fn parse_u32(s: &str) -> (r: Option<u32>)
    ensures
        match r {
            Some(v) => literal_in(s@, false, 0, u32::MAX as int) == Some(v as int),
            None => literal_in(s@, false, 0, u32::MAX as int) is None,
        },
{
    let cs = chars_of(s);
    match parse_in_chars(&cs, false, 0, u32::MAX as i128) {
        Some(v) => Some(v as u32),
        None => None,
    }
}

/// `s` read as an `i32`, as `str::parse::<i32>` reads it.
pub fn parse_i32(s: &str) -> (r: Option<i32>)
    ensures
        match r {
            Some(v) => literal_in(s@, true, i32::MIN as int, i32::MAX as int) == Some(v as int),
            None => literal_in(s@, true, i32::MIN as int, i32::MAX as int) is None,
        },
{
    let cs = chars_of(s);
    match parse_in_chars(&cs, true, i32::MIN as i128, i32::MAX as i128) {
        Some(v) => Some(v as i32),
        None => None,
    }
}

/// The ASCII digit for `d`, where `d < 10`.
pub open spec fn digit_char(d: nat) -> char {
    ((d + 48) as u8) as char
}

/// The decimal digits of `n`, without leading zeros.
pub open spec fn decimal_text(n: nat) -> Seq<char>
    decreases n,
{
    if n < 10 {
        seq![digit_char(n)]
    } else {
        decimal_text(n / 10).push(digit_char(n % 10))
    }
}

/// How `Display` writes an integer: a `-` for a negative one, then its digits.
pub open spec fn int_text(n: int) -> Seq<char> {
    if n < 0 {
        seq!['-'] + decimal_text((-n) as nat)
    } else {
        decimal_text(n as nat)
    }
}

/// Relies on `ToString` for `i128`, which writes the integer in decimal.
#[verifier::external_body]
pub(crate) fn int_string(n: i128) -> (r: String)
    ensures
        r@ == int_text(n as int),
{
    n.to_string()
}

/// Relies on `String`'s `FromIterator<char>`: the string of these characters.
#[verifier::external_body]
pub(crate) fn string_of(v: &[char]) -> (r: String)
    ensures
        r@ == v@,
{
    v.iter().collect()
}

/// The characters `v[lo..hi]`.
pub fn sub_chars(v: &Vec<char>, lo: usize, hi: usize) -> (r: Vec<char>)
    requires
        lo <= hi <= v.len(),
    ensures
        r@ == v@.subrange(lo as int, hi as int),
{
    let mut r: Vec<char> = Vec::new();
    let mut i: usize = lo;
    while i < hi
        invariant
            lo <= i <= hi <= v.len(),
            r@ == v@.subrange(lo as int, i as int),
        decreases hi - i,
    {
        r.push(v[i]);
        i = i + 1;
        assert(r@ =~= v@.subrange(lo as int, i as int));
    }
    r
}

/// `n` spaces.
pub open spec fn spaces(n: int) -> Seq<char> {
    Seq::new(if n > 0 { n as nat } else { 0 }, |i: int| ' ')
}

/// `s` right-aligned in a field of `width` characters, as `{:>width}` writes it.
pub open spec fn pad_left(s: Seq<char>, width: int) -> Seq<char> {
    spaces(width - s.len()) + s
}

/// Writes `s` right-aligned in a field of `width` characters.
pub fn pad_left_string(s: &str, width: usize) -> (r: String)
    ensures
        r@ == pad_left(s@, width as int),
{
    let cs = chars_of(s);
    let mut out: Vec<char> = Vec::new();
    let mut i: usize = cs.len();
    while i < width
        invariant
            cs@ == s@,
            cs.len() <= i <= width || (i == cs.len() && i >= width),
            out@ == spaces(i - cs@.len()),
        decreases width - i,
    {
        out.push(' ');
        i = i + 1;
        assert(out@ =~= spaces(i - cs@.len()));
    }
    assert(out@ =~= spaces(width - cs@.len()));
    let mut r = string_of(out.as_slice());
    r.append(s);
    r
}

/// `s` left-aligned in a field of `width` characters, as `{:<width}` writes it.
pub open spec fn pad_right(s: Seq<char>, width: int) -> Seq<char> {
    s + spaces(width - s.len())
}

/// `s` centred in a field of `width` characters, as `{:^width}` writes it: of
/// an odd number of padding spaces, the extra one goes to the right.
pub open spec fn center(s: Seq<char>, width: int) -> Seq<char> {
    let pad = width - s.len();
    if pad <= 0 {
        s
    } else {
        spaces(pad / 2) + s + spaces(pad - pad / 2)
    }
}

/// A string of `n` spaces.
pub fn spaces_string(n: usize) -> (r: String)
    ensures
        r@ == spaces(n as int),
{
    let mut out: Vec<char> = Vec::new();
    while out.len() < n
        invariant
            out@.len() <= n,
            out@ == spaces(out@.len() as int),
        decreases n - out@.len(),
    {
        out.push(' ');
        assert(out@ =~= spaces(out@.len() as int));
    }
    string_of(out.as_slice())
}

/// Writes `s` left-aligned in a field of `width` characters.
pub fn pad_right_string(s: &str, width: usize) -> (r: String)
    ensures
        r@ == pad_right(s@, width as int),
{
    let n = chars_of(s).len();
    let mut r = String::from_str(s);
    let fill = if n < width {
        spaces_string(width - n)
    } else {
        String::new()
    };
    assert(n >= width ==> spaces(width - s@.len()) =~= Seq::<char>::empty());
    r.append(fill.as_str());
    r
}

/// Writes `s` centred in a field of `width` characters.
pub fn center_string(s: &str, width: usize) -> (r: String)
    ensures
        r@ == center(s@, width as int),
{
    let n = chars_of(s).len();
    if n >= width {
        return String::from_str(s);
    }
    let pad = width - n;
    let mut r = spaces_string(pad / 2);
    r.append(s);
    let right = spaces_string(pad - pad / 2);
    r.append(right.as_str());
    r
}

/// `prefix`, then `s` in double quotes.
pub open spec fn quoted(prefix: Seq<char>, s: Seq<char>) -> Seq<char> {
    prefix + seq!['"'] + s + seq!['"']
}

/// Writes `prefix`, then `s` in double quotes.
pub fn quoted_string(prefix: &str, s: &str) -> (r: String)
    ensures
        r@ == quoted(prefix@, s@),
{
    let mut r = String::from_str(prefix);
    r.append("\"");
    r.append(s);
    r.append("\"");
    proof {
        reveal_strlit("\"");
    }
    r
}

/// The texts of a sequence of strings.
pub open spec fn string_views(v: Seq<String>) -> Seq<Seq<char>> {
    v.map_values(|s: String| s@)
}

/// What `str::to_lowercase` makes of `s`.
pub uninterp spec fn lower_of(s: Seq<char>) -> Seq<char>;

/// Relies on `str::to_lowercase`: the result depends on the characters alone.
#[verifier::external_body]
pub(crate) fn lowercase(s: &str) -> (r: String)
    ensures
        r@ == lower_of(s@),
{
    s.to_lowercase()
}

} // verus!

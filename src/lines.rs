//! Lines of a byte stream, as `BufRead::read_line` delimits them: each line
//! ends just after a newline byte, and a last line may lack one.
use vstd::prelude::*;

verus! {

pub open spec fn newline_count(b: Seq<u8>) -> nat
    decreases b.len(),
{
    if b.len() == 0 {
        0
    } else {
        newline_count(b.drop_last()) + if b.last() == 10 {
            1nat
        } else {
            0nat
        }
    }
}

/// The number of lines in `b`: one per newline, and one more for trailing
/// bytes that no newline ends.
pub open spec fn line_count(b: Seq<u8>) -> nat {
    newline_count(b) + if b.len() > 0 && b.last() != 10 {
        1nat
    } else {
        0nat
    }
}

/// The number of bytes that reading `n` lines from the front of `b` consumes.
pub open spec fn skip_lines(b: Seq<u8>, n: nat) -> nat
    decreases b.len(),
{
    if n == 0 || b.len() == 0 {
        0
    } else if b[0] == 10 {
        1 + skip_lines(b.drop_first(), (n - 1) as nat)
    } else {
        1 + skip_lines(b.drop_first(), n)
    }
}

pub proof fn lemma_skip_lines_bound(b: Seq<u8>, n: nat)
    ensures
        skip_lines(b, n) <= b.len(),
    decreases b.len(),
{
    if n > 0 && b.len() > 0 {
        if b[0] == 10 {
            lemma_skip_lines_bound(b.drop_first(), (n - 1) as nat);
        } else {
            lemma_skip_lines_bound(b.drop_first(), n);
        }
    }
}

pub proof fn lemma_line_count_bound(b: Seq<u8>)
    ensures
        line_count(b) <= b.len(),
    decreases b.len(),
{
    if b.len() > 0 {
        lemma_newline_count_bound(b.drop_last());
    }
}

pub proof fn lemma_newline_count_bound(b: Seq<u8>)
    ensures
        newline_count(b) <= b.len(),
    decreases b.len(),
{
    if b.len() > 0 {
        lemma_newline_count_bound(b.drop_last());
    }
}

/// Counts the lines of `b`.
pub fn count_lines(b: &[u8]) -> (r: u64)
    ensures
        r == line_count(b@),
{
    let mut i: usize = 0;
    let mut n: u64 = 0;
    while i < b.len()
        invariant
            i <= b.len(),
            n == newline_count(b@.subrange(0, i as int)),
            n <= i,
        decreases b.len() - i,
    {
        assert(b@.subrange(0, i + 1).drop_last() =~= b@.subrange(0, i as int));
        if b[i] == 10 {
            n = n + 1;
        }
        i = i + 1;
    }
    assert(b@.subrange(0, i as int) =~= b@);
    if b.len() > 0 && b[b.len() - 1] != 10 {
        proof {
            lemma_newline_count_bound(b@.drop_last());
        }
        n + 1
    } else {
        n
    }
}

/// The byte offset at which line `n` (counted from 0) of `b` begins: the
/// length of `b` where it has no such line.
pub fn line_offset(b: &[u8], n: u64) -> (r: usize)
    ensures
        r == skip_lines(b@, n as nat),
        r <= b.len(),
{
    let mut i: usize = 0;
    let mut seen: u64 = 0;
    proof {
        assert(b@.subrange(0, b@.len() as int) =~= b@);
    }
    while seen < n && i < b.len()
        invariant
            i <= b.len(),
            seen <= n,
            i + skip_lines(b@.subrange(i as int, b@.len() as int), (n - seen) as nat) == skip_lines(
                b@,
                n as nat,
            ),
        decreases b.len() - i,
    {
        let ghost rest = b@.subrange(i as int, b@.len() as int);
        assert(rest.drop_first() =~= b@.subrange(i + 1, b@.len() as int));
        assert(rest[0] == b[i as int]);
        if b[i] == 10 {
            seen = seen + 1;
        }
        i = i + 1;
    }
    proof {
        lemma_skip_lines_bound(b@, n as nat);
    }
    i
}

} // verus!

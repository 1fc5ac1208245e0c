//! `head`: the count parser and how much of a stream is printed.
use vstd::prelude::*;
use crate::lines::skip_lines;
use crate::text::{literal_in, parse_usize};

verus! {

/// Parses a positive count; the error is the token itself.
pub fn parse_positive_int(val: &str) -> (r: Result<usize, String>)
    ensures
        match literal_in(val@, false, 1, usize::MAX as int) {
            Some(n) => r == Ok::<usize, String>(n as usize),
            None => r matches Err(e) && e@ == val@,
        },
{
    match parse_usize(val) {
        Some(n) => if n > 0 {
            Ok(n)
        } else {
            Err(String::from_str(val))
        },
        None => Err(String::from_str(val)),
    }
}

/// The number of leading bytes of `b` that make up its first `n` lines.
pub fn lines_end(b: &[u8], n: usize) -> (r: usize)
    ensures
        r == skip_lines(b@, n as nat),
        r <= b.len(),
{
    crate::lines::line_offset(b, n as u64)
}

/// The number of leading bytes of a stream of `len` bytes that `head` prints
/// when asked for `n` bytes.
pub fn bytes_end(len: usize, n: usize) -> (r: usize)
    ensures
        r == if n < len {
            n
        } else {
            len
        },
{
    if n < len {
        n
    } else {
        len
    }
}

} // verus!

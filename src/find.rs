//! `find`: the filters on the kind, name and depth of an entry.
use vstd::prelude::*;
use regex::Regex;
use crate::grep::is_match;

verus! {

/// A kind of directory entry that `find` can select.
#[derive(Clone, Copy, Debug, PartialEq, Eq, Structural)]
pub enum EntryType {
    Dir,
    File,
    Link,
}

pub open spec fn kind_matches(t: EntryType, is_dir: bool, is_file: bool, is_link: bool) -> bool {
    match t {
        EntryType::Dir => is_dir,
        EntryType::File => is_file,
        EntryType::Link => is_link,
    }
}

/// Whether an entry of the given kind passes the type filter: an empty list
/// lets every entry through.
pub fn type_matches(types: &[EntryType], is_dir: bool, is_file: bool, is_link: bool) -> (r: bool)
    ensures
        r == (types@.len() == 0 || exists|i: int|
            0 <= i < types@.len() && kind_matches(#[trigger] types@[i], is_dir, is_file, is_link)),
{
    if types.len() == 0 {
        return true;
    }
    let mut i: usize = 0;
    while i < types.len()
        invariant
            i <= types.len(),
            forall|j: int| 0 <= j < i ==> !kind_matches(#[trigger] types@[j], is_dir, is_file, is_link),
        decreases types.len() - i,
    {
        let hit = match types[i] {
            EntryType::Dir => is_dir,
            EntryType::File => is_file,
            EntryType::Link => is_link,
        };
        if hit {
            return true;
        }
        i = i + 1;
    }
    false
}

/// Whether an entry at `depth` is within the optional maximum depth.
pub fn depth_matches(max_depth: Option<usize>, depth: usize) -> (r: bool)
    ensures
        r == match max_depth {
            None => true,
            Some(m) => depth <= m,
        },
{
    match max_depth {
        None => true,
        Some(m) => depth <= m,
    }
}

/// Whether an entry's name passes the name filter: some pattern matches it,
/// or there are no patterns.
pub fn name_matches(names: &[Regex], name: &str) -> (r: bool)
    ensures
        names@.len() == 0 ==> r,
{
    if names.len() == 0 {
        return true;
    }
    let mut i: usize = 0;
    while i < names.len()
        invariant
            i <= names.len(),
        decreases names.len() - i,
    {
        if is_match(&names[i], name) {
            return true;
        }
        i = i + 1;
    }
    false
}

} // verus!

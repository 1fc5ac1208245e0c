//! Verified logic of a set of small Unix text utilities: offset arithmetic for
//! `tail`, counting for `wc`, range extraction for `cut`, calendar layout for
//! `cal`, and the argument parsers they share.
pub mod cal;
pub mod cat;
pub mod comm;
pub mod cut;
pub mod find;
pub mod fortune;
pub mod grep;
pub mod head;
pub mod lines;
pub mod ls;
pub mod tail;
pub mod text;
pub mod uniq;
pub mod wc;

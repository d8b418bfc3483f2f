//! Hardware discovery: what the files under `/proc` and `/sys` say.
//!
//! The probes are given the contents of the files; reading them is up to the
//! caller.
use crate::bytes::utf8_text;
use crate::scan::{cut, split_once, trim, trimmed};
use crate::text::chars_of;
use vstd::prelude::*;
use vstd::utf8::{decode_utf8, valid_utf8};

pub mod cpu;
pub mod gpu;
pub mod load;
pub mod mem;
pub mod numa;
pub mod pci;
pub mod proc_laws;
pub mod sysfs_laws;

verus! {

/// The text of a file: its content without the white space around it, if it is
/// UTF-8.
pub open spec fn file_text(content: Seq<u8>) -> Option<Seq<char>> {
    if valid_utf8(content) {
        Some(trimmed(decode_utf8(content)))
    } else {
        None
    }
}

/// The text of a file. Many `/proc` and `/sys` files are single-line; this is
/// the common case.
pub fn read_string(content: &[u8]) -> (r: Option<Vec<char>>)
    ensures
        match file_text(content@) {
            None => r is None,
            Some(t) => r is Some && r->Some_0@ == t,
        },
{
    match utf8_text(content) {
        None => None,
        Some(s) => Some(trim(&chars_of(s.as_str()))),
    }
}

/// The key and the value of a line: the text before and after its first colon.
pub open spec fn field(line: Seq<char>) -> Option<(Seq<char>, Seq<char>)> {
    match split_once(trimmed(line), ':') {
        None => None,
        Some((k, v)) => Some((trimmed(k), trimmed(v))),
    }
}

/// The key and the value of a line.
pub fn field_of(line: &Vec<char>) -> (r: Option<(Vec<char>, Vec<char>)>)
    ensures
        match field(line@) {
            None => r is None,
            Some((k, v)) => r is Some && r->Some_0.0@ == k && r->Some_0.1@ == v,
        },
{
    match cut(&trim(line), ':') {
        None => None,
        Some((k, v)) => Some((trim(&k), trim(&v))),
    }
}

} // verus!

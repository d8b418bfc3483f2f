//! PCI address to `(major, minor)` resolution: the `MAJOR=`/`MINOR=` lines that
//! the kernel emits for char devices in
//! `/sys/bus/pci/devices/<bdf>/uevent`.
use crate::bytes::utf8_text;
use crate::cap::broker::BdfAddr;
use crate::scan::{dec_u32, lines, parse_u32, pieces, split_lines, strip, strip_prefix, trim, trimmed};
use crate::text::chars_of;
use vstd::prelude::*;
use vstd::string::StringExecFns;
use vstd::utf8::{decode_utf8, valid_utf8};

verus! {

/// Where the device's `uevent` file is, from the root.
pub open spec fn uevent_path(bdf: BdfAddr) -> Seq<char> {
    "sys/bus/pci/devices/"@ + bdf.text() + "/uevent"@
}

/// Where the device's `uevent` file is, from the root.
pub fn uevent_rel(bdf: BdfAddr) -> (p: String)
    ensures
        p@ == uevent_path(bdf),
{
    let mut p = "sys/bus/pci/devices/".to_owned();
    p.append(bdf.to_string().as_str());
    p.append("/uevent");
    p
}

/// The number that the last line with the prefix gives.
pub open spec fn last_assigned(ls: Seq<Seq<char>>, prefix: Seq<char>) -> Option<u32>
    decreases ls.len(),
{
    if ls.len() == 0 {
        None
    } else {
        match strip(ls.last(), prefix) {
            Some(v) => dec_u32(trimmed(v)),
            None => last_assigned(ls.drop_last(), prefix),
        }
    }
}

/// The device numbers in the text of a `uevent` file, if it has both.
pub open spec fn device_numbers(raw: Seq<char>) -> Option<(u32, u32)> {
    match (last_assigned(lines(raw), "MAJOR="@), last_assigned(lines(raw), "MINOR="@)) {
        (Some(major), Some(minor)) => Some((major, minor)),
        _ => None,
    }
}

fn find_assigned(ls: &Vec<Vec<char>>, prefix: &str) -> (r: Option<u32>)
    ensures
        r == last_assigned(pieces(ls@), prefix@),
{
    let ghost all = pieces(ls@);
    let p = chars_of(prefix);
    let mut i: usize = ls.len();
    assert(all.take(i as int) =~= all);
    while i > 0
        invariant
            i <= ls@.len(),
            all == pieces(ls@),
            p@ == prefix@,
            last_assigned(all, prefix@) == last_assigned(all.take(i as int), prefix@),
        decreases i,
    {
        i = i - 1;
        let ghost now = all.take(i + 1);
        assert(now.last() == ls@[i as int]@);
        assert(now.drop_last() =~= all.take(i as int));
        if let Some(v) = strip_prefix(&ls[i], &p) {
            return parse_u32(&trim(&v));
        }
    }
    None
}

/// The device numbers in the text of a `uevent` file.
pub fn parse_uevent(raw: &str) -> (r: Option<(u32, u32)>)
    ensures
        r == device_numbers(raw@),
{
    let ls = split_lines(&chars_of(raw));
    let major = find_assigned(&ls, "MAJOR=");
    let minor = find_assigned(&ls, "MINOR=");
    match (major, minor) {
        (Some(a), Some(b)) => Some((a, b)),
        _ => None,
    }
}

/// The device numbers of a device whose `uevent` file has the given content;
/// none where it could not be read, is no text or does not name both.
pub fn resolve_bdf(uevent: &Option<Vec<u8>>) -> (r: Option<(u32, u32)>)
    ensures
        r == match *uevent {
            Some(c) => if valid_utf8(c@) {
                device_numbers(decode_utf8(c@))
            } else {
                None
            },
            None => None,
        },
{
    match uevent {
        Some(c) => match utf8_text(c.as_slice()) {
            Some(raw) => parse_uevent(raw.as_str()),
            None => None,
        },
        None => None,
    }
}

} // verus!

//! Which NVIDIA device nodes there are.
use crate::order::{dedup_u32, increasing, sort_u32};
use crate::scan::{dec_u32, parse_u32, strip, strip_prefix};
use crate::text::chars_of;
use vstd::prelude::*;

verus! {

/// Whether all characters are ASCII digits.
pub open spec fn all_digits(s: Seq<char>) -> bool {
    forall|i: int| 0 <= i < s.len() ==> 48 <= (#[trigger] s[i] as u32) <= 57
}

/// The minor of a numbered node such as `nvidia0`. Others, such as
/// `nvidia-uvm` and `nvidiactl`, have none.
pub open spec fn minor_of(name: Seq<char>) -> Option<u32> {
    match strip(name, "nvidia"@) {
        Some(rest) => if rest.len() > 0 && all_digits(rest) {
            dec_u32(rest)
        } else {
            None
        },
        None => None,
    }
}

fn has_only_digits(v: &Vec<char>) -> (r: bool)
    ensures
        r == all_digits(v@),
{
    let mut i: usize = 0;
    while i < v.len()
        invariant
            i <= v@.len(),
            forall|k: int| 0 <= k < i ==> 48 <= (#[trigger] v@[k] as u32) <= 57,
        decreases v@.len() - i,
    {
        let c: u32 = v[i] as u32;
        if c < 48 || c > 57 {
            assert(!(48 <= (v@[i as int] as u32) <= 57));
            return false;
        }
        i = i + 1;
    }
    true
}

/// The minors among the names of the entries of `/dev`, smallest first, each
/// once.
pub fn list_nvidia_minors(names: &Vec<String>) -> (r: Vec<u32>)
    ensures
        increasing(r@),
        forall|n: u32|
            r@.contains(n) <==> exists|i: int|
                0 <= i < names@.len() && minor_of(#[trigger] names@[i]@) == Some(n),
{
    let prefix = chars_of("nvidia");
    let mut out: Vec<u32> = Vec::new();
    let mut i: usize = 0;
    while i < names.len()
        invariant
            i <= names@.len(),
            prefix@ == "nvidia"@,
            forall|n: u32|
                out@.contains(n) <==> exists|k: int|
                    0 <= k < i && minor_of(#[trigger] names@[k]@) == Some(n),
        decreases names@.len() - i,
    {
        let ghost was = out@;
        let mut found: Option<u32> = None;
        if let Some(rest) = strip_prefix(&chars_of(names[i].as_str()), &prefix) {
            if rest.len() > 0 && has_only_digits(&rest) {
                found = parse_u32(&rest);
            }
        }
        assert(found == minor_of(names@[i as int]@));
        if let Some(n) = found {
            out.push(n);
        }
        assert forall|n: u32|
            out@.contains(n) <==> exists|k: int|
                0 <= k < i + 1 && minor_of(#[trigger] names@[k]@) == Some(n) by {
            if was.contains(n) {
                let k = choose|k: int| 0 <= k < i && minor_of(#[trigger] names@[k]@) == Some(n);
                assert(0 <= k < i + 1 && minor_of(names@[k]@) == Some(n));
                let m = choose|m: int| 0 <= m < was.len() && was[m] == n;
                assert(out@[m] == n);
            }
            if found == Some(n) {
                assert(0 <= i < i + 1 && minor_of(names@[i as int]@) == Some(n));
                assert(out@[out@.len() - 1] == n);
            }
            if out@.contains(n) && !was.contains(n) {
                let m = choose|m: int| 0 <= m < out@.len() && out@[m] == n;
                if m < was.len() {
                    assert(was[m] == n);
                }
                assert(found == Some(n));
            }
        }
        i = i + 1;
    }
    let sorted = sort_u32(&out);
    proof {
        broadcast use vstd::seq_lib::group_to_multiset_ensures;

        assert forall|n: u32| sorted@.contains(n) <==> out@.contains(n) by {
            assert(sorted@.to_multiset().count(n) == out@.to_multiset().count(n));
        }
    }
    dedup_u32(&sorted)
}

} // verus!

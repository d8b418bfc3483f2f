//! NUMA topology probe for `/sys/devices/system/node/node*`.
use crate::ad::discovery::{file_text, read_string};
use crate::ad::schema::NumaNode;
use crate::order::{ascending, dedup_u32, increasing, sort_u32};
use crate::scan::{
    after_first, before_first, cut, dec_u32, dec_u64, find_after, find_before, first_word, lines,
    parse_u32, parse_u64, pieces, split, split_all, split_lines, split_once, split_words, strip,
    strip_prefix, trim, trimmed,
};
use crate::text::chars_of;
use std::collections::BTreeSet;
use vstd::prelude::*;
use vstd::std_specs::iter::IteratorSpec;

verus! {

broadcast use vstd::std_specs::btree::group_btree_axioms;

/// The number of the node that a directory entry is for.
pub open spec fn node_number(entry: Seq<char>) -> Option<u32> {
    match strip(entry, "node"@) {
        Some(n) => dec_u32(n),
        None => None,
    }
}

/// The numbers of the nodes that the entries are for, in the entries' order.
pub open spec fn node_numbers(entries: Seq<String>) -> Seq<u32>
    decreases entries.len(),
{
    if entries.len() == 0 {
        Seq::empty()
    } else {
        match node_number(entries.last()@) {
            Some(n) => node_numbers(entries.drop_last()).push(n),
            None => node_numbers(entries.drop_last()),
        }
    }
}

/// The numbers of the nodes among the entries of the node directory, smallest
/// first.
pub fn node_ids(entries: &Vec<String>) -> (r: Vec<u32>)
    ensures
        ascending(r@),
        r@.to_multiset() == node_numbers(entries@).to_multiset(),
{
    let mut ids: Vec<u32> = Vec::new();
    let prefix = chars_of("node");
    let mut i: usize = 0;
    assert(entries@.take(0) =~= Seq::empty());
    while i < entries.len()
        invariant
            i <= entries@.len(),
            prefix@ == "node"@,
            ids@ == node_numbers(entries@.take(i as int)),
        decreases entries@.len() - i,
    {
        assert(entries@.take(i + 1).drop_last() =~= entries@.take(i as int));
        assert(entries@.take(i + 1).last() == entries@[i as int]);
        if let Some(n) = strip_prefix(&chars_of(entries[i].as_str()), &prefix) {
            if let Some(id) = parse_u32(&n) {
                ids.push(id);
            }
        }
        i = i + 1;
    }
    assert(entries@.take(i as int) =~= entries@);
    sort_u32(&ids)
}

/// Whether a chunk of a cpulist, a number or a range, has the CPU.
pub open spec fn in_chunk(chunk: Seq<char>, c: u32) -> bool {
    let t = trimmed(chunk);
    match split_once(t, '-') {
        Some((lo, hi)) => match (dec_u32(trimmed(lo)), dec_u32(trimmed(hi))) {
            (Some(lo), Some(hi)) => lo <= c <= hi,
            _ => false,
        },
        None => dec_u32(t) == Some(c),
    }
}

/// Whether a cpulist such as `0-7,16-23` has the CPU.
pub open spec fn listed(raw: Seq<char>, c: u32) -> bool {
    exists|i: int| 0 <= i < split(raw, ',').len() && in_chunk(#[trigger] split(raw, ',')[i], c)
}

/// Adds the CPUs of a chunk.
fn add_chunk(out: &mut BTreeSet<u32>, chunk: &Vec<char>)
    ensures
        forall|c: u32|
            final(out)@.contains(c) <==> old(out)@.contains(c) || in_chunk(chunk@, c),
{
    let t = trim(chunk);
    match cut(&t, '-') {
        Some((lo, hi)) => {
            let lo = parse_u32(&trim(&lo));
            let hi = parse_u32(&trim(&hi));
            if let Some(first) = lo {
                if let Some(last) = hi {
                    let mut c: u64 = first as u64;
                    while c <= last as u64
                        invariant
                            first <= c,
                            c <= last as u64 + 1 || c == first,
                            forall|x: u32|
                                out@.contains(x) <==> old(out)@.contains(x) || first <= x < c,
                        decreases last as u64 + 1 - c,
                    {
                        out.insert(c as u32);
                        c = c + 1;
                    }
                }
            }
        },
        None => {
            if let Some(v) = parse_u32(&t) {
                out.insert(v);
            }
        },
    }
}

/// Parse a Linux cpulist string like `"0-7,16-23"` or `"0,2,4-7"` into a
/// sorted unique list. Out-of-order or overlapping ranges are flattened.
pub fn parse_cpulist(raw: &str) -> (r: Vec<u32>)
    ensures
        increasing(r@),
        forall|c: u32| r@.contains(c) <==> listed(raw@, c),
{
    read_cpulist(&chars_of(raw))
}

fn read_cpulist(raw: &Vec<char>) -> (r: Vec<u32>)
    ensures
        increasing(r@),
        forall|c: u32| r@.contains(c) <==> listed(raw@, c),
{
    let chunks = split_all(raw, ',');
    let ghost all = pieces(chunks@);
    let mut set: BTreeSet<u32> = BTreeSet::new();
    let mut i: usize = 0;
    while i < chunks.len()
        invariant
            i <= chunks@.len(),
            all == pieces(chunks@),
            forall|c: u32|
                set@.contains(c) <==> exists|k: int| 0 <= k < i && in_chunk(#[trigger] all[k], c),
        decreases chunks@.len() - i,
    {
        let ghost was = set@;
        add_chunk(&mut set, &chunks[i]);
        assert forall|c: u32|
            set@.contains(c) <==> exists|k: int| 0 <= k < i + 1 && in_chunk(#[trigger] all[k], c) by {
            assert(all[i as int] == chunks@[i as int]@);
            if was.contains(c) {
                let k = choose|k: int| 0 <= k < i && in_chunk(#[trigger] all[k], c);
                assert(0 <= k < i + 1 && in_chunk(all[k], c));
            }
            if in_chunk(chunks@[i as int]@, c) {
                assert(0 <= i < i + 1 && in_chunk(all[i as int], c));
            }
        }
        i = i + 1;
    }
    set_to_list(&set)
}

/// The members of the set, smallest first.
fn set_to_list(set: &BTreeSet<u32>) -> (r: Vec<u32>)
    ensures
        increasing(r@),
        forall|c: u32| r@.contains(c) <==> set@.contains(c),
{
    let mut out: Vec<u32> = Vec::new();
    let items = set.iter();
    let ghost all = items.remaining();
    let ghost keys = all.unref();
    for c in it: items
        invariant
            it.seq() == all,
            out@.len() == it.index(),
            forall|i: int| 0 <= i < it.index() ==> out@[i] == *all[i],
    {
        out.push(*c);
    }
    let r = sort_u32(&out);
    proof {
        assert(out@ =~= keys);
        assert forall|c: u32| r@.contains(c) <==> set@.contains(c) by {
            broadcast use vstd::seq_lib::group_to_multiset_ensures;

            assert(keys.to_set().contains(c) <==> keys.contains(c));
            assert(r@.to_multiset().count(c) == out@.to_multiset().count(c));
        }
    }
    dedup_u32(&r)
}

/// The memory of a node: the number behind `MemTotal:` on the first line that
/// has it.
pub open spec fn mem_total_kb(ls: Seq<Seq<char>>) -> Option<u64>
    decreases ls.len(),
{
    if ls.len() == 0 {
        None
    } else {
        match after_first(ls[0], "MemTotal:"@) {
            Some(rest) => match first_word(before_first(rest, "MemTotal:"@)) {
                Some(w) => dec_u64(w),
                None => None,
            },
            None => mem_total_kb(ls.skip(1)),
        }
    }
}

/// Lines look like `Node 0 MemTotal:       262144000 kB`.
fn parse_node_mem_total_kb(raw: &Vec<char>) -> (r: Option<u64>)
    ensures
        r == mem_total_kb(lines(raw@)),
{
    let ls = split_lines(raw);
    let ghost all = pieces(ls@);
    let key = chars_of("MemTotal:");
    let mut i: usize = 0;
    assert(all.skip(0) =~= all);
    while i < ls.len()
        invariant
            i <= ls@.len(),
            all == pieces(ls@),
            all == lines(raw@),
            key@ == "MemTotal:"@,
            mem_total_kb(all) == mem_total_kb(all.skip(i as int)),
        decreases ls@.len() - i,
    {
        assert(all.skip(i as int)[0] == ls@[i as int]@);
        assert(all.skip(i as int).skip(1) =~= all.skip(i + 1));
        if let Some(rest) = find_after(&ls[i], &key) {
            let ws = split_words(&find_before(&rest, &key));
            if ws.len() == 0 {
                return None;
            }
            assert(pieces(ws@)[0] == ws@[0]@);
            return parse_u64(&ws[0]);
        }
        i = i + 1;
    }
    None
}

/// What was read of one node: its number, and the contents of its `cpulist` and
/// `meminfo` where they could be read.
pub struct NumaReading {
    pub id: u32,
    pub cpulist: Option<Vec<u8>>,
    pub meminfo: Option<Vec<u8>>,
}

/// The text of a file that may be missing.
pub open spec fn optional_text(content: Option<Vec<u8>>) -> Option<Seq<char>> {
    match content {
        Some(c) => file_text(c@),
        None => None,
    }
}

/// Whether the node's own list has the CPU.
pub open spec fn claims(n: NumaReading, c: u32) -> bool {
    match optional_text(n.cpulist) {
        Some(raw) => listed(raw, c),
        None => false,
    }
}

/// The node's memory in whole megabytes, zero where it cannot be told.
pub open spec fn node_mem_mb(n: NumaReading) -> u64 {
    match optional_text(n.meminfo) {
        Some(raw) => match mem_total_kb(lines(raw)) {
            Some(kb) => (kb / 1024) as u64,
            None => 0,
        },
        None => 0,
    }
}

/// Whether the CPU belongs to the `i`-th node: the first that lists it.
pub open spec fn belongs(ns: Seq<NumaReading>, i: int, c: u32) -> bool {
    claims(ns[i], c) && forall|j: int| 0 <= j < i ==> !claims(#[trigger] ns[j], c)
}

fn optional_chars(content: &Option<Vec<u8>>) -> (r: Option<Vec<char>>)
    ensures
        match optional_text(*content) {
            None => r is None,
            Some(t) => r is Some && r->Some_0@ == t,
        },
{
    match content {
        Some(c) => read_string(c.as_slice()),
        None => None,
    }
}

fn read_cpus(n: &NumaReading) -> (r: Vec<u32>)
    ensures
        increasing(r@),
        forall|c: u32| r@.contains(c) <==> claims(*n, c),
{
    match optional_chars(&n.cpulist) {
        Some(raw) => read_cpulist(&raw),
        None => {
            let none: Vec<u32> = Vec::new();
            none
        },
    }
}

fn read_mem_mb(n: &NumaReading) -> (r: u64)
    ensures
        r == node_mem_mb(*n),
{
    match optional_chars(&n.meminfo) {
        Some(raw) => match parse_node_mem_total_kb(&raw) {
            Some(kb) => kb / 1024,
            None => 0,
        },
        None => 0,
    }
}

/// Keeps the CPUs that were not seen yet, and marks them as seen.
fn take_unseen(cpus: &Vec<u32>, seen: &mut BTreeSet<u32>) -> (r: Vec<u32>)
    requires
        increasing(cpus@),
    ensures
        increasing(r@),
        forall|c: u32| r@.contains(c) <==> cpus@.contains(c) && !old(seen)@.contains(c),
        forall|c: u32| final(seen)@.contains(c) <==> old(seen)@.contains(c) || cpus@.contains(c),
{
    let mut out: Vec<u32> = Vec::new();
    let mut i: usize = 0;
    while i < cpus.len()
        invariant
            i <= cpus@.len(),
            increasing(cpus@),
            increasing(out@),
            forall|k: int| 0 <= k < out@.len() ==> exists|j: int| 0 <= j < i && cpus@[j] == #[trigger] out@[k],
            forall|k: int| 0 <= k < out@.len() ==> !old(seen)@.contains(#[trigger] out@[k]),
            forall|j: int|
                0 <= j < i ==> old(seen)@.contains(#[trigger] cpus@[j]) || out@.contains(cpus@[j]),
            forall|c: u32|
                seen@.contains(c) <==> old(seen)@.contains(c) || exists|j: int|
                    0 <= j < i && #[trigger] cpus@[j] == c,
        decreases cpus@.len() - i,
    {
        let c: u32 = cpus[i];
        let ghost was = out@;
        let ghost had = seen@;
        assert(!had.contains(c) || old(seen)@.contains(c)) by {
            if had.contains(c) && !old(seen)@.contains(c) {
                let j = choose|j: int| 0 <= j < i && #[trigger] cpus@[j] == c;
                assert(cpus@[j] < cpus@[i as int]);
            }
        }
        if seen.insert(c) {
            out.push(c);
            assert(out@[out@.len() - 1] == c);
            assert forall|j: int| 0 <= j < i implies old(seen)@.contains(#[trigger] cpus@[j])
                || out@.contains(cpus@[j]) by {
                if was.contains(cpus@[j]) {
                    let k = choose|k: int| 0 <= k < was.len() && was[k] == cpus@[j];
                    assert(out@[k] == cpus@[j]);
                }
            }
        }
        assert forall|x: u32|
            seen@.contains(x) <==> old(seen)@.contains(x) || exists|j: int|
                0 <= j < i + 1 && #[trigger] cpus@[j] == x by {
            if had.contains(x) && !old(seen)@.contains(x) {
                let j = choose|j: int| 0 <= j < i && #[trigger] cpus@[j] == x;
                assert(0 <= j < i + 1 && cpus@[j] == x);
            }
            if x == c {
                assert(cpus@[i as int] == x);
            }
        }
        i = i + 1;
    }
    out
}

/// The nodes as they were read, each online CPU in at most one: a CPU that is
/// listed twice stays with the first node.
pub fn topology(readings: &Vec<NumaReading>) -> (r: Vec<NumaNode>)
    ensures
        r@.len() == readings@.len(),
        forall|i: int|
            0 <= i < r@.len() ==> (#[trigger] r@[i]).id == readings@[i].id && r@[i].mem_total_mb
                == node_mem_mb(readings@[i]) && increasing(r@[i].cpus@),
        forall|i: int, c: u32|
            0 <= i < r@.len() ==> (#[trigger] r@[i].cpus@.contains(c) <==> belongs(
                readings@,
                i,
                c,
            )),
{
    let mut nodes: Vec<NumaNode> = Vec::new();
    let mut seen: BTreeSet<u32> = BTreeSet::new();
    let mut i: usize = 0;
    while i < readings.len()
        invariant
            i <= readings@.len(),
            nodes@.len() == i,
            forall|k: int|
                0 <= k < i ==> (#[trigger] nodes@[k]).id == readings@[k].id && nodes@[k].mem_total_mb
                    == node_mem_mb(readings@[k]) && increasing(nodes@[k].cpus@),
            forall|k: int, c: u32|
                0 <= k < i ==> (#[trigger] nodes@[k].cpus@.contains(c) <==> belongs(
                    readings@,
                    k,
                    c,
                )),
            forall|c: u32|
                seen@.contains(c) <==> exists|k: int| 0 <= k < i && claims(#[trigger] readings@[k], c),
        decreases readings@.len() - i,
    {
        let ghost had = seen@;
        let cpus = read_cpus(&readings[i]);
        let own = take_unseen(&cpus, &mut seen);
        let mem_total_mb: u64 = read_mem_mb(&readings[i]);
        proof {
            assert forall|c: u32| own@.contains(c) <==> belongs(readings@, i as int, c) by {
                if had.contains(c) {
                    let k = choose|k: int| 0 <= k < i && claims(#[trigger] readings@[k], c);
                    assert(!belongs(readings@, i as int, c));
                }
            }
            assert forall|c: u32|
                seen@.contains(c) <==> exists|k: int|
                    0 <= k < i + 1 && claims(#[trigger] readings@[k], c) by {
                if had.contains(c) {
                    let k = choose|k: int| 0 <= k < i && claims(#[trigger] readings@[k], c);
                    assert(0 <= k < i + 1 && claims(readings@[k], c));
                }
                if cpus@.contains(c) {
                    assert(claims(readings@[i as int], c));
                }
            }
        }
        nodes.push(NumaNode { id: readings[i].id, cpus: own, mem_total_mb });
        i = i + 1;
    }
    nodes
}

/// A CPU is in no two nodes.
pub proof fn law_one_node_per_cpu(ns: Seq<NumaReading>, i: int, j: int, c: u32)
    requires
        0 <= i < ns.len(),
        0 <= j < ns.len(),
        belongs(ns, i, c),
        belongs(ns, j, c),
    ensures
        i == j,
{
}

/// A CPU that some node lists is in one.
pub proof fn law_listed_cpu_kept(ns: Seq<NumaReading>, k: int, c: u32)
    requires
        0 <= k < ns.len(),
        claims(ns[k], c),
    ensures
        exists|i: int| 0 <= i <= k && belongs(ns, i, c),
    decreases k,
{
    if forall|j: int| 0 <= j < k ==> !claims(#[trigger] ns[j], c) {
        assert(belongs(ns, k, c));
    } else {
        let j = choose|j: int| 0 <= j < k && claims(#[trigger] ns[j], c);
        law_listed_cpu_kept(ns, j, c);
        let i = choose|i: int| 0 <= i <= j && belongs(ns, i, c);
        assert(0 <= i <= k && belongs(ns, i, c));
    }
}

} // verus!

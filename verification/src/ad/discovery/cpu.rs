//! Static CPU info probe. Looks in `/proc/cpuinfo` for vendor / model / freq
//! and counts the different `(physical id, core id)` pairs to recover physical
//! core and socket counts.
//!
//! The number of cores online and the architecture do not come from the file:
//! the caller supplies them.
use crate::ad::discovery::{field, field_of, file_text, read_string};
use crate::ad::schema::{CpuInfo, CpuInfoView};
use crate::scan::{dec_u32, lines, parse_u32, pieces, split, split_all, split_lines, trim, trimmed};
use crate::text::{spells, text_of};
use std::collections::HashSet;
use vstd::prelude::*;

verus! {

broadcast use vstd::std_specs::hash::group_hash_axioms;

/// Whether a line has nothing but white space.
pub open spec fn blank(line: Seq<char>) -> bool {
    trimmed(line).len() == 0
}

/// The position of the first blank line, or the number of lines.
pub open spec fn first_blank(ls: Seq<Seq<char>>) -> int
    decreases ls.len(),
{
    if ls.len() == 0 || blank(ls[0]) {
        0
    } else {
        1 + first_blank(ls.skip(1))
    }
}

/// The records of the file, one for each logical processor: the lines between
/// blank lines.
pub open spec fn records(ls: Seq<Seq<char>>) -> Seq<Seq<Seq<char>>>
    decreases ls.len(),
{
    let i = first_blank(ls);
    if 0 <= i < ls.len() {
        seq![ls.take(i)] + records(ls.skip(i + 1))
    } else {
        seq![ls]
    }
}

/// The number that the last line with the key gives.
pub open spec fn last_number(rec: Seq<Seq<char>>, key: Seq<char>) -> Option<u32>
    decreases rec.len(),
{
    if rec.len() == 0 {
        None
    } else {
        match field(rec.last()) {
            Some((k, v)) => if k == key {
                dec_u32(v)
            } else {
                last_number(rec.drop_last(), key)
            },
            None => last_number(rec.drop_last(), key),
        }
    }
}

/// The first value that is not empty of a line with the key.
pub open spec fn first_text(rec: Seq<Seq<char>>, key: Seq<char>) -> Seq<char>
    decreases rec.len(),
{
    if rec.len() == 0 {
        Seq::empty()
    } else {
        match field(rec[0]) {
            Some((k, v)) => if k == key && v.len() > 0 {
                v
            } else {
                first_text(rec.skip(1), key)
            },
            None => first_text(rec.skip(1), key),
        }
    }
}

/// The whole MHz of a value such as `2700.000`, or zero.
pub open spec fn whole_mhz(v: Seq<char>) -> u32 {
    match dec_u32(split(v, '.')[0]) {
        Some(n) => n,
        None => 0,
    }
}

/// The first frequency that is not zero.
pub open spec fn first_mhz(rec: Seq<Seq<char>>) -> u32
    decreases rec.len(),
{
    if rec.len() == 0 {
        0
    } else {
        match field(rec[0]) {
            Some((k, v)) => if k == "cpu MHz"@ && whole_mhz(v) != 0 {
                whole_mhz(v)
            } else {
                first_mhz(rec.skip(1))
            },
            None => first_mhz(rec.skip(1)),
        }
    }
}

/// A core of a package as one number.
pub open spec fn core_key(package: u32, core: u32) -> u64 {
    (package * 0x1_0000_0000 + core) as u64
}

/// The package and core that a record names, if it names both.
pub open spec fn core_of(rec: Seq<Seq<char>>) -> Option<(u32, u32)> {
    match (last_number(rec, "physical id"@), last_number(rec, "core id"@)) {
        (Some(p), Some(c)) => Some((p, c)),
        _ => None,
    }
}

/// The different cores that the records name.
pub open spec fn cores(recs: Seq<Seq<Seq<char>>>) -> Set<u64>
    decreases recs.len(),
{
    if recs.len() == 0 {
        Set::empty()
    } else {
        match core_of(recs.last()) {
            Some((p, c)) => cores(recs.drop_last()).insert(core_key(p, c)),
            None => cores(recs.drop_last()),
        }
    }
}

/// The different packages that the records name.
pub open spec fn packages(recs: Seq<Seq<Seq<char>>>) -> Set<u32>
    decreases recs.len(),
{
    if recs.len() == 0 {
        Set::empty()
    } else {
        match core_of(recs.last()) {
            Some((p, _)) => packages(recs.drop_last()).insert(p),
            None => packages(recs.drop_last()),
        }
    }
}

/// What the text of `/proc/cpuinfo` says. Vendor, model and frequency come from
/// the first record. Where no record names its core, every online core counts
/// as one; where none names its package there is one.
pub open spec fn cpu_info(raw: Seq<char>, cores_online: u32, arch: Seq<char>) -> CpuInfoView {
    let recs = records(lines(raw));
    let n = cores(recs).len();
    let sockets = packages(recs).len();
    CpuInfoView {
        cores_online,
        cores_physical: if n == 0 {
            cores_online
        } else {
            (n % 0x1_0000_0000) as u32
        },
        sockets: if sockets == 0 {
            1
        } else {
            (sockets % 0x1_0000_0000) as u32
        },
        model: first_text(recs[0], "model name"@),
        vendor: first_text(recs[0], "vendor_id"@),
        arch,
        mhz: first_mhz(recs[0]),
    }
}

fn is_blank(line: &Vec<char>) -> (r: bool)
    ensures
        r == blank(line@),
{
    trim(line).len() == 0
}

proof fn lemma_first_blank(ls: Seq<Seq<char>>, i: int)
    requires
        0 <= i <= ls.len(),
        forall|k: int| 0 <= k < i ==> !blank(#[trigger] ls[k]),
        i < ls.len() ==> blank(ls[i]),
    ensures
        first_blank(ls) == i,
    decreases i,
{
    if i > 0 {
        let t = ls.skip(1);
        assert forall|k: int| 0 <= k < i - 1 implies !blank(#[trigger] t[k]) by {
            assert(t[k] == ls[k + 1]);
        }
        lemma_first_blank(t, i - 1);
    }
}

/// The end of the record that starts at `from`.
fn record_end(ls: &Vec<Vec<char>>, from: usize) -> (i: usize)
    requires
        from <= ls@.len(),
    ensures
        from <= i <= ls@.len(),
        first_blank(pieces(ls@).skip(from as int)) == i - from,
{
    let ghost t = pieces(ls@).skip(from as int);
    let mut i: usize = from;
    while i < ls.len() && !is_blank(&ls[i])
        invariant
            from <= i <= ls@.len(),
            t == pieces(ls@).skip(from as int),
            forall|k: int| 0 <= k < i - from ==> !blank(#[trigger] t[k]),
        decreases ls@.len() - i,
    {
        assert(t[i - from] == ls@[i as int]@);
        i = i + 1;
    }
    assert(i < ls@.len() ==> t[i - from] == ls@[i as int]@);
    proof {
        lemma_first_blank(t, i - from);
    }
    i
}

fn number_in(ls: &Vec<Vec<char>>, from: usize, to: usize, key: &str) -> (r: Option<u32>)
    requires
        from <= to <= ls@.len(),
    ensures
        r == last_number(pieces(ls@).subrange(from as int, to as int), key@),
{
    let ghost rec = pieces(ls@).subrange(from as int, to as int);
    let mut i: usize = to;
    assert(rec.take(to - from) =~= rec);
    while i > from
        invariant
            from <= i <= to <= ls@.len(),
            rec == pieces(ls@).subrange(from as int, to as int),
            last_number(rec, key@) == last_number(rec.take(i - from), key@),
        decreases i,
    {
        i = i - 1;
        let ghost now = rec.take(i + 1 - from);
        assert(now.last() == ls@[i as int]@);
        assert(now.drop_last() =~= rec.take(i - from));
        if let Some((k, v)) = field_of(&ls[i]) {
            if spells(&k, key) {
                return parse_u32(&v);
            }
        }
    }
    None
}

fn text_in(ls: &Vec<Vec<char>>, to: usize, key: &str) -> (r: Vec<char>)
    requires
        to <= ls@.len(),
    ensures
        r@ == first_text(pieces(ls@).take(to as int), key@),
{
    let ghost rec = pieces(ls@).take(to as int);
    let mut i: usize = 0;
    assert(rec.skip(0) =~= rec);
    while i < to
        invariant
            i <= to <= ls@.len(),
            rec == pieces(ls@).take(to as int),
            first_text(rec, key@) == first_text(rec.skip(i as int), key@),
        decreases to - i,
    {
        let ghost now = rec.skip(i as int);
        assert(now[0] == ls@[i as int]@);
        assert(now.skip(1) =~= rec.skip(i + 1));
        if let Some((k, v)) = field_of(&ls[i]) {
            if v.len() > 0 && spells(&k, key) {
                return v;
            }
        }
        i = i + 1;
    }
    Vec::new()
}

fn mhz_of(v: &Vec<char>) -> (r: u32)
    ensures
        r == whole_mhz(v@),
{
    let parts = split_all(v, '.');
    assert(split(v@, '.').len() > 0);
    assert(pieces(parts@)[0] == parts@[0]@);
    match parse_u32(&parts[0]) {
        Some(n) => n,
        None => 0,
    }
}

fn mhz_in(ls: &Vec<Vec<char>>, to: usize) -> (r: u32)
    requires
        to <= ls@.len(),
    ensures
        r == first_mhz(pieces(ls@).take(to as int)),
{
    let ghost rec = pieces(ls@).take(to as int);
    let mut i: usize = 0;
    assert(rec.skip(0) =~= rec);
    while i < to
        invariant
            i <= to <= ls@.len(),
            rec == pieces(ls@).take(to as int),
            first_mhz(rec) == first_mhz(rec.skip(i as int)),
        decreases to - i,
    {
        let ghost now = rec.skip(i as int);
        assert(now[0] == ls@[i as int]@);
        assert(now.skip(1) =~= rec.skip(i + 1));
        if let Some((k, v)) = field_of(&ls[i]) {
            if spells(&k, "cpu MHz") {
                let mhz: u32 = mhz_of(&v);
                if mhz != 0 {
                    return mhz;
                }
            }
        }
        i = i + 1;
    }
    0
}

/// The numbers of different cores and packages.
fn count_cores(ls: &Vec<Vec<char>>) -> (r: (usize, usize))
    ensures
        r.0 == cores(records(pieces(ls@))).len(),
        r.1 == packages(records(pieces(ls@))).len(),
{
    let ghost all = pieces(ls@);
    let mut pairs: HashSet<u64> = HashSet::new();
    let mut sockets: HashSet<u32> = HashSet::new();
    let mut pos: usize = 0;
    let ghost mut done: Seq<Seq<Seq<char>>> = Seq::empty();
    assert(all.skip(0) =~= all);
    assert(done + records(all) =~= records(all));
    loop
        invariant
            pos <= ls@.len(),
            all == pieces(ls@),
            done + records(all.skip(pos as int)) == records(all),
            pairs@ == cores(done),
            sockets@ == packages(done),
        decreases ls@.len() - pos,
    {
        let end: usize = record_end(ls, pos);
        let ghost rec = all.subrange(pos as int, end as int);
        let package = number_in(ls, pos, end, "physical id");
        let core = number_in(ls, pos, end, "core id");
        if let Some(p) = package {
            if let Some(c) = core {
                pairs.insert(p as u64 * 0x1_0000_0000 + c as u64);
                sockets.insert(p);
            }
        }
        proof {
            let t = all.skip(pos as int);
            let before = done;
            done = before.push(rec);
            assert(done.drop_last() =~= before);
            assert(done.last() == rec);
            assert(pairs@ == cores(done));
            assert(sockets@ == packages(done));
            assert(t.take(end - pos) =~= rec);
            if end < ls@.len() {
                let rest = all.skip(end + 1);
                assert(t.skip(end - pos + 1) =~= rest);
                assert(before + (seq![rec] + records(rest)) =~= done + records(rest));
            } else {
                assert(rec =~= t);
                assert(before + seq![rec] =~= done);
            }
        }
        if end >= ls.len() {
            assert(records(all) =~= done);
            return (pairs.len(), sockets.len());
        }
        pos = end + 1;
    }
}

/// Reads the text of `/proc/cpuinfo`.
pub fn parse(raw: &Vec<char>, cores_online: u32, arch: &str) -> (r: CpuInfo)
    ensures
        r@ == cpu_info(raw@, cores_online, arch@),
{
    let ls = split_lines(raw);
    let (n, sockets) = count_cores(&ls);
    let first: usize = record_end(&ls, 0);
    proof {
        let all = pieces(ls@);
        assert(all.skip(0) =~= all);
        assert(records(all)[0] =~= all.take(first as int));
    }
    let model = text_in(&ls, first, "model name");
    let vendor = text_in(&ls, first, "vendor_id");
    let mhz: u32 = mhz_in(&ls, first);
    CpuInfo {
        cores_online,
        cores_physical: if n == 0 {
            cores_online
        } else {
            (n as u64 % 0x1_0000_0000) as u32
        },
        sockets: if sockets == 0 {
            1
        } else {
            (sockets as u64 % 0x1_0000_0000) as u32
        },
        model: text_of(&model),
        vendor: text_of(&vendor),
        arch: arch.to_owned(),
        mhz,
    }
}

/// What the content of `/proc/cpuinfo` says, if it is text.
pub fn probe(content: &[u8], cores_online: u32, arch: &str) -> (r: Option<CpuInfo>)
    ensures
        match file_text(content@) {
            None => r is None,
            Some(raw) => r is Some && r->Some_0@ == cpu_info(raw, cores_online, arch@),
        },
{
    match read_string(content) {
        None => None,
        Some(raw) => Some(parse(&raw, cores_online, arch)),
    }
}

} // verus!

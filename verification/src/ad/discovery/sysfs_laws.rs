//! What the readings of `/sys` come to, told by the texts of its files.
use crate::ad::discovery::numa::{
    claims, in_chunk, listed, mem_total_kb, node_mem_mb, node_number, node_numbers, optional_text,
    NumaReading,
};
use crate::ad::discovery::pci::{device_of, devices_of, hex_number, text_in, PciReading};
use crate::ad::discovery::file_text;
use crate::render::{dec, hex, signed_dec};
use crate::scan::{dec_i32, dec_u32, is_space, lines, split, starts_with, trimmed};
use crate::scan_laws::{
    between, blank_text, hex_range, lacks, law_dec, law_dec_read, law_first_place, law_hex,
    law_no_place, law_signed_read, law_split_joined, law_split_once, law_strip, law_strip_all,
    law_trimmed, law_white_space, law_words, law_words_skip_blanks,
};
use vstd::prelude::*;
use vstd::utf8::{decode_utf8, valid_utf8};

verus! {

/// A file gives its text without the white space around it; one that is not
/// UTF-8 gives none.
pub proof fn law_file_text(content: Seq<u8>, a: Seq<char>, s: Seq<char>, b: Seq<char>)
    requires
        blank_text(a),
        blank_text(b),
        s.len() > 0 ==> !is_space(s[0]) && !is_space(s.last()),
    ensures
        valid_utf8(content) && decode_utf8(content) == a + s + b ==> file_text(content) == Some(s),
        !valid_utf8(content) ==> file_text(content) is None,
{
    law_trimmed(a, s, b);
}

/// The directory `node` with a number behind it is that of the node with the
/// number; a number without it is none.
pub proof fn law_node_number(n: u32, rest: Seq<char>)
    ensures
        node_number("node"@ + dec(n as nat)) == Some(n),
        node_number("node"@ + rest) == dec_u32(rest),
        !starts_with(rest, "node"@) ==> node_number(rest) is None,
{
    law_dec_read(n as nat);
    law_strip("node"@, dec(n as nat), Seq::empty());
    law_strip("node"@, rest, Seq::empty());
}

/// The entries that are for no node are passed over, the others kept in order.
pub proof fn law_node_numbers(entries: Seq<String>, e: String)
    ensures
        node_numbers(Seq::empty()).len() == 0,
        node_number(e@) is None ==> node_numbers(entries.push(e)) == node_numbers(entries),
        node_number(e@) matches Some(n) ==> node_numbers(entries.push(e)) == node_numbers(
            entries,
        ).push(n),
{
    assert(entries.push(e).drop_last() =~= entries);
}

proof fn lemma_dec_solid(n: nat)
    ensures
        dec(n).len() > 0,
        !is_space(dec(n)[0]),
        !is_space(dec(n).last()),
        forall|k: int|
            0 <= k < dec(n).len() ==> !is_space(#[trigger] dec(n)[k]) && dec(n)[k] != '-' && dec(
                n,
            )[k] != ',',
{
    law_dec(n);
    assert forall|k: int| 0 <= k < dec(n).len() implies !is_space(#[trigger] dec(n)[k]) && dec(
        n,
    )[k] != '-' && dec(n)[k] != ',' by {
        law_white_space(dec(n)[k]);
        assert('0' <= dec(n)[k] <= '9');
    }
    assert(!is_space(dec(n)[dec(n).len() - 1]));
}

/// A number in a cpulist is that CPU, a range all from its first to its last,
/// whatever white space stands around them.
pub proof fn law_cpulist_chunk(a: Seq<char>, lo: u32, hi: u32, b: Seq<char>, c: u32)
    requires
        blank_text(a),
        blank_text(b),
    ensures
        in_chunk(a + dec(lo as nat) + b, c) <==> c == lo,
        in_chunk(a + (dec(lo as nat) + seq!['-'] + dec(hi as nat)) + b, c) <==> lo <= c <= hi,
        !in_chunk(a + b, c),
{
    let x = dec(lo as nat);
    let y = dec(hi as nat);
    let e = Seq::<char>::empty();
    lemma_dec_solid(lo as nat);
    lemma_dec_solid(hi as nat);
    law_dec_read(lo as nat);
    law_dec_read(hi as nat);
    law_trimmed(a, x, b);
    assert(lacks(x, '-'));
    law_split_once(x, '-', y);
    let range = x + seq!['-'] + y;
    assert(range[0] == x[0]);
    assert(range.last() == y.last());
    law_trimmed(a, range, b);
    law_trimmed(e, x, e);
    assert(e + x + e =~= x);
    law_trimmed(e, y, e);
    assert(e + y + e =~= y);
    law_trimmed(a, e, b);
    assert(a + e + b =~= a + b);
    law_split_once(e, '-', e);
}

/// White space around the dash of a range does not matter either; a chunk that is
/// no number and no range has no CPU.
pub proof fn law_cpulist_gaps(
    lo: u32,
    a: Seq<char>,
    b: Seq<char>,
    hi: u32,
    other: Seq<char>,
    c: u32,
)
    requires
        blank_text(a),
        blank_text(b),
    ensures
        in_chunk((dec(lo as nat) + a) + seq!['-'] + (b + dec(hi as nat)), c) <==> lo <= c <= hi,
        dec_u32(trimmed(other)) is None && lacks(trimmed(other), '-') ==> !in_chunk(other, c),
{
    let x = dec(lo as nat);
    let y = dec(hi as nat);
    let e = Seq::<char>::empty();
    lemma_dec_solid(lo as nat);
    lemma_dec_solid(hi as nat);
    law_dec_read(lo as nat);
    law_dec_read(hi as nat);
    let head = x + a;
    let tail = b + y;
    let range = head + seq!['-'] + tail;
    law_white_space('-');
    assert forall|k: int| 0 <= k < head.len() implies head[k] != '-' by {
        if k >= x.len() {
            assert(head[k] == a[k - x.len()]);
            assert(is_space(a[k - x.len()]));
        } else {
            assert(head[k] == x[k]);
        }
    }
    law_split_once(head, '-', tail);
    assert(range[0] == x[0]);
    assert(range.last() == y.last());
    law_trimmed(e, range, e);
    assert(e + range + e =~= range);
    law_trimmed(e, x, a);
    assert(e + x + a =~= head);
    law_trimmed(b, y, e);
    assert(b + y + e =~= tail);
    if lacks(trimmed(other), '-') {
        law_split_once(trimmed(other), '-', e);
    }
}

/// The text of a range of CPUs.
pub open spec fn range_text(r: (u32, u32)) -> Seq<char> {
    if r.0 == r.1 {
        dec(r.0 as nat)
    } else {
        dec(r.0 as nat) + seq!['-'] + dec(r.1 as nat)
    }
}

/// The texts of some ranges.
pub open spec fn range_texts(rs: Seq<(u32, u32)>) -> Seq<Seq<char>> {
    Seq::new(rs.len(), |i: int| range_text(rs[i]))
}

/// A cpulist such as `0-7,16-23` has the CPUs of all its ranges, and no others.
pub proof fn law_cpulist(rs: Seq<(u32, u32)>, c: u32)
    requires
        rs.len() > 0,
    ensures
        listed(between(range_texts(rs), ','), c) <==> exists|i: int|
            0 <= i < rs.len() && (#[trigger] rs[i]).0 <= c <= rs[i].1,
{
    let ts = range_texts(rs);
    let e = Seq::<char>::empty();
    assert forall|i: int| 0 <= i < ts.len() implies lacks(#[trigger] ts[i], ',') && (in_chunk(
        ts[i],
        c,
    ) <==> rs[i].0 <= c <= rs[i].1) by {
        let (lo, hi) = rs[i];
        lemma_dec_solid(lo as nat);
        lemma_dec_solid(hi as nat);
        law_cpulist_chunk(e, lo, hi, e, c);
        assert(e + dec(lo as nat) + e =~= dec(lo as nat));
        let range = dec(lo as nat) + seq!['-'] + dec(hi as nat);
        assert(e + range + e =~= range);
        assert forall|k: int| 0 <= k < ts[i].len() implies ts[i][k] != ',' by {
            let n = dec(lo as nat).len();
            if lo != hi && k > n {
                assert(ts[i][k] == dec(hi as nat)[k - n - 1]);
            } else if k < n {
                assert(ts[i][k] == dec(lo as nat)[k]);
            }
        }
    }
    law_split_joined(ts, ',');
    let all = split(between(ts, ','), ',');
    if listed(between(ts, ','), c) {
        let i = choose|i: int| 0 <= i < all.len() && in_chunk(#[trigger] all[i], c);
        assert(in_chunk(ts[i], c));
        assert(rs[i].0 <= c <= rs[i].1);
    }
    if exists|i: int| 0 <= i < rs.len() && (#[trigger] rs[i]).0 <= c <= rs[i].1 {
        let i = choose|i: int| 0 <= i < rs.len() && (#[trigger] rs[i]).0 <= c <= rs[i].1;
        assert(in_chunk(ts[i], c));
        assert(in_chunk(all[i], c));
    }
}

/// The memory of a node is the number behind `MemTotal:` on its line, whatever
/// stands before it on the line and on the lines above.
pub proof fn law_node_memory(
    ls: Seq<Seq<char>>,
    i: int,
    head: Seq<char>,
    gap: Seq<char>,
    n: u64,
    tail: Seq<char>,
)
    requires
        0 <= i < ls.len(),
        ls[i] == head + "MemTotal:"@ + (gap + dec(n as nat) + tail),
        blank_text(gap),
        tail.len() > 0 ==> is_space(tail[0]),
        forall|k: int|
            0 <= k < head.len() ==> !starts_with(#[trigger] ls[i].skip(k), "MemTotal:"@),
        forall|k: int|
            0 <= k <= (gap + dec(n as nat) + tail).len() ==> !starts_with(
                #[trigger] (gap + dec(n as nat) + tail).skip(k),
                "MemTotal:"@,
            ),
        forall|j: int, k: int|
            0 <= j < i && 0 <= k <= ls[j].len() ==> !starts_with(
                #[trigger] ls[j].skip(k),
                "MemTotal:"@,
            ),
    ensures
        mem_total_kb(ls) == Some(n),
    decreases i,
{
    let key = "MemTotal:"@;
    if i == 0 {
        let rest = gap + dec(n as nat) + tail;
        let line = ls[0];
        assert(line.skip(head.len() as int) =~= key + rest);
        assert((key + rest).take(key.len() as int) =~= key);
        law_first_place(line, key, head.len() as int);
        assert(line.skip(head.len() as int + key.len()) =~= rest);
        law_no_place(rest, key);
        lemma_dec_solid(n as nat);
        law_dec_read(n as nat);
        law_words(dec(n as nat), tail);
        law_words_skip_blanks(gap, dec(n as nat) + tail);
        assert(gap + (dec(n as nat) + tail) =~= rest);
    } else {
        let t = ls.skip(1);
        assert(t[i - 1] == ls[i]);
        assert forall|k: int| 0 <= k <= ls[0].len() implies !starts_with(
            #[trigger] ls[0].skip(k),
            key,
        ) by {}
        law_no_place(ls[0], key);
        assert forall|j: int, k: int| 0 <= j < i - 1 && 0 <= k <= t[j].len() implies !starts_with(
            #[trigger] t[j].skip(k),
            key,
        ) by {
            assert(t[j] == ls[j + 1]);
            assert(!starts_with(ls[j + 1].skip(k), key));
        }
        law_node_memory(t, i - 1, head, gap, n, tail);
    }
}

/// A node shows its memory in whole megabytes, and none where it cannot be told.
pub proof fn law_node_megabytes(r: NumaReading)
    ensures
        match optional_text(r.meminfo) {
            Some(raw) => match mem_total_kb(lines(raw)) {
                Some(kb) => node_mem_mb(r) * 1024 <= kb < (node_mem_mb(r) + 1) * 1024,
                None => node_mem_mb(r) == 0,
            },
            None => node_mem_mb(r) == 0,
        },
        r.meminfo is None ==> node_mem_mb(r) == 0,
{
}

/// A node claims the CPUs that its list has, and none without a list.
pub proof fn law_node_claims(r: NumaReading, rs: Seq<(u32, u32)>, c: u32)
    requires
        rs.len() > 0,
    ensures
        r.cpulist is None ==> !claims(r, c),
        optional_text(r.cpulist) == Some(between(range_texts(rs), ',')) ==> (claims(r, c)
            <==> exists|i: int| 0 <= i < rs.len() && (#[trigger] rs[i]).0 <= c <= rs[i].1),
{
    law_cpulist(rs, c);
}

/// A hexadecimal number is read with or without `0x` before it, and white space
/// around it; one that is too large is zero.
pub proof fn law_hex_number(a: Seq<char>, n: nat, w: nat, b: Seq<char>, max: nat)
    requires
        blank_text(a),
        blank_text(b),
        w > 0,
        n < hex_range(w),
    ensures
        hex_number(a + (seq!['0', 'x'] + hex(n, w)) + b, max) == if n <= max {
            n
        } else {
            0
        },
        hex_number(a + hex(n, w) + b, max) == if n <= max {
            n
        } else {
            0
        },
{
    reveal_strlit("0x");
    let p = "0x"@;
    assert(p =~= seq!['0', 'x']);
    let h = hex(n, w);
    law_hex(n, w);
    assert forall|k: int| 0 <= k < w implies !is_space(#[trigger] h[k]) && h[k] != 'x' && h[k]
        != '+' by {
        law_white_space(h[k]);
    }
    law_white_space('0');
    assert(!is_space(h[w - 1]));
    assert(!is_space(h[0]));
    let t = seq!['0', 'x'] + h;
    assert(t[0] == '0');
    assert(t.last() == h[w - 1]);
    law_trimmed(a, t, b);
    law_trimmed(a, h, b);
    assert(!starts_with(h, p)) by {
        if starts_with(h, p) {
            assert(h.take(2)[1] == 'x');
            assert(h[1] == 'x');
        }
    }
    law_strip_all(p, h);
    assert(p + h =~= t);
}

/// A device shows the address it was found under and the numbers in its files: a
/// file that holds no number counts as zero, a missing NUMA node as -1.
pub proof fn law_device(r: PciReading, vendor: u16, device: u16, class: u32, numa: i32, group: u32)
    requires
        text_in(r.vendor) == Some(seq!['0', 'x'] + hex(vendor as nat, 4)),
        text_in(r.device) == Some(seq!['0', 'x'] + hex(device as nat, 4)),
        text_in(r.class) == Some(seq!['0', 'x'] + hex(class as nat, 8)),
        text_in(r.numa_node) == Some(signed_dec(numa as int)),
    ensures
        device_of(r) matches Some(d) && {
            &&& d.addr == r.addr@
            &&& d.vendor == vendor
            &&& d.device == device
            &&& d.class == class
            &&& d.numa_node == numa
            &&& r.iommu_group is None ==> d.iommu_group is None
            &&& r.iommu_group matches Some(g) ==> (g@ == dec(group as nat) ==> d.iommu_group
                == Some(group))
        },
{
    let e = Seq::<char>::empty();
    assert(hex_range(8) == 0x1_0000_0000 && hex_range(4) == 0x1_0000) by {
        reveal_with_fuel(hex_range, 9);
    }
    law_hex_number(e, vendor as nat, 4, e, 0xffff);
    law_hex_number(e, device as nat, 4, e, 0xffff);
    law_hex_number(e, class as nat, 8, e, 0xffff_ffff);
    law_signed_read(numa);
    law_dec_read(group as nat);
    assert(e + (seq!['0', 'x'] + hex(vendor as nat, 4)) + e =~= seq!['0', 'x'] + hex(
        vendor as nat,
        4,
    ));
    assert(e + (seq!['0', 'x'] + hex(device as nat, 4)) + e =~= seq!['0', 'x'] + hex(
        device as nat,
        4,
    ));
    assert(e + (seq!['0', 'x'] + hex(class as nat, 8)) + e =~= seq!['0', 'x'] + hex(
        class as nat,
        8,
    ));
}

/// A device is left out exactly where one of its four files cannot be read; the
/// others stay in order.
pub proof fn law_devices(rs: Seq<PciReading>, r: PciReading)
    ensures
        devices_of(Seq::empty()).len() == 0,
        device_of(r) is None <==> text_in(r.vendor) is None || text_in(r.device) is None || text_in(
            r.class,
        ) is None || text_in(r.numa_node) is None,
        device_of(r) is None ==> devices_of(rs.push(r)) == devices_of(rs),
        device_of(r) matches Some(d) ==> devices_of(rs.push(r)) == devices_of(rs).push(d),
        text_in(r.numa_node) matches Some(t) ==> (dec_i32(t) is None ==> (device_of(r) matches Some(
            d,
        ) ==> d.numa_node == -1)),
{
    assert(rs.push(r).drop_last() =~= rs);
}

/// A file that is missing, or is not UTF-8, cannot be read.
pub proof fn law_unreadable(content: Option<Vec<u8>>)
    ensures
        text_in(content) is None <==> content is None || !valid_utf8(content->Some_0@),
        optional_text(content) is None <==> content is None || !valid_utf8(content->Some_0@),
        text_in(content) == optional_text(content),
{
}

} // verus!

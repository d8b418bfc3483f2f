//! Where each field of a message stands on the wire, by its distance from the
//! start. Numbers are little-endian.
use crate::bytes::{le_bytes, lemma_le_bytes_len};
use crate::fs::codec::{
    head, put_counted, put_r, put_stat, put_t, rejected_op, stat_words, take_r, take_t,
    RMessageView, TMessageView,
};
use crate::fs::server::put_entry;
use crate::fs::types::{DirEntryView, Fid, Qid, Stat, Tag};
use crate::fs::wire::{
    lemma_take_put_u16, lemma_take_put_u32, lemma_take_put_u8, put_qid, put_qids, put_str,
    put_strs, put_u16, put_u32, put_u64, put_u64s, str_fits, take_str, NineError,
};
use crate::render::dec;
use vstd::prelude::*;
use vstd::utf8::{encode_utf8, valid_utf8};

verus! {

broadcast use lemma_le_bytes_len;

/// The number in the `w` bytes from `i` on.
pub open spec fn number_at(b: Seq<u8>, i: int, w: nat) -> nat
    decreases w,
{
    if w == 0 {
        0
    } else {
        b[i] as nat + 256 * number_at(b, i + 1, (w - 1) as nat)
    }
}

/// How many numbers there are of `w` bytes.
pub open spec fn range_of(w: nat) -> nat
    decreases w,
{
    if w == 0 {
        1
    } else {
        256 * range_of((w - 1) as nat)
    }
}

proof fn lemma_number(b: Seq<u8>, i: int, v: nat, w: nat)
    requires
        0 <= i,
        i + w <= b.len(),
        v < range_of(w),
        b.subrange(i, i + w) == le_bytes(v, w),
    ensures
        number_at(b, i, w) == v,
    decreases w,
{
    if w > 0 {
        let u = (w - 1) as nat;
        let s = b.subrange(i, i + w);
        assert(s[0] == b[i]);
        assert(le_bytes(v, w)[0] == (v % 256) as u8);
        assert(s.skip(1) =~= b.subrange(i + 1, i + 1 + u));
        assert(le_bytes(v, w).skip(1) =~= le_bytes(v / 256, u));
        assert(v / 256 < range_of(u));
        lemma_number(b, i + 1, v / 256, u);
    }
}

proof fn lemma_ranges()
    ensures
        range_of(2) == 0x1_0000,
        range_of(4) == 0x1_0000_0000,
        range_of(8) == 0x1_0000_0000_0000_0000,
{
    reveal_with_fuel(range_of, 9);
}

proof fn lemma_u16(a: Seq<u8>, v: u16, c: Seq<u8>)
    ensures
        number_at(a + put_u16(v) + c, a.len() as int, 2) == v,
{
    lemma_ranges();
    let b = a + put_u16(v) + c;
    assert(b.subrange(a.len() as int, a.len() as int + 2) =~= put_u16(v));
    lemma_number(b, a.len() as int, v as nat, 2);
}

proof fn lemma_u32(a: Seq<u8>, v: u32, c: Seq<u8>)
    ensures
        number_at(a + put_u32(v) + c, a.len() as int, 4) == v,
{
    lemma_ranges();
    let b = a + put_u32(v) + c;
    assert(b.subrange(a.len() as int, a.len() as int + 4) =~= put_u32(v));
    lemma_number(b, a.len() as int, v as nat, 4);
}

proof fn lemma_u64(a: Seq<u8>, v: u64, c: Seq<u8>)
    ensures
        number_at(a + put_u64(v) + c, a.len() as int, 8) == v,
{
    lemma_ranges();
    let b = a + put_u64(v) + c;
    assert(b.subrange(a.len() as int, a.len() as int + 8) =~= put_u64(v));
    lemma_number(b, a.len() as int, v as nat, 8);
}

/// Whether the message has the op and the tag.
pub open spec fn starts(b: Seq<u8>, op: u8, tag: Tag) -> bool {
    b.len() >= 3 && b[0] == op && number_at(b, 1, 2) == tag.0
}

proof fn lemma_head_at(op: u8, tag: Tag, body: Seq<u8>)
    ensures
        starts(head(op, tag) + body, op, tag),
        head(op, tag).len() == 3,
{
    let b = head(op, tag) + body;
    assert(b =~= seq![op] + put_u16(tag.0) + body);
    lemma_u16(seq![op], tag.0, body);
}

/// Every request starts with its op and its tag.
pub proof fn law_request_head(m: TMessageView)
    requires
        put_t(m) is Ok,
    ensures
        starts(
            put_t(m)->Ok_0,
            match m {
                TMessageView::Version { .. } => 100,
                TMessageView::Attach { .. } => 104,
                TMessageView::Flush { .. } => 108,
                TMessageView::Walk { .. } => 110,
                TMessageView::Lopen { .. } => 12,
                TMessageView::Readlink { .. } => 22,
                TMessageView::Getattr { .. } => 24,
                TMessageView::Readdir { .. } => 40,
                TMessageView::Fsync { .. } => 50,
                TMessageView::Read { .. } => 116,
                TMessageView::Clunk { .. } => 120,
                TMessageView::Rejected { code, .. } => code,
            },
            m.tag_of(),
        ),
{
    let b = put_t(m)->Ok_0;
    let op = b[0];
    let h = head(op, m.tag_of());
    assert(b.take(3) =~= h);
    assert(b =~= h + b.skip(3));
    lemma_head_at(op, m.tag_of(), b.skip(3));
}

/// Every reply starts with its op, one more than the request's, and the tag; an
/// error has an op of its own.
pub proof fn law_reply_head(m: RMessageView)
    requires
        put_r(m) is Ok,
    ensures
        starts(
            put_r(m)->Ok_0,
            match m {
                RMessageView::Lerror { .. } => 7,
                RMessageView::Version { .. } => 101,
                RMessageView::Attach { .. } => 105,
                RMessageView::Flush { .. } => 109,
                RMessageView::Walk { .. } => 111,
                RMessageView::Lopen { .. } => 13,
                RMessageView::Readlink { .. } => 23,
                RMessageView::Getattr { .. } => 25,
                RMessageView::Readdir { .. } => 41,
                RMessageView::Fsync { .. } => 51,
                RMessageView::Read { .. } => 117,
                RMessageView::Clunk { .. } => 121,
            },
            m.tag_of(),
        ),
{
    let b = put_r(m)->Ok_0;
    let op = b[0];
    let h = head(op, m.tag_of());
    assert(b.take(3) =~= h);
    assert(b =~= h + b.skip(3));
    lemma_head_at(op, m.tag_of(), b.skip(3));
}

/// The ops that are known but not served.
pub proof fn law_rejected_ops(op: u8)
    ensures
        rejected_op(op) <==> {
            ||| op == 14 || op == 16 || op == 18 || op == 20 || op == 26
            ||| op == 30 || op == 32 || op == 52 || op == 54
            ||| op == 70 || op == 72 || op == 74 || op == 76
            ||| op == 102 || op == 118 || op == 122 || op == 124 || op == 126
        },
{
}

proof fn lemma_fid_at(op: u8, tag: Tag, fid: u32, rest: Seq<u8>)
    ensures
        (head(op, tag) + put_u32(fid) + rest).len() == 7 + rest.len(),
        number_at(head(op, tag) + put_u32(fid) + rest, 3, 4) == fid,
        (head(op, tag) + put_u32(fid)).len() == 7,
        number_at(head(op, tag) + put_u32(fid), 3, 4) == fid,
{
    lemma_u32(head(op, tag), fid, rest);
    lemma_u32(head(op, tag), fid, Seq::empty());
    assert(head(op, tag) + put_u32(fid) + Seq::<u8>::empty() =~= head(op, tag) + put_u32(fid));
}

/// The requests about one fid: the fid stands first, then what else is asked.
pub proof fn law_fid_requests(tag: Tag, fid: Fid, flags: u32, mask: u64, offset: u64, count: u32)
    ensures
        ({
            let b = put_t(TMessageView::Lopen { tag, fid, flags })->Ok_0;
            b.len() == 11 && number_at(b, 3, 4) == fid.0 && number_at(b, 7, 4) == flags
        }),
        ({
            let b = put_t(TMessageView::Readlink { tag, fid })->Ok_0;
            b.len() == 7 && number_at(b, 3, 4) == fid.0
        }),
        ({
            let b = put_t(TMessageView::Fsync { tag, fid })->Ok_0;
            b.len() == 7 && number_at(b, 3, 4) == fid.0
        }),
        ({
            let b = put_t(TMessageView::Clunk { tag, fid })->Ok_0;
            b.len() == 7 && number_at(b, 3, 4) == fid.0
        }),
        ({
            let b = put_t(TMessageView::Getattr { tag, fid, request_mask: mask })->Ok_0;
            b.len() == 15 && number_at(b, 3, 4) == fid.0 && number_at(b, 7, 8) == mask
        }),
{
    let e = Seq::<u8>::empty();
    lemma_fid_at(12, tag, fid.0, put_u32(flags));
    lemma_u32(head(12, tag) + put_u32(fid.0), flags, e);
    assert(head(12, tag) + put_u32(fid.0) + put_u32(flags) + e =~= head(12, tag) + put_u32(fid.0)
        + put_u32(flags));
    lemma_fid_at(22, tag, fid.0, e);
    lemma_fid_at(50, tag, fid.0, e);
    lemma_fid_at(120, tag, fid.0, e);
    lemma_fid_at(24, tag, fid.0, put_u64(mask));
    lemma_u64(head(24, tag) + put_u32(fid.0), mask, e);
    assert(head(24, tag) + put_u32(fid.0) + put_u64(mask) + e =~= head(24, tag) + put_u32(fid.0)
        + put_u64(mask));
}

/// A request for a part of a file or a directory: fid, offset, count.
pub proof fn law_range_requests(tag: Tag, fid: Fid, offset: u64, count: u32)
    ensures
        ({
            let b = put_t(TMessageView::Read { tag, fid, offset, count })->Ok_0;
            &&& b.len() == 19
            &&& number_at(b, 3, 4) == fid.0
            &&& number_at(b, 7, 8) == offset
            &&& number_at(b, 15, 4) == count
        }),
        ({
            let b = put_t(TMessageView::Readdir { tag, fid, offset, count })->Ok_0;
            &&& b.len() == 19
            &&& number_at(b, 3, 4) == fid.0
            &&& number_at(b, 7, 8) == offset
            &&& number_at(b, 15, 4) == count
        }),
{
    lemma_range(116, tag, fid, offset, count);
    lemma_range(40, tag, fid, offset, count);
}

proof fn lemma_range(op: u8, tag: Tag, fid: Fid, offset: u64, count: u32)
    ensures
        ({
            let b = head(op, tag) + put_u32(fid.0) + put_u64(offset) + put_u32(count);
            &&& b.len() == 19
            &&& number_at(b, 3, 4) == fid.0
            &&& number_at(b, 7, 8) == offset
            &&& number_at(b, 15, 4) == count
        }),
{
    let e = Seq::<u8>::empty();
    let h = head(op, tag);
    let f = put_u32(fid.0);
    let o = put_u64(offset);
    let c = put_u32(count);
    let b = h + f + o + c;
    lemma_fid_at(op, tag, fid.0, o + c);
    assert(h + f + (o + c) =~= b);
    lemma_u64(h + f, offset, c);
    lemma_u32(h + f + o, count, e);
    assert(b + e =~= b);
}

/// Whether a text stands at `i`: its length in two bytes, then its bytes.
pub open spec fn text_at(b: Seq<u8>, i: int, s: Seq<char>) -> bool {
    &&& 0 <= i
    &&& i + 2 + encode_utf8(s).len() <= b.len()
    &&& number_at(b, i, 2) == encode_utf8(s).len()
    &&& b.subrange(i + 2, i + 2 + encode_utf8(s).len()) == encode_utf8(s)
}

proof fn lemma_text(a: Seq<u8>, s: Seq<char>, c: Seq<u8>)
    requires
        str_fits(s),
    ensures
        text_at(a + put_str(s) + c, a.len() as int, s),
        put_str(s).len() == 2 + encode_utf8(s).len(),
{
    let n = encode_utf8(s).len();
    let b = a + put_str(s) + c;
    let i = a.len() as int;
    lemma_u16(a, n as u16, encode_utf8(s) + c);
    assert(a + put_u16(n as u16) + (encode_utf8(s) + c) =~= b);
    assert(b.subrange(i + 2, i + 2 + n) =~= encode_utf8(s));
}

/// The requests that open a session: the size and the version, and the fids and
/// the names.
pub proof fn law_session_requests(
    tag: Tag,
    msize: u32,
    version: Seq<char>,
    fid: Fid,
    afid: Fid,
    uname: Seq<char>,
    aname: Seq<char>,
    n_uname: u32,
    oldtag: Tag,
)
    requires
        str_fits(version),
        str_fits(uname),
        str_fits(aname),
    ensures
        ({
            let b = put_t(TMessageView::Version { tag, msize, version })->Ok_0;
            number_at(b, 3, 4) == msize && text_at(b, 7, version) && b.len() == 9 + encode_utf8(
                version,
            ).len()
        }),
        ({
            let b = put_t(
                TMessageView::Attach { tag, fid, afid, uname, aname, n_uname },
            )->Ok_0;
            let n = encode_utf8(uname).len() as int;
            let m = encode_utf8(aname).len() as int;
            &&& number_at(b, 3, 4) == fid.0
            &&& number_at(b, 7, 4) == afid.0
            &&& text_at(b, 11, uname)
            &&& text_at(b, 13 + n, aname)
            &&& number_at(b, 15 + n + m, 4) == n_uname
            &&& b.len() == 19 + n + m
        }),
        ({
            let b = put_t(TMessageView::Flush { tag, oldtag })->Ok_0;
            b.len() == 5 && number_at(b, 3, 2) == oldtag.0
        }),
{
    let e = Seq::<u8>::empty();
    let h = head(100, tag);
    lemma_fid_at(100, tag, msize, put_str(version));
    lemma_text(h + put_u32(msize), version, e);
    assert(h + put_u32(msize) + put_str(version) + e =~= h + put_u32(msize) + put_str(version));

    let g = head(104, tag);
    let f = put_u32(fid.0);
    let a = put_u32(afid.0);
    let u = put_str(uname);
    let n = put_str(aname);
    let z = put_u32(n_uname);
    let b = g + f + a + u + n + z;
    lemma_fid_at(104, tag, fid.0, a + u + n + z);
    assert(g + f + (a + u + n + z) =~= b);
    lemma_u32(g + f, afid.0, u + n + z);
    assert(g + f + a + (u + n + z) =~= b);
    lemma_text(g + f + a, uname, n + z);
    assert(g + f + a + u + (n + z) =~= b);
    lemma_text(g + f + a + u, aname, z);
    lemma_u32(g + f + a + u + n, n_uname, e);
    assert(b + e =~= b);

    lemma_u16(head(108, tag), oldtag.0, e);
    assert(head(108, tag) + put_u16(oldtag.0) + e =~= head(108, tag) + put_u16(oldtag.0));
}

/// Where the `k`-th of the names starts, behind `at`.
pub open spec fn name_place(names: Seq<Seq<char>>, at: int, k: int) -> int
    decreases k,
{
    if k <= 0 {
        at
    } else {
        name_place(names, at, k - 1) + 2 + encode_utf8(names[k - 1]).len()
    }
}

proof fn lemma_names_len(names: Seq<Seq<char>>, at: int)
    requires
        put_strs(names) is Ok,
    ensures
        at + put_strs(names)->Ok_0.len() == name_place(names, at, names.len() as int),
    decreases names.len(),
{
    if names.len() > 0 {
        let init = names.drop_last();
        let last = names[names.len() - 1];
        lemma_names_len(init, at);
        assert(put_str(last).len() == 2 + encode_utf8(last).len());
        lemma_same_places(names, at);
    }
}

proof fn lemma_same_places(names: Seq<Seq<char>>, at: int)
    requires
        names.len() > 0,
    ensures
        name_place(names, at, names.len() - 1) == name_place(
            names.drop_last(),
            at,
            names.len() - 1,
        ),
{
    lemma_places(names, at, names.len() - 1);
}

proof fn lemma_name(a: Seq<u8>, names: Seq<Seq<char>>, c: Seq<u8>, k: int)
    requires
        put_strs(names) is Ok,
        0 <= k < names.len(),
    ensures
        text_at(a + put_strs(names)->Ok_0 + c, name_place(names, a.len() as int, k), names[k]),
    decreases names.len(),
{
    let init = names.drop_last();
    let last = names[names.len() - 1];
    let p = put_strs(init)->Ok_0;
    let b = a + put_strs(names)->Ok_0 + c;
    lemma_places(names, a.len() as int, k);
    if k < init.len() {
        lemma_name(a, init, put_str(last) + c, k);
        assert(a + p + (put_str(last) + c) =~= b);
    } else {
        lemma_names_len(init, a.len() as int);
        lemma_text(a + p, last, c);
        assert(a + p + put_str(last) + c =~= b);
    }
}

proof fn lemma_places(names: Seq<Seq<char>>, at: int, k: int)
    requires
        0 <= k < names.len(),
    ensures
        name_place(names, at, k) == name_place(names.drop_last(), at, k),
    decreases k,
{
    if k > 0 {
        lemma_places(names, at, k - 1);
        assert(names.drop_last()[k - 1] == names[k - 1]);
    }
}

/// A walk: the two fids, how many names, and the names; more than sixteen cannot
/// be written.
pub proof fn law_walk_request(tag: Tag, fid: Fid, newfid: Fid, wnames: Seq<Seq<char>>)
    ensures
        wnames.len() > 16 ==> put_t(TMessageView::Walk { tag, fid, newfid, wnames }) is Err,
        put_t(TMessageView::Walk { tag, fid, newfid, wnames }) matches Ok(b) ==> {
            &&& number_at(b, 3, 4) == fid.0
            &&& number_at(b, 7, 4) == newfid.0
            &&& number_at(b, 11, 2) == wnames.len()
            &&& forall|k: int|
                0 <= k < wnames.len() ==> text_at(b, name_place(wnames, 13, k), #[trigger] wnames[k])
            &&& b.len() == name_place(wnames, 13, wnames.len() as int)
        },
        wnames.len() <= 16 && (forall|k: int|
            0 <= k < wnames.len() ==> encode_utf8(#[trigger] wnames[k]).len() <= 0xffff) ==> put_t(
            TMessageView::Walk { tag, fid, newfid, wnames },
        ) is Ok,
{
    if let Ok(b) = put_t(TMessageView::Walk { tag, fid, newfid, wnames }) {
        let e = Seq::<u8>::empty();
        let h = head(110, tag);
        let f = put_u32(fid.0);
        let n = put_u32(newfid.0);
        let c = put_u16(wnames.len() as u16);
        let ns = put_strs(wnames)->Ok_0;
        lemma_fid_at(110, tag, fid.0, n + c + ns);
        assert(h + f + (n + c + ns) =~= b);
        lemma_u32(h + f, newfid.0, c + ns);
        assert(h + f + n + (c + ns) =~= b);
        lemma_u16(h + f + n, wnames.len() as u16, ns);
        assert(b + e =~= b);
        lemma_names_len(wnames, 13);
        assert forall|k: int| 0 <= k < wnames.len() implies text_at(
            b,
            name_place(wnames, 13, k),
            #[trigger] wnames[k],
        ) by {
            lemma_name(h + f + n + c, wnames, e, k);
        }
    }
    if forall|k: int| 0 <= k < wnames.len() ==> encode_utf8(#[trigger] wnames[k]).len() <= 0xffff {
        lemma_strs_fit(wnames);
    }
}

proof fn lemma_strs_fit(names: Seq<Seq<char>>)
    requires
        forall|k: int| 0 <= k < names.len() ==> encode_utf8(#[trigger] names[k]).len() <= 0xffff,
    ensures
        put_strs(names) is Ok,
    decreases names.len(),
{
    if names.len() > 0 {
        let init = names.drop_last();
        assert forall|k: int| 0 <= k < init.len() implies encode_utf8(#[trigger] init[k]).len()
            <= 0xffff by {
            assert(init[k] == names[k]);
        }
        assert(encode_utf8(names[names.len() - 1]).len() <= 0xffff);
        lemma_strs_fit(init);
    }
}

/// Whether a qid stands at `i`: its type, its version, its path.
pub open spec fn qid_at(b: Seq<u8>, i: int, q: Qid) -> bool {
    &&& 0 <= i
    &&& i + 13 <= b.len()
    &&& b[i] == q.type_
    &&& number_at(b, i + 1, 4) == q.version
    &&& number_at(b, i + 5, 8) == q.path
}

proof fn lemma_qid(a: Seq<u8>, q: Qid, c: Seq<u8>)
    ensures
        qid_at(a + put_qid(q) + c, a.len() as int, q),
        put_qid(q).len() == 13,
{
    let b = a + put_qid(q) + c;
    let t = seq![q.type_];
    lemma_u32(a + t, q.version, put_u64(q.path) + c);
    assert(a + t + put_u32(q.version) + (put_u64(q.path) + c) =~= b);
    lemma_u64(a + t + put_u32(q.version), q.path, c);
    assert(a + t + put_u32(q.version) + put_u64(q.path) + c =~= b);
    assert(b[a.len() as int] == q.type_);
}

/// The replies with an error number, a version, a qid or a target.
pub proof fn law_short_replies(
    tag: Tag,
    ecode: u32,
    msize: u32,
    version: Seq<char>,
    qid: Qid,
    iounit: u32,
)
    requires
        str_fits(version),
    ensures
        ({
            let b = put_r(RMessageView::Lerror { tag, ecode })->Ok_0;
            b.len() == 7 && number_at(b, 3, 4) == ecode
        }),
        ({
            let b = put_r(RMessageView::Version { tag, msize, version })->Ok_0;
            number_at(b, 3, 4) == msize && text_at(b, 7, version)
        }),
        ({
            let b = put_r(RMessageView::Attach { tag, qid })->Ok_0;
            b.len() == 16 && qid_at(b, 3, qid)
        }),
        ({
            let b = put_r(RMessageView::Lopen { tag, qid, iounit })->Ok_0;
            b.len() == 20 && qid_at(b, 3, qid) && number_at(b, 16, 4) == iounit
        }),
        ({
            let b = put_r(RMessageView::Readlink { tag, target: version })->Ok_0;
            text_at(b, 3, version) && b.len() == 5 + encode_utf8(version).len()
        }),
        put_r(RMessageView::Flush { tag })->Ok_0.len() == 3,
        put_r(RMessageView::Fsync { tag })->Ok_0.len() == 3,
        put_r(RMessageView::Clunk { tag })->Ok_0.len() == 3,
{
    let e = Seq::<u8>::empty();
    lemma_fid_at(7, tag, ecode, e);
    lemma_fid_at(101, tag, msize, put_str(version));
    lemma_text(head(101, tag) + put_u32(msize), version, e);
    assert(head(101, tag) + put_u32(msize) + put_str(version) + e =~= head(101, tag) + put_u32(
        msize,
    ) + put_str(version));
    lemma_qid(head(105, tag), qid, e);
    assert(head(105, tag) + put_qid(qid) + e =~= head(105, tag) + put_qid(qid));
    lemma_qid(head(13, tag), qid, put_u32(iounit));
    lemma_u32(head(13, tag) + put_qid(qid), iounit, e);
    assert(head(13, tag) + put_qid(qid) + put_u32(iounit) + e =~= head(13, tag) + put_qid(qid)
        + put_u32(iounit));
    lemma_text(head(23, tag), version, e);
    assert(head(23, tag) + put_str(version) + e =~= head(23, tag) + put_str(version));
}

proof fn lemma_qids(a: Seq<u8>, qids: Seq<Qid>, c: Seq<u8>)
    ensures
        put_qids(qids).len() == 13 * qids.len(),
        forall|k: int|
            0 <= k < qids.len() ==> qid_at(
                a + put_qids(qids) + c,
                a.len() + 13 * k,
                #[trigger] qids[k],
            ),
    decreases qids.len(),
{
    if qids.len() > 0 {
        let init = qids.drop_last();
        let last = qids[qids.len() - 1];
        let b = a + put_qids(qids) + c;
        lemma_qids(a, init, put_qid(last) + c);
        assert(a + put_qids(init) + (put_qid(last) + c) =~= b);
        lemma_qid(a + put_qids(init), last, c);
        assert(a + put_qids(init) + put_qid(last) + c =~= b);
        assert forall|k: int| 0 <= k < qids.len() implies qid_at(
            b,
            a.len() + 13 * k,
            #[trigger] qids[k],
        ) by {
            if k < init.len() {
                assert(init[k] == qids[k]);
            }
        }
    }
}

/// The reply to a walk: how many qids, and the qids; more than sixteen cannot be
/// written.
pub proof fn law_walk_reply(tag: Tag, wqids: Seq<Qid>)
    ensures
        put_r(RMessageView::Walk { tag, wqids }) is Ok <==> wqids.len() <= 16,
        put_r(RMessageView::Walk { tag, wqids }) matches Ok(b) ==> {
            &&& number_at(b, 3, 2) == wqids.len()
            &&& b.len() == 5 + 13 * wqids.len()
            &&& forall|k: int| 0 <= k < wqids.len() ==> qid_at(b, 5 + 13 * k, #[trigger] wqids[k])
        },
{
    if let Ok(b) = put_r(RMessageView::Walk { tag, wqids }) {
        let e = Seq::<u8>::empty();
        let h = head(111, tag);
        let c = put_u16(wqids.len() as u16);
        lemma_u16(h, wqids.len() as u16, put_qids(wqids));
        lemma_qids(h + c, wqids, e);
        assert(b + e =~= b);
    }
}

/// The replies with data: its length in four bytes, then the data.
pub proof fn law_data_replies(tag: Tag, data: Seq<u8>)
    requires
        data.len() <= u32::MAX,
    ensures
        ({
            let b = put_r(RMessageView::Read { tag, data })->Ok_0;
            number_at(b, 3, 4) == data.len() && b.skip(7) == data
        }),
        ({
            let b = put_r(RMessageView::Readdir { tag, data })->Ok_0;
            number_at(b, 3, 4) == data.len() && b.skip(7) == data
        }),
{
    lemma_data(117, tag, data);
    lemma_data(41, tag, data);
}

proof fn lemma_data(op: u8, tag: Tag, data: Seq<u8>)
    requires
        data.len() <= u32::MAX,
    ensures
        number_at(head(op, tag) + put_counted(data), 3, 4) == data.len(),
        (head(op, tag) + put_counted(data)).skip(7) == data,
{
    let n = data.len() as u32;
    lemma_fid_at(op, tag, n, data);
    assert(head(op, tag) + put_u32(n) + data =~= head(op, tag) + put_counted(data));
    assert((head(op, tag) + put_counted(data)).skip(7) =~= data);
}

proof fn lemma_words(a: Seq<u8>, vs: Seq<u64>, c: Seq<u8>)
    ensures
        put_u64s(vs).len() == 8 * vs.len(),
        forall|k: int|
            0 <= k < vs.len() ==> number_at(a + put_u64s(vs) + c, a.len() + 8 * k, 8)
                == #[trigger] vs[k],
    decreases vs.len(),
{
    if vs.len() > 0 {
        let init = vs.drop_last();
        let last = vs[vs.len() - 1];
        let b = a + put_u64s(vs) + c;
        lemma_words(a, init, put_u64(last) + c);
        assert(a + put_u64s(init) + (put_u64(last) + c) =~= b);
        lemma_u64(a + put_u64s(init), last, c);
        assert(a + put_u64s(init) + put_u64(last) + c =~= b);
        assert forall|k: int| 0 <= k < vs.len() implies number_at(b, a.len() + 8 * k, 8)
            == #[trigger] vs[k] by {
            if k < init.len() {
                assert(init[k] == vs[k]);
            }
        }
    }
}

/// The reply with the attributes of a file: which of them count, then qid, mode,
/// owner and group, and the long numbers in their order.
pub proof fn law_attribute_reply(tag: Tag, valid: u64, stat: Stat)
    ensures
        ({
            let b = put_r(RMessageView::Getattr { tag, valid, stat })->Ok_0;
            &&& b.len() == 156
            &&& number_at(b, 3, 8) == valid
            &&& qid_at(b, 11, stat.qid)
            &&& number_at(b, 24, 4) == stat.mode
            &&& number_at(b, 28, 4) == stat.uid
            &&& number_at(b, 32, 4) == stat.gid
            &&& number_at(b, 36, 8) == stat.nlink
            &&& number_at(b, 44, 8) == stat.rdev
            &&& number_at(b, 52, 8) == stat.size
            &&& number_at(b, 60, 8) == stat.blksize
            &&& number_at(b, 68, 8) == stat.blocks
            &&& number_at(b, 76, 8) == stat.atime_sec
            &&& number_at(b, 84, 8) == stat.atime_nsec
            &&& number_at(b, 92, 8) == stat.mtime_sec
            &&& number_at(b, 100, 8) == stat.mtime_nsec
            &&& number_at(b, 108, 8) == stat.ctime_sec
            &&& number_at(b, 116, 8) == stat.ctime_nsec
            &&& number_at(b, 124, 8) == stat.btime_sec
            &&& number_at(b, 132, 8) == stat.btime_nsec
            &&& number_at(b, 140, 8) == stat.gen
            &&& number_at(b, 148, 8) == stat.data_version
        }),
{
    let e = Seq::<u8>::empty();
    let h = head(25, tag);
    let v = put_u64(valid);
    let q = put_qid(stat.qid);
    let m = put_u32(stat.mode);
    let u = put_u32(stat.uid);
    let g = put_u32(stat.gid);
    let ws = stat_words(stat);
    let w = put_u64s(ws);
    let b = h + v + q + m + u + g + w;
    assert(b =~= h + v + put_stat(stat));
    lemma_u64(h, valid, q + m + u + g + w);
    assert(h + v + (q + m + u + g + w) =~= b);
    lemma_qid(h + v, stat.qid, m + u + g + w);
    assert(h + v + q + (m + u + g + w) =~= b);
    lemma_u32(h + v + q, stat.mode, u + g + w);
    assert(h + v + q + m + (u + g + w) =~= b);
    lemma_u32(h + v + q + m, stat.uid, g + w);
    assert(h + v + q + m + u + (g + w) =~= b);
    lemma_u32(h + v + q + m + u, stat.gid, w);
    lemma_words(h + v + q + m + u + g, ws, e);
    assert(b + e =~= b);
    assert((h + v + q + m + u + g).len() == 36);
    assert(number_at(b, 36, 8) == ws[0]);
    assert(number_at(b, 44, 8) == ws[1]);
    assert(number_at(b, 52, 8) == ws[2]);
    assert(number_at(b, 60, 8) == ws[3]);
    assert(number_at(b, 68, 8) == ws[4]);
    assert(number_at(b, 76, 8) == ws[5]);
    assert(number_at(b, 84, 8) == ws[6]);
    assert(number_at(b, 92, 8) == ws[7]);
    assert(number_at(b, 100, 8) == ws[8]);
    assert(number_at(b, 108, 8) == ws[9]);
    assert(number_at(b, 116, 8) == ws[10]);
    assert(number_at(b, 124, 8) == ws[11]);
    assert(number_at(b, 132, 8) == ws[12]);
    assert(number_at(b, 140, 8) == ws[13]);
    assert(number_at(b, 148, 8) == ws[14]);
}

/// A directory entry: its qid, its cookie, its type and its name.
pub proof fn law_entry_layout(d: DirEntryView)
    requires
        str_fits(d.name),
    ensures
        ({
            let b = put_entry(d);
            &&& b.len() == 24 + encode_utf8(d.name).len()
            &&& qid_at(b, 0, d.qid)
            &&& number_at(b, 13, 8) == d.offset
            &&& b[21] == d.ty
            &&& text_at(b, 22, d.name)
        }),
{
    let e = Seq::<u8>::empty();
    let q = put_qid(d.qid);
    let o = put_u64(d.offset);
    let t = seq![d.ty];
    let n = put_str(d.name);
    let b = q + o + t + n;
    assert(b =~= put_entry(d));
    lemma_qid(e, d.qid, o + t + n);
    assert(e + q + (o + t + n) =~= b);
    lemma_u64(q, d.offset, t + n);
    assert(q + o + (t + n) =~= b);
    lemma_text(q + o + t, d.name, e);
    assert(b + e =~= b);
}

/// A message of an op that is not known is refused by its op, whatever follows.
pub proof fn law_unknown_ops(op: u8, tag: Tag, body: Seq<u8>)
    ensures
        !rejected_op(op) && op != 100 && op != 104 && op != 108 && op != 110 && op != 12 && op != 22
            && op != 24 && op != 40 && op != 50 && op != 116 && op != 120 ==> take_t(
            head(op, tag) + body,
        ) == Err::<(TMessageView, Seq<u8>), NineError>(NineError::UnknownType(op)),
        op != 7 && op != 101 && op != 105 && op != 109 && op != 111 && op != 13 && op != 23 && op
            != 25 && op != 41 && op != 51 && op != 117 && op != 121 ==> take_r(
            head(op, tag) + body,
        ) == Err::<(RMessageView, Seq<u8>), NineError>(NineError::UnknownType(op)),
{
    lemma_take_put_u8(op, put_u16(tag.0) + body);
    assert(head(op, tag) + body =~= seq![op] + (put_u16(tag.0) + body));
    lemma_take_put_u16(tag.0, body);
}

/// A walk of more than sixteen names is refused by how many there are, and so is a
/// reply with more than sixteen qids.
pub proof fn law_too_many_refused(tag: Tag, fid: Fid, newfid: Fid, n: u16, rest: Seq<u8>)
    requires
        n > 16,
    ensures
        take_t(head(110, tag) + put_u32(fid.0) + put_u32(newfid.0) + put_u16(n) + rest) == Err::<
            (TMessageView, Seq<u8>),
            NineError,
        >(NineError::TwalkTooManyNames(n)),
        take_r(head(111, tag) + put_u16(n) + rest) == Err::<(RMessageView, Seq<u8>), NineError>(
            NineError::RwalkTooManyQids(n),
        ),
{
    let c = put_u16(n) + rest;
    let b = put_u32(newfid.0) + c;
    let a = put_u32(fid.0) + b;
    lemma_take_put_u8(110, put_u16(tag.0) + a);
    assert(head(110, tag) + put_u32(fid.0) + put_u32(newfid.0) + put_u16(n) + rest =~= seq![110u8]
        + (put_u16(tag.0) + a));
    lemma_take_put_u16(tag.0, a);
    lemma_take_put_u32(fid.0, b);
    lemma_take_put_u32(newfid.0, c);
    lemma_take_put_u16(n, rest);
    lemma_take_put_u8(111, put_u16(tag.0) + c);
    assert(head(111, tag) + put_u16(n) + rest =~= seq![111u8] + (put_u16(tag.0) + c));
    lemma_take_put_u16(tag.0, c);
}

/// A text that is not UTF-8 is refused as that.
pub proof fn law_bad_text_refused(text: Seq<u8>, rest: Seq<u8>)
    requires
        text.len() <= 0xffff,
        !valid_utf8(text),
    ensures
        take_str(put_u16(text.len() as u16) + text + rest) == Err::<(Seq<char>, Seq<u8>), NineError>(
            NineError::Utf8,
        ),
{
    let n = text.len() as u16;
    lemma_take_put_u16(n, text + rest);
    assert(put_u16(n) + text + rest =~= put_u16(n) + (text + rest));
    assert((text + rest).take(text.len() as int) =~= text);
}

/// A text of more than 65535 bytes cannot be written.
pub proof fn law_long_text_refused(tag: Tag, msize: u32, version: Seq<char>)
    requires
        encode_utf8(version).len() > 0xffff,
    ensures
        put_t(TMessageView::Version { tag, msize, version }) is Err,
        put_r(RMessageView::Version { tag, msize, version }) is Err,
        put_r(RMessageView::Readlink { tag, target: version }) is Err,
{
}

/// An error in words.
pub proof fn law_error_words(n: u16, t: u8, len: usize)
    ensures
        NineError::Eom.text() == "unexpected end of message"@,
        NineError::Utf8.text() == "invalid utf-8 in 9P string"@,
        NineError::UnknownType(t).text() == "unknown message type "@ + dec(t as nat),
        NineError::StringTooLong(len).text() == "string too long: "@ + dec(len as nat) + " bytes"@,
        NineError::TwalkTooManyNames(n).text() == "Twalk wname count "@ + dec(n as nat)
            + " exceeds 16"@,
        NineError::RwalkTooManyQids(n).text() == "Rwalk wqid count "@ + dec(n as nat)
            + " exceeds 16"@,
{
}

} // verus!

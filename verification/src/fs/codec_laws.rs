//! What encoding and decoding do to each other.
use crate::bytes::lemma_le_bytes_len;
use crate::fs::codec::{
    head, put_counted, put_r, put_stat, put_t, rejected_op, stat_words, take_counted, take_r,
    take_range, take_stat, take_t, RMessageView, TMessageView,
};
use crate::fs::tcode::{
    RLERROR, TATTACH, TCLUNK, TFLUSH, TFSYNC, TGETATTR, TLOPEN, TREAD, TREADDIR, TREADLINK, TVERSION,
    TWALK,
};
use crate::fs::types::{Fid, Stat, Tag};
use crate::fs::wire::{
    lemma_put_take_data, lemma_put_take_qid, lemma_put_take_qids, lemma_put_take_str,
    lemma_put_take_strs, lemma_put_take_u16, lemma_put_take_u32, lemma_put_take_u64,
    lemma_put_take_u64s, lemma_put_take_u8, lemma_take_put_qid, lemma_take_put_qids,
    lemma_take_put_str, lemma_take_put_strs, lemma_take_put_u16, lemma_take_put_u32,
    lemma_take_put_u64, lemma_take_put_u64s, lemma_take_put_u8, put_qid, put_qids, put_str,
    put_strs, put_u16, put_u32, put_u64, put_u64s, take_qid, take_str, take_u16, take_u32,
    take_u64, take_u64s, take_u8, NineError,
};
use vstd::prelude::*;

verus! {

broadcast use lemma_le_bytes_len;

/// Reading a written header leaves the body.
proof fn lemma_head(code: u8, tag: Tag, body: Seq<u8>)
    ensures
        take_u8(head(code, tag) + body) == Ok::<(u8, Seq<u8>), NineError>(
            (code, put_u16(tag.0) + body),
        ),
        take_u16(put_u16(tag.0) + body) == Ok::<(u16, Seq<u8>), NineError>((tag.0, body)),
{
    assert(head(code, tag) + body =~= seq![code] + (put_u16(tag.0) + body));
    lemma_take_put_u8(code, put_u16(tag.0) + body);
    lemma_take_put_u16(tag.0, body);
}

/// A request that can be written is read back from its bytes, whatever follows
/// them. For a `Rejected` request the op has to be one of the rejected ones.
#[verifier::spinoff_prover]
#[verifier::rlimit(100)]
pub proof fn law_t_roundtrip(m: TMessageView, rest: Seq<u8>)
    requires
        put_t(m) is Ok,
        m is Rejected ==> rejected_op(m->code),
    ensures
        take_t(put_t(m)->Ok_0 + rest) == Ok::<(TMessageView, Seq<u8>), NineError>((m, rest)),
{
    let all = put_t(m)->Ok_0 + rest;
    match m {
        TMessageView::Version { tag, msize, version } => {
            let b2 = put_str(version) + rest;
            let b1 = put_u32(msize) + b2;
            assert(all =~= head(TVERSION, tag) + b1);
            lemma_head(TVERSION, tag, b1);
            lemma_take_put_u32(msize, b2);
            lemma_take_put_str(version, rest);
        },
        TMessageView::Attach { tag, fid, afid, uname, aname, n_uname } => {
            let b5 = put_u32(n_uname) + rest;
            let b4 = put_str(aname) + b5;
            let b3 = put_str(uname) + b4;
            let b2 = put_u32(afid.0) + b3;
            let b1 = put_u32(fid.0) + b2;
            assert(all =~= head(TATTACH, tag) + b1);
            lemma_head(TATTACH, tag, b1);
            lemma_take_put_u32(fid.0, b2);
            lemma_take_put_u32(afid.0, b3);
            lemma_take_put_str(uname, b4);
            lemma_take_put_str(aname, b5);
            lemma_take_put_u32(n_uname, rest);
        },
        TMessageView::Flush { tag, oldtag } => {
            let b1 = put_u16(oldtag.0) + rest;
            assert(all =~= head(TFLUSH, tag) + b1);
            lemma_head(TFLUSH, tag, b1);
            lemma_take_put_u16(oldtag.0, rest);
        },
        TMessageView::Walk { tag, fid, newfid, wnames } => {
            let n = wnames.len() as u16;
            let b4 = put_strs(wnames)->Ok_0 + rest;
            let b3 = put_u16(n) + b4;
            let b2 = put_u32(newfid.0) + b3;
            let b1 = put_u32(fid.0) + b2;
            assert(all =~= head(TWALK, tag) + b1);
            lemma_head(TWALK, tag, b1);
            lemma_take_put_u32(fid.0, b2);
            lemma_take_put_u32(newfid.0, b3);
            lemma_take_put_u16(n, b4);
            lemma_take_put_strs(wnames, rest);
        },
        TMessageView::Lopen { tag, fid, flags } => {
            let b2 = put_u32(flags) + rest;
            let b1 = put_u32(fid.0) + b2;
            assert(all =~= head(TLOPEN, tag) + b1);
            lemma_head(TLOPEN, tag, b1);
            lemma_take_put_u32(fid.0, b2);
            lemma_take_put_u32(flags, rest);
        },
        TMessageView::Readlink { tag, fid } => {
            let b1 = put_u32(fid.0) + rest;
            assert(all =~= head(TREADLINK, tag) + b1);
            lemma_head(TREADLINK, tag, b1);
            lemma_take_put_u32(fid.0, rest);
        },
        TMessageView::Getattr { tag, fid, request_mask } => {
            let b2 = put_u64(request_mask) + rest;
            let b1 = put_u32(fid.0) + b2;
            assert(all =~= head(TGETATTR, tag) + b1);
            lemma_head(TGETATTR, tag, b1);
            lemma_take_put_u32(fid.0, b2);
            lemma_take_put_u64(request_mask, rest);
        },
        TMessageView::Readdir { tag, fid, offset, count } => {
            lemma_range(TREADDIR, tag, fid, offset, count, rest);
        },
        TMessageView::Fsync { tag, fid } => {
            let b1 = put_u32(fid.0) + rest;
            assert(all =~= head(TFSYNC, tag) + b1);
            lemma_head(TFSYNC, tag, b1);
            lemma_take_put_u32(fid.0, rest);
        },
        TMessageView::Read { tag, fid, offset, count } => {
            lemma_range(TREAD, tag, fid, offset, count, rest);
        },
        TMessageView::Clunk { tag, fid } => {
            let b1 = put_u32(fid.0) + rest;
            assert(all =~= head(TCLUNK, tag) + b1);
            lemma_head(TCLUNK, tag, b1);
            lemma_take_put_u32(fid.0, rest);
        },
        TMessageView::Rejected { tag, code } => {
            lemma_head(code, tag, rest);
        },
    }
}

proof fn lemma_range(code: u8, tag: Tag, fid: Fid, offset: u64, count: u32, rest: Seq<u8>)
    ensures
        ({
            let all = head(code, tag) + put_u32(fid.0) + put_u64(offset) + put_u32(count) + rest;
            let body = take_u16(take_u8(all)->Ok_0.1)->Ok_0.1;
            &&& take_u8(all) is Ok
            &&& take_u8(all)->Ok_0.0 == code
            &&& take_u16(take_u8(all)->Ok_0.1) is Ok
            &&& take_u16(take_u8(all)->Ok_0.1)->Ok_0.0 == tag.0
            &&& take_range(body) == Ok::<((Fid, u64, u32), Seq<u8>), NineError>(
                ((fid, offset, count), rest),
            )
        }),
{
    let all = head(code, tag) + put_u32(fid.0) + put_u64(offset) + put_u32(count) + rest;
    let b3 = put_u32(count) + rest;
    let b2 = put_u64(offset) + b3;
    let b1 = put_u32(fid.0) + b2;
    assert(all =~= head(code, tag) + b1);
    lemma_head(code, tag, b1);
    lemma_take_put_u32(fid.0, b2);
    lemma_take_put_u64(offset, b3);
    lemma_take_put_u32(count, rest);
}

/// A request that was read can be written, and the bytes that it was read from
/// are those that it is written as. For a `Rejected` request those are its
/// header; its unread body counts among the bytes after it.
#[verifier::spinoff_prover]
#[verifier::rlimit(100)]
pub proof fn law_t_canonical(s: Seq<u8>)
    requires
        take_t(s) is Ok,
    ensures
        put_t(take_t(s)->Ok_0.0) is Ok,
        s == put_t(take_t(s)->Ok_0.0)->Ok_0 + take_t(s)->Ok_0.1,
{
    let (m, rest) = take_t(s)->Ok_0;
    lemma_put_take_u8(s);
    let s1 = take_u8(s)->Ok_0.1;
    lemma_put_take_u16(s1);
    let b = take_u16(s1)->Ok_0.1;
    match m {
        TMessageView::Version { .. } => {
            lemma_put_take_u32(b);
            lemma_put_take_str(take_u32(b)->Ok_0.1);
        },
        TMessageView::Attach { .. } => {
            lemma_put_take_u32(b);
            let b1 = take_u32(b)->Ok_0.1;
            lemma_put_take_u32(b1);
            let b2 = take_u32(b1)->Ok_0.1;
            lemma_put_take_str(b2);
            let b3 = take_str(b2)->Ok_0.1;
            lemma_put_take_str(b3);
            let b4 = take_str(b3)->Ok_0.1;
            lemma_put_take_u32(b4);
        },
        TMessageView::Flush { .. } => {
            lemma_put_take_u16(b);
        },
        TMessageView::Walk { .. } => {
            lemma_put_take_u32(b);
            let b1 = take_u32(b)->Ok_0.1;
            lemma_put_take_u32(b1);
            let b2 = take_u32(b1)->Ok_0.1;
            lemma_put_take_u16(b2);
            let (n, b3) = take_u16(b2)->Ok_0;
            lemma_put_take_strs(b3, n as nat);
        },
        TMessageView::Lopen { .. } => {
            lemma_put_take_u32(b);
            lemma_put_take_u32(take_u32(b)->Ok_0.1);
        },
        TMessageView::Readlink { .. } => {
            lemma_put_take_u32(b);
        },
        TMessageView::Getattr { .. } => {
            lemma_put_take_u32(b);
            lemma_put_take_u64(take_u32(b)->Ok_0.1);
        },
        TMessageView::Readdir { .. } => {
            lemma_put_take_range(b);
        },
        TMessageView::Fsync { .. } => {
            lemma_put_take_u32(b);
        },
        TMessageView::Read { .. } => {
            lemma_put_take_range(b);
        },
        TMessageView::Clunk { .. } => {
            lemma_put_take_u32(b);
        },
        TMessageView::Rejected { .. } => {},
    }
    assert(s =~= put_t(m)->Ok_0 + rest);
}

proof fn lemma_put_take_range(s: Seq<u8>)
    requires
        take_range(s) is Ok,
    ensures
        ({
            let ((fid, offset, count), rest) = take_range(s)->Ok_0;
            s == put_u32(fid.0) + put_u64(offset) + put_u32(count) + rest
        }),
{
    let ((fid, offset, count), rest) = take_range(s)->Ok_0;
    lemma_put_take_u32(s);
    let s1 = take_u32(s)->Ok_0.1;
    lemma_put_take_u64(s1);
    let s2 = take_u64(s1)->Ok_0.1;
    lemma_put_take_u32(s2);
    assert(s =~= put_u32(fid.0) + put_u64(offset) + put_u32(count) + rest);
}

proof fn lemma_take_put_stat(st: Stat, rest: Seq<u8>)
    ensures
        take_stat(put_stat(st) + rest) == Ok::<(Stat, Seq<u8>), NineError>((st, rest)),
{
    let b4 = put_u64s(stat_words(st)) + rest;
    let b3 = put_u32(st.gid) + b4;
    let b2 = put_u32(st.uid) + b3;
    let b1 = put_u32(st.mode) + b2;
    assert(put_stat(st) + rest =~= put_qid(st.qid) + b1);
    lemma_take_put_qid(st.qid, b1);
    lemma_take_put_u32(st.mode, b2);
    lemma_take_put_u32(st.uid, b3);
    lemma_take_put_u32(st.gid, b4);
    lemma_take_put_u64s(stat_words(st), rest);
}

proof fn lemma_put_take_stat(s: Seq<u8>)
    requires
        take_stat(s) is Ok,
    ensures
        s == put_stat(take_stat(s)->Ok_0.0) + take_stat(s)->Ok_0.1,
{
    let (st, rest) = take_stat(s)->Ok_0;
    lemma_put_take_qid(s);
    let s1 = take_qid(s)->Ok_0.1;
    lemma_put_take_u32(s1);
    let s2 = take_u32(s1)->Ok_0.1;
    lemma_put_take_u32(s2);
    let s3 = take_u32(s2)->Ok_0.1;
    lemma_put_take_u32(s3);
    let s4 = take_u32(s3)->Ok_0.1;
    lemma_put_take_u64s(s4, 15);
    let w = take_u64s(s4, 15)->Ok_0.0;
    assert(stat_words(st) =~= w);
    assert(s =~= put_stat(st) + rest);
}

proof fn lemma_take_put_counted(d: Seq<u8>, rest: Seq<u8>)
    requires
        d.len() <= u32::MAX,
    ensures
        take_counted(put_counted(d) + rest) == Ok::<(Seq<u8>, Seq<u8>), NineError>((d, rest)),
{
    assert(put_counted(d) + rest =~= put_u32(d.len() as u32) + (d + rest));
    lemma_take_put_u32(d.len() as u32, d + rest);
    assert((d + rest).take(d.len() as int) =~= d);
    assert((d + rest).skip(d.len() as int) =~= rest);
}

proof fn lemma_put_take_counted(s: Seq<u8>)
    requires
        take_counted(s) is Ok,
    ensures
        s == put_counted(take_counted(s)->Ok_0.0) + take_counted(s)->Ok_0.1,
{
    lemma_put_take_u32(s);
    let (n, s1) = take_u32(s)->Ok_0;
    lemma_put_take_data(s1, n as nat);
    assert(s =~= put_counted(take_counted(s)->Ok_0.0) + take_counted(s)->Ok_0.1);
}

/// A reply that can be written is read back from its bytes, whatever follows
/// them. Its data has to be short enough for the 32-bit count before it.
#[verifier::spinoff_prover]
#[verifier::rlimit(100)]
pub proof fn law_r_roundtrip(m: RMessageView, rest: Seq<u8>)
    requires
        put_r(m) is Ok,
        m is Readdir ==> m->Readdir_data.len() <= u32::MAX,
        m is Read ==> m->Read_data.len() <= u32::MAX,
    ensures
        take_r(put_r(m)->Ok_0 + rest) == Ok::<(RMessageView, Seq<u8>), NineError>((m, rest)),
{
    let all = put_r(m)->Ok_0 + rest;
    match m {
        RMessageView::Lerror { tag, ecode } => {
            let b1 = put_u32(ecode) + rest;
            assert(all =~= head(RLERROR, tag) + b1);
            lemma_head(RLERROR, tag, b1);
            lemma_take_put_u32(ecode, rest);
        },
        RMessageView::Version { tag, msize, version } => {
            let code = (TVERSION + 1) as u8;
            let b2 = put_str(version) + rest;
            let b1 = put_u32(msize) + b2;
            assert(all =~= head(code, tag) + b1);
            lemma_head(code, tag, b1);
            lemma_take_put_u32(msize, b2);
            lemma_take_put_str(version, rest);
        },
        RMessageView::Attach { tag, qid } => {
            let code = (TATTACH + 1) as u8;
            let b1 = put_qid(qid) + rest;
            assert(all =~= head(code, tag) + b1);
            lemma_head(code, tag, b1);
            lemma_take_put_qid(qid, rest);
        },
        RMessageView::Flush { tag } => {
            lemma_head((TFLUSH + 1) as u8, tag, rest);
        },
        RMessageView::Walk { tag, wqids } => {
            let code = (TWALK + 1) as u8;
            let n = wqids.len() as u16;
            let b2 = put_qids(wqids) + rest;
            let b1 = put_u16(n) + b2;
            assert(all =~= head(code, tag) + b1);
            lemma_head(code, tag, b1);
            lemma_take_put_u16(n, b2);
            lemma_take_put_qids(wqids, rest);
        },
        RMessageView::Lopen { tag, qid, iounit } => {
            let code = (TLOPEN + 1) as u8;
            let b2 = put_u32(iounit) + rest;
            let b1 = put_qid(qid) + b2;
            assert(all =~= head(code, tag) + b1);
            lemma_head(code, tag, b1);
            lemma_take_put_qid(qid, b2);
            lemma_take_put_u32(iounit, rest);
        },
        RMessageView::Readlink { tag, target } => {
            let code = (TREADLINK + 1) as u8;
            let b1 = put_str(target) + rest;
            assert(all =~= head(code, tag) + b1);
            lemma_head(code, tag, b1);
            lemma_take_put_str(target, rest);
        },
        RMessageView::Getattr { tag, valid, stat } => {
            let code = (TGETATTR + 1) as u8;
            let b2 = put_stat(stat) + rest;
            let b1 = put_u64(valid) + b2;
            assert(all =~= head(code, tag) + b1);
            lemma_head(code, tag, b1);
            lemma_take_put_u64(valid, b2);
            lemma_take_put_stat(stat, rest);
        },
        RMessageView::Readdir { tag, data } => {
            let code = (TREADDIR + 1) as u8;
            let b1 = put_counted(data) + rest;
            assert(all =~= head(code, tag) + b1);
            lemma_head(code, tag, b1);
            lemma_take_put_counted(data, rest);
        },
        RMessageView::Fsync { tag } => {
            lemma_head((TFSYNC + 1) as u8, tag, rest);
        },
        RMessageView::Read { tag, data } => {
            let code = (TREAD + 1) as u8;
            let b1 = put_counted(data) + rest;
            assert(all =~= head(code, tag) + b1);
            lemma_head(code, tag, b1);
            lemma_take_put_counted(data, rest);
        },
        RMessageView::Clunk { tag } => {
            lemma_head((TCLUNK + 1) as u8, tag, rest);
        },
    }
}

/// A reply that was read can be written, and the bytes that it was read from
/// are those that it is written as.
#[verifier::spinoff_prover]
#[verifier::rlimit(100)]
pub proof fn law_r_canonical(s: Seq<u8>)
    requires
        take_r(s) is Ok,
    ensures
        put_r(take_r(s)->Ok_0.0) is Ok,
        s == put_r(take_r(s)->Ok_0.0)->Ok_0 + take_r(s)->Ok_0.1,
{
    let (m, rest) = take_r(s)->Ok_0;
    lemma_put_take_u8(s);
    let s1 = take_u8(s)->Ok_0.1;
    lemma_put_take_u16(s1);
    let b = take_u16(s1)->Ok_0.1;
    match m {
        RMessageView::Lerror { .. } => {
            lemma_put_take_u32(b);
        },
        RMessageView::Version { .. } => {
            lemma_put_take_u32(b);
            lemma_put_take_str(take_u32(b)->Ok_0.1);
        },
        RMessageView::Attach { .. } => {
            lemma_put_take_qid(b);
        },
        RMessageView::Walk { .. } => {
            lemma_put_take_u16(b);
            let (n, b1) = take_u16(b)->Ok_0;
            lemma_put_take_qids(b1, n as nat);
        },
        RMessageView::Lopen { .. } => {
            lemma_put_take_qid(b);
            lemma_put_take_u32(take_qid(b)->Ok_0.1);
        },
        RMessageView::Readlink { .. } => {
            lemma_put_take_str(b);
        },
        RMessageView::Getattr { .. } => {
            lemma_put_take_u64(b);
            lemma_put_take_stat(take_u64(b)->Ok_0.1);
        },
        RMessageView::Readdir { .. } => {
            lemma_put_take_counted(b);
        },
        RMessageView::Read { .. } => {
            lemma_put_take_counted(b);
        },
        RMessageView::Flush { .. } => {},
        RMessageView::Fsync { .. } => {},
        RMessageView::Clunk { .. } => {},
    }
    assert(s =~= put_r(m)->Ok_0 + rest);
}

} // verus!

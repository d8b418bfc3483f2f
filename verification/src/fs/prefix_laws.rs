//! Messages that end early.
use crate::fs::codec::{
    put_r, put_t, rejected_op, take_counted, take_r, take_rbody, take_stat, take_t, take_tbody,
    RMessageView, TMessageView,
};
use crate::fs::codec_laws::{law_r_roundtrip, law_t_roundtrip};
use crate::fs::types::Tag;
use crate::fs::wire::{
    take_data, take_qid, take_qids, take_str, take_strs, take_u16, take_u32, take_u64, take_u64s,
    take_u8, NineError, Taken,
};
use vstd::prelude::*;

verus! {

/// What more bytes behind those that were read make of a read: nothing but more
/// bytes after it, unless the read ended early.
pub open spec fn extends<A>(short: Taken<A>, long: Taken<A>, more: Seq<u8>) -> bool {
    match short {
        Ok((v, rest)) => long == Ok::<(A, Seq<u8>), NineError>((v, rest + more)),
        Err(e) => e == NineError::Eom || long == Err::<(A, Seq<u8>), NineError>(e),
    }
}

broadcast proof fn lemma_more_u8(s: Seq<u8>, q: Seq<u8>)
    ensures
        extends(take_u8(s), #[trigger] take_u8(s + q), q),
{
    if s.len() >= 1 {
        assert((s + q).skip(1) =~= s.skip(1) + q);
    }
}

broadcast proof fn lemma_more_u16(s: Seq<u8>, q: Seq<u8>)
    ensures
        extends(take_u16(s), #[trigger] take_u16(s + q), q),
{
    if s.len() >= 2 {
        assert((s + q).skip(2) =~= s.skip(2) + q);
        assert((s + q).take(2) =~= s.take(2));
    }
}

broadcast proof fn lemma_more_u32(s: Seq<u8>, q: Seq<u8>)
    ensures
        extends(take_u32(s), #[trigger] take_u32(s + q), q),
{
    if s.len() >= 4 {
        assert((s + q).skip(4) =~= s.skip(4) + q);
        assert((s + q).take(4) =~= s.take(4));
    }
}

broadcast proof fn lemma_more_u64(s: Seq<u8>, q: Seq<u8>)
    ensures
        extends(take_u64(s), #[trigger] take_u64(s + q), q),
{
    if s.len() >= 8 {
        assert((s + q).skip(8) =~= s.skip(8) + q);
        assert((s + q).take(8) =~= s.take(8));
    }
}

broadcast proof fn lemma_more_data(s: Seq<u8>, n: nat, q: Seq<u8>)
    ensures
        extends(take_data(s, n), #[trigger] take_data(s + q, n), q),
{
    if s.len() >= n {
        assert((s + q).skip(n as int) =~= s.skip(n as int) + q);
        assert((s + q).take(n as int) =~= s.take(n as int));
    }
}

broadcast proof fn lemma_more_str(s: Seq<u8>, q: Seq<u8>)
    ensures
        extends(take_str(s), #[trigger] take_str(s + q), q),
{
    broadcast use lemma_more_u16, lemma_more_data;

}

broadcast proof fn lemma_more_qid(s: Seq<u8>, q: Seq<u8>)
    ensures
        extends(take_qid(s), #[trigger] take_qid(s + q), q),
{
    broadcast use lemma_more_u8, lemma_more_u32, lemma_more_u64;

}

broadcast proof fn lemma_more_strs(s: Seq<u8>, n: nat, q: Seq<u8>)
    ensures
        extends(take_strs(s, n), #[trigger] take_strs(s + q, n), q),
    decreases n,
{
    broadcast use lemma_more_str;

    if n > 0 {
        lemma_more_strs(s, (n - 1) as nat, q);
    }
}

broadcast proof fn lemma_more_qids(s: Seq<u8>, n: nat, q: Seq<u8>)
    ensures
        extends(take_qids(s, n), #[trigger] take_qids(s + q, n), q),
    decreases n,
{
    broadcast use lemma_more_qid;

    if n > 0 {
        lemma_more_qids(s, (n - 1) as nat, q);
    }
}

broadcast proof fn lemma_more_u64s(s: Seq<u8>, n: nat, q: Seq<u8>)
    ensures
        extends(take_u64s(s, n), #[trigger] take_u64s(s + q, n), q),
    decreases n,
{
    broadcast use lemma_more_u64;

    if n > 0 {
        lemma_more_u64s(s, (n - 1) as nat, q);
    }
}

broadcast proof fn lemma_more_stat(s: Seq<u8>, q: Seq<u8>)
    ensures
        extends(take_stat(s), #[trigger] take_stat(s + q), q),
{
    broadcast use lemma_more_qid, lemma_more_u32, lemma_more_u64s;

}

broadcast proof fn lemma_more_counted(s: Seq<u8>, q: Seq<u8>)
    ensures
        extends(take_counted(s), #[trigger] take_counted(s + q), q),
{
    broadcast use lemma_more_u32, lemma_more_data;

}

broadcast group group_more {
    lemma_more_u8,
    lemma_more_u16,
    lemma_more_u32,
    lemma_more_u64,
    lemma_more_data,
    lemma_more_str,
    lemma_more_qid,
    lemma_more_strs,
    lemma_more_qids,
    lemma_more_u64s,
    lemma_more_stat,
    lemma_more_counted,
}

proof fn lemma_more_tbody(code: u8, tag: Tag, s: Seq<u8>, q: Seq<u8>)
    ensures
        extends(take_tbody(code, tag, s), take_tbody(code, tag, s + q), q),
{
    broadcast use group_more;

}

proof fn lemma_more_rbody(code: u8, tag: Tag, s: Seq<u8>, q: Seq<u8>)
    ensures
        extends(take_rbody(code, tag, s), take_rbody(code, tag, s + q), q),
{
    lemma_more_u16(s, q);
    lemma_more_u32(s, q);
    lemma_more_u64(s, q);
    lemma_more_str(s, q);
    lemma_more_qid(s, q);
    lemma_more_counted(s, q);
    if let Ok((_, s1)) = take_u32(s) {
        lemma_more_str(s1, q);
    }
    if let Ok((n, s1)) = take_u16(s) {
        lemma_more_qids(s1, n as nat, q);
    }
    if let Ok((_, s1)) = take_qid(s) {
        lemma_more_u32(s1, q);
    }
    if let Ok((_, s1)) = take_u64(s) {
        lemma_more_stat(s1, q);
    }
}

/// A request that ends early is refused as that: every strict prefix of its
/// bytes.
pub proof fn law_t_cut(m: TMessageView, k: int)
    requires
        put_t(m) is Ok,
        m is Rejected ==> rejected_op(m->code),
        0 <= k < put_t(m)->Ok_0.len(),
    ensures
        take_t(put_t(m)->Ok_0.take(k)) == Err::<(TMessageView, Seq<u8>), NineError>(NineError::Eom),
{
    broadcast use group_more;

    let all = put_t(m)->Ok_0;
    let s = all.take(k);
    let q = all.skip(k);
    assert(s + q =~= all);
    assert(all + Seq::<u8>::empty() =~= all);
    law_t_roundtrip(m, Seq::empty());
    if let Ok((code, s1)) = take_u8(s) {
        if let Ok((tag, s2)) = take_u16(s1) {
            lemma_more_tbody(code, Tag(tag), s2, q);
        }
    }
    assert(extends(take_t(s), take_t(s + q), q));
}

/// A reply that ends early is refused as that: every strict prefix of its bytes.
pub proof fn law_r_cut(m: RMessageView, k: int)
    requires
        put_r(m) is Ok,
        m is Readdir ==> m->Readdir_data.len() <= u32::MAX,
        m is Read ==> m->Read_data.len() <= u32::MAX,
        0 <= k < put_r(m)->Ok_0.len(),
    ensures
        take_r(put_r(m)->Ok_0.take(k)) == Err::<(RMessageView, Seq<u8>), NineError>(NineError::Eom),
{
    broadcast use group_more;

    let all = put_r(m)->Ok_0;
    let s = all.take(k);
    let q = all.skip(k);
    assert(s + q =~= all);
    assert(all + Seq::<u8>::empty() =~= all);
    law_r_roundtrip(m, Seq::empty());
    if let Ok((code, s1)) = take_u8(s) {
        if let Ok((tag, s2)) = take_u16(s1) {
            lemma_more_rbody(code, Tag(tag), s2, q);
        }
    }
    assert(extends(take_r(s), take_r(s + q), q));
}

} // verus!

//! What holds of the client, alone and with a server at the other end.
use crate::bytes::lemma_le_bytes_len;
use crate::fs::client::{parse_entries, tag_after, take_entry, RemoteError};
use crate::fs::codec::{put_r, put_t, rejected_op, take_r, take_t, RMessageView, TMessageView};
use crate::fs::codec_laws::{law_r_roundtrip, law_t_roundtrip};
use crate::fs::server::{dispatched, put_entry, reply_to, Fids};
use crate::fs::server_laws::{law_reply_tag, law_reply_written};
use crate::fs::services::{groups, live_ids};
use crate::fs::show::{comma_joined, reply_text};
use crate::fs::synthetic::ServiceView;
use crate::fs::tree::Tree;
use crate::fs::types::{DirEntryView, Tag};
use crate::fs::wire::{
    lemma_take_put_qid, lemma_take_put_u16, lemma_take_put_u64, lemma_take_put_u8, put_qid,
    put_u16, put_u64, NineError,
};
use crate::mbox::directory::SnapshotEntryView;
use crate::render::dec;
use crate::scan::strip;
use crate::text::before;
use vstd::prelude::*;
use vstd::utf8::encode_utf8;

verus! {

broadcast use lemma_le_bytes_len;

/// Tags are given out in turn; the one that means "no tag" is passed over.
pub proof fn law_tags(next: u16)
    ensures
        next < 0xffff ==> tag_after(next) == next,
        next == 0xffff ==> tag_after(next) == 0,
{
}

/// What an error counts as: the errno that the server gave, or an I/O error.
pub proof fn law_errno(e: RemoteError)
    ensures
        e matches RemoteError::Errno(n) ==> e.errno_of() == n,
        !(e is Errno) ==> e.errno_of() == 5,
{
}

/// A whole exchange: the server reads the request that the client wrote, and the
/// client reads the server's reply, under its tag, as long as it carries no more
/// data than its length can say.
pub proof fn law_exchange<T: Tree>(tree: &T, fids: Fids, m: TMessageView)
    requires
        put_t(m) is Ok,
        m is Rejected ==> rejected_op(m->code),
    ensures
        ({
            let asked = put_t(m)->Ok_0;
            let reply = reply_to(m, dispatched(tree, fids, m).1);
            &&& take_t(asked) == Ok::<(TMessageView, Seq<u8>), NineError>((m, Seq::empty()))
            &&& put_r(reply) is Ok
            &&& reply.tag_of() == m.tag_of()
            &&& (reply is Read ==> reply->Read_data.len() <= u32::MAX) && (reply is Readdir
                ==> reply->Readdir_data.len() <= u32::MAX) ==> take_r(put_r(reply)->Ok_0) == Ok::<
                (RMessageView, Seq<u8>),
                NineError,
            >((reply, Seq::empty()))
        }),
{
    let e = Seq::<u8>::empty();
    let asked = put_t(m)->Ok_0;
    let reply = reply_to(m, dispatched(tree, fids, m).1);
    law_t_roundtrip(m, e);
    assert(asked + e =~= asked);
    law_reply_written(tree, fids, asked);
    law_reply_tag(tree, fids, m);
    if (reply is Read ==> reply->Read_data.len() <= u32::MAX) && (reply is Readdir
        ==> reply->Readdir_data.len() <= u32::MAX) {
        law_r_roundtrip(reply, e);
        assert(put_r(reply)->Ok_0 + e =~= put_r(reply)->Ok_0);
    }
}

/// A listing that ends inside the head of an entry is refused; an empty one is
/// empty.
pub proof fn law_listing_refused(s: Seq<u8>)
    requires
        0 < s.len() < 24,
    ensures
        take_entry(s) is Err,
        parse_entries(s) is Err,
        parse_entries(Seq::empty()) == Ok::<Seq<DirEntryView>, Seq<char>>(Seq::empty()),
{
}

/// An entry that is cut short is refused as that: in its head, or in its name.
pub proof fn law_entry_refused(e: DirEntryView, cut: int)
    requires
        encode_utf8(e.name).len() <= 0xffff,
        0 <= cut < put_entry(e).len(),
    ensures
        cut < 24 ==> take_entry(put_entry(e).take(cut)) == Err::<(DirEntryView, Seq<u8>), Seq<char>>(
            "truncated Rreaddir entry"@,
        ),
        cut >= 24 ==> take_entry(put_entry(e).take(cut)) == Err::<
            (DirEntryView, Seq<u8>),
            Seq<char>,
        >("truncated Rreaddir name"@),
{
    let s = put_entry(e).take(cut);
    if cut >= 24 {
        let n = encode_utf8(e.name).len() as u16;
        let cutname = encode_utf8(e.name).take(cut - 24);
        let s3 = seq![e.ty] + put_u16(n) + cutname;
        let s2 = put_u64(e.offset) + s3;
        let s1 = put_qid(e.qid) + s2;
        assert(s =~= s1);
        lemma_take_put_qid(e.qid, s2);
        lemma_take_put_u64(e.offset, s3);
        assert(s3 =~= seq![e.ty] + (put_u16(n) + cutname));
        lemma_take_put_u8(e.ty, put_u16(n) + cutname);
        lemma_take_put_u16(n, cutname);
    }
}

/// The live mailboxes under a name: the rows that have it and are no tombstones,
/// in order.
pub proof fn law_live_ids(rows: Seq<SnapshotEntryView>, r: SnapshotEntryView, name: Seq<char>)
    ensures
        live_ids(Seq::empty(), name).len() == 0,
        r.name == name && !r.tombstone ==> live_ids(rows.push(r), name) == live_ids(
            rows,
            name,
        ).push(r.net_id),
        r.name != name || r.tombstone ==> live_ids(rows.push(r), name) == live_ids(rows, name),
{
    assert(rows.push(r).drop_last() =~= rows);
}

/// The services come in the order of their names, each name once, and each with a
/// live mailbox: all that are live under it, in the order of the rows.
pub proof fn law_services(
    services: Seq<ServiceView>,
    rows: Seq<SnapshotEntryView>,
    i: int,
    j: int,
    name: Seq<char>,
)
    requires
        groups(services, rows),
    ensures
        0 <= i < j < services.len() ==> before(services[i].name, services[j].name)
            && services[i].name != services[j].name,
        0 <= i < services.len() ==> services[i].net_ids.len() > 0 && services[i].net_ids
            == live_ids(rows, services[i].name),
        live_ids(rows, name).len() > 0 ==> exists|k: int|
            0 <= k < services.len() && (#[trigger] services[k]).name == name,
{
    if 0 <= i < j < services.len() {
        assert(before(services[i].name, services[j].name));
        crate::text::lemma_before_irreflexive(services[i].name);
    }
    if 0 <= i < services.len() {
        assert(services[i].net_ids == live_ids(rows, services[i].name));
    }
}

/// Texts are in the order of their first differing characters; one that goes on
/// where another ends comes after it.
pub proof fn law_text_order(p: Seq<char>, x: char, s: Seq<char>, y: char, t: Seq<char>)
    ensures
        x < y ==> before(p + seq![x] + s, p + seq![y] + t),
        x > y ==> !before(p + seq![x] + s, p + seq![y] + t),
        before(p, p + seq![x] + s),
        !before(p + seq![x] + s, p),
        !before(p, p),
    decreases p.len(),
{
    let a = p + seq![x] + s;
    let b = p + seq![y] + t;
    if p.len() == 0 {
        assert(a[0] == x);
        assert(b[0] == y);
    } else {
        let q = p.skip(1);
        law_text_order(q, x, s, y, t);
        assert(a.skip(1) =~= q + seq![x] + s);
        assert(b.skip(1) =~= q + seq![y] + t);
        assert(a[0] == p[0] && b[0] == p[0]);
    }
}

/// A reply in words starts with its name and its tag.
pub proof fn law_reply_named(m: RMessageView)
    ensures
        strip(
            reply_text(m),
            (match m {
                RMessageView::Lerror { .. } => "Lerror"@,
                RMessageView::Version { .. } => "Version"@,
                RMessageView::Attach { .. } => "Attach"@,
                RMessageView::Flush { .. } => "Flush"@,
                RMessageView::Walk { .. } => "Walk"@,
                RMessageView::Lopen { .. } => "Lopen"@,
                RMessageView::Readlink { .. } => "Readlink"@,
                RMessageView::Getattr { .. } => "Getattr"@,
                RMessageView::Readdir { .. } => "Readdir"@,
                RMessageView::Fsync { .. } => "Fsync"@,
                RMessageView::Read { .. } => "Read"@,
                RMessageView::Clunk { .. } => "Clunk"@,
            }) + " { tag: Tag("@ + dec(m.tag_of().0 as nat) + ")"@,
        ) is Some,
        m matches RMessageView::Lerror { tag, ecode } ==> reply_text(m) == "Lerror { tag: Tag("@
            + dec(tag.0 as nat) + "), ecode: "@ + dec(ecode as nat) + " }"@,
{
    let t = reply_text(m);
    let name = match m {
        RMessageView::Lerror { .. } => "Lerror"@,
        RMessageView::Version { .. } => "Version"@,
        RMessageView::Attach { .. } => "Attach"@,
        RMessageView::Flush { .. } => "Flush"@,
        RMessageView::Walk { .. } => "Walk"@,
        RMessageView::Lopen { .. } => "Lopen"@,
        RMessageView::Readlink { .. } => "Readlink"@,
        RMessageView::Getattr { .. } => "Getattr"@,
        RMessageView::Readdir { .. } => "Readdir"@,
        RMessageView::Fsync { .. } => "Fsync"@,
        RMessageView::Read { .. } => "Read"@,
        RMessageView::Clunk { .. } => "Clunk"@,
    };
    let h = name + " { tag: Tag("@ + dec(m.tag_of().0 as nat) + ")"@;
    assert(t.len() >= h.len());
    assert(t.take(h.len() as int) =~= h);
    if let RMessageView::Lerror { tag, ecode } = m {
        reveal_strlit("Lerror");
        reveal_strlit(" { tag: Tag(");
        reveal_strlit(")");
        reveal_strlit(", ecode: ");
        reveal_strlit("Lerror { tag: Tag(");
        reveal_strlit("), ecode: ");
        assert("Lerror"@ + " { tag: Tag("@ =~= "Lerror { tag: Tag("@);
        assert(")"@ + ", ecode: "@ =~= "), ecode: "@);
        assert(t =~= "Lerror { tag: Tag("@ + dec(tag.0 as nat) + "), ecode: "@ + dec(ecode as nat)
            + " }"@);
    }
}

/// The items of a list stand between commas.
pub proof fn law_comma_joined(ps: Seq<Seq<char>>, p: Seq<char>)
    ensures
        comma_joined(Seq::empty()).len() == 0,
        comma_joined(seq![p]) == p,
        ps.len() > 0 ==> comma_joined(ps.push(p)) == comma_joined(ps) + seq![',', ' '] + p,
{
    reveal_strlit("");
    reveal_strlit(", ");
    assert(", "@ =~= seq![',', ' ']);
    assert(ps.push(p).drop_last() =~= ps);
}

} // verus!

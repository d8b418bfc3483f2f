//! What the functions of the file service return and leave behind, told of the
//! functions themselves: whatever one did, it was this.
use crate::fs::client::{
    on_attach, on_clunk, on_getattr, on_open, on_read, on_readdir, on_readlink, on_version,
    on_walk, response, RemoteClient, RemoteError,
};
use crate::fs::codec::{put_t, take_r, RMessage, RMessageView, TMessage, TMessageView};
use crate::fs::namespace::{
    mounts_view, parts, Attach, Mount, Namespace, NamespaceError, SpawnSpec,
};
use crate::fs::namespace_laws::{
    all_proper, law_built, law_joined, law_mountpoint, law_elements, path_of,
};
use crate::fs::reading_laws::{entries_in, law_readdir_reply};
use crate::fs::server::{walk_path, LocalServer};
use crate::fs::tree::{entries_view, Tree};
use crate::fs::types::{DirEntry, Fid, Qid, Stat, Tag};
use crate::ident::{Frame, FrameKind, NodeId};
use crate::scan::{dec_u64, strip};
use crate::text::texts;
use vstd::prelude::*;

verus! {

/// A listing request on a directory is answered with the entries that the tree
/// lists from the cookie on, and leaves all fids as they are.
pub proof fn law_served_listing<T: Tree>(
    s: &mut LocalServer<T>,
    msg: TMessage,
    r: Result<RMessage, u32>,
    tag: Tag,
    fid: Fid,
    offset: u64,
    count: u32,
)
    requires
        call_ensures(LocalServer::<T>::dispatch, (s, msg), r),
        msg@ == (TMessageView::Readdir { tag, fid, offset, count }),
        old(s).fids@.contains_key(fid.0),
        old(s).tree.directory(old(s).fids@[fid.0].node),
    ensures
        match old(s).tree.listing(old(s).fids@[fid.0].node, offset) {
            Ok(es) => r is Ok && (crate::fs::client::names_fit(es) ==> entries_in(
                Ok::<RMessageView, u32>(r->Ok_0@),
            ) == Some(es)),
            Err(e) => r == Err::<RMessage, u32>(e),
        },
        final(s).fids@ == old(s).fids@,
        final(s).tree == old(s).tree,
{
    law_readdir_reply(&old(s).tree, old(s).fids@, tag, fid, offset, count);
}

/// A read of an open fid is answered with the bytes that the tree has there.
pub proof fn law_served_read<T: Tree>(
    s: &mut LocalServer<T>,
    msg: TMessage,
    r: Result<RMessage, u32>,
    tag: Tag,
    fid: Fid,
    offset: u64,
    count: u32,
)
    requires
        call_ensures(LocalServer::<T>::dispatch, (s, msg), r),
        msg@ == (TMessageView::Read { tag, fid, offset, count }),
    ensures
        !old(s).fids@.contains_key(fid.0) || !old(s).fids@[fid.0].opened ==> r == Err::<
            RMessage,
            u32,
        >(9),
        old(s).fids@.contains_key(fid.0) && old(s).fids@[fid.0].opened ==> match old(
            s,
        ).tree.content(old(s).fids@[fid.0].node, offset, count) {
            Ok(d) => r matches Ok(m) && m@ == (RMessageView::Read { tag, data: d }),
            Err(e) => r == Err::<RMessage, u32>(e),
        },
        final(s).fids@ == old(s).fids@,
{
}

/// A walk leads the new fid to where the names lead from the old one.
pub proof fn law_served_walk<T: Tree>(
    s: &mut LocalServer<T>,
    msg: TMessage,
    r: Result<RMessage, u32>,
    tag: Tag,
    fid: Fid,
    newfid: Fid,
    names: Seq<Seq<char>>,
)
    requires
        call_ensures(LocalServer::<T>::dispatch, (s, msg), r),
        msg@ == (TMessageView::Walk { tag, fid, newfid, wnames: names }),
        old(s).fids@.contains_key(fid.0),
    ensures
        match walk_path(&old(s).tree, old(s).fids@[fid.0].node, names) {
            Some((qids, n)) => {
                &&& r matches Ok(m) && m@ == (RMessageView::Walk { tag, wqids: qids })
                &&& final(s).fids@.contains_key(newfid.0)
                &&& final(s).fids@[newfid.0].node == n
                &&& !final(s).fids@[newfid.0].opened
            },
            None => r == Err::<RMessage, u32>(2) && final(s).fids@ == old(s).fids@,
        },
{
}

/// Only requests are answered, and only with replies.
pub proof fn law_handled<T: Tree>(
    s: &mut LocalServer<T>,
    kind: FrameKind,
    body: &[u8],
    r: Option<(FrameKind, Vec<u8>)>,
)
    requires
        call_ensures(LocalServer::<T>::handle, (s, kind, body), r),
    ensures
        kind != FrameKind::NineReq ==> r is None && final(s).fids@ == old(s).fids@,
        r matches Some((k, _)) ==> k == FrameKind::NineRsp,
        kind == FrameKind::NineReq ==> (r is Some <==> crate::fs::codec::take_t(body@) is Ok),
        final(s).tree == old(s).tree,
{
}

/// A path under a mount point goes to that mount, and what is left of it leads
/// through the names behind the mount point.
pub proof fn law_routed<T, C>(
    ns: &Namespace<T, C>,
    path: &str,
    r: Option<(&Mount<T, C>, String)>,
    at: Seq<Seq<char>>,
    rest: Seq<Seq<char>>,
)
    requires
        call_ensures(Namespace::<T, C>::route, (ns, path), r),
        all_proper(at),
        all_proper(rest),
        path@ == path_of(at + rest),
    ensures
        r matches Some((m, left)) ==> (m.at@ == path_of(at) ==> left@ == path_of(rest)),
{
    if let Some((m, left)) = r {
        if m.at@ == path_of(at) {
            let ns = at + rest;
            assert forall|i: int| 0 <= i < ns.len() implies crate::fs::namespace_laws::proper(
                #[trigger] ns[i],
            ) by {
                if i < at.len() {
                    assert(ns[i] == at[i]);
                } else {
                    assert(ns[i] == rest[i - at.len()]);
                }
            }
            law_elements(ns);
            law_elements(at);
            assert(ns.skip(at.len() as int) =~= rest);
            law_joined(rest);
        }
    }
}

/// A namespace belongs to its task, is surfaced by the task's number, and mounts
/// the own tree and each remote that was asked for.
pub proof fn law_namespace_built<T, C, F: Fn(NodeId) -> Attach<C>>(
    spec: &SpawnSpec,
    local: T,
    local_node: NodeId,
    f: F,
    r: Result<Namespace<T, C>, NamespaceError>,
)
    requires
        call_ensures(Namespace::<T, C>::build_for_spawn::<F>, (spec, local, local_node, f), r),
    ensures
        r matches Ok(ns) ==> {
            &&& ns.mbox == spec.mbox
            &&& ns.mounts@.len() == spec.bind_remote@.len() + 1
            &&& strip(ns.fuse_mountpoint@, "/run/classic/ns/"@) matches Some(t) && dec_u64(t)
                == Some(spec.mbox.0)
            &&& forall|i: int|
                0 <= i < spec.bind_remote@.len() ==> (#[trigger] spec.bind_remote@[i]).node
                    != local_node && parts(spec.bind_remote@[i].at@).len() > 0
        },
{
    if let Ok(ns) = r {
        let binds = spec.bind_remote@;
        let asked = choose|asked: Seq<Attach<C>>| #[trigger]
            crate::fs::namespace::resolver_gave(f, local, local_node, binds, asked)
                && match crate::fs::namespace::gathered(
                local,
                local_node,
                binds,
                asked,
                binds.len(),
            ) {
                Err(e) => false,
                Ok(mounts) => {
                    &&& ns.mbox == spec.mbox
                    &&& mounts_view(ns.mounts@) == crate::fs::namespace::by_depth(mounts)
                    &&& ns.fuse_mountpoint@ == crate::fs::namespace::mountpoint_of(spec.mbox)
                },
            };
        law_built(local, local_node, binds, asked, binds.len());
        let mounts = crate::fs::namespace::gathered(
            local,
            local_node,
            binds,
            asked,
            binds.len(),
        )->Ok_0;
        crate::fs::namespace::law_deepest_first(mounts);
        assert(mounts_view(ns.mounts@).len() == ns.mounts@.len());
        law_mountpoint(spec.mbox);
    }
}

/// Whether the client took one tag, the next one that is free to use.
pub open spec fn took_tag<W>(before: RemoteClient<W>, after: RemoteClient<W>, tag: Tag) -> bool {
    &&& tag.0 != 0xffff
    &&& before.next_tag != 0xffff ==> tag.0 == before.next_tag
    &&& before.next_tag == 0xffff ==> tag.0 == 0
    &&& after.next_tag == tag.0 + 1
    &&& after.waiters@ == before.waiters@
}

/// The first request asks for the protocol and the most bytes that it allows.
pub proof fn law_version_asked<W>(c: &mut RemoteClient<W>, m: TMessage)
    requires
        call_ensures(RemoteClient::<W>::version, (c,), m),
    ensures
        m@ matches TMessageView::Version { tag, msize, version } && msize == 65536 && version
            == "9P2000.L"@ && took_tag(*old(c), *final(c), tag),
        final(c).next_fid == old(c).next_fid,
{
}

/// An attach asks for the tree by its name, for a new fid and without another to
/// vouch for it.
pub proof fn law_attach_asked<W>(c: &mut RemoteClient<W>, aname: &str, r: (TMessage, Fid))
    requires
        call_ensures(RemoteClient::<W>::attach, (c, aname), r),
    ensures
        r.0@ matches TMessageView::Attach { tag, fid, afid, aname: n, .. } && fid == r.1 && afid.0
            == 0xffff_ffff && n == aname@ && took_tag(*old(c), *final(c), tag),
        r.1.0 == old(c).next_fid,
        final(c).next_fid != old(c).next_fid,
{
}

/// A walk asks for a new fid at the end of the names.
pub proof fn law_walk_asked<W>(
    c: &mut RemoteClient<W>,
    fid: Fid,
    names: Vec<String>,
    r: (TMessage, Fid),
)
    requires
        call_ensures(RemoteClient::<W>::walk, (c, fid, names), r),
    ensures
        r.0@ matches TMessageView::Walk { tag, fid: from, newfid, wnames } && from == fid && newfid
            == r.1 && wnames == texts(names@) && took_tag(*old(c), *final(c), tag),
        r.1.0 == old(c).next_fid,
        final(c).next_fid != old(c).next_fid,
{
}

/// An open asks for the fid with the caller's flags.
pub proof fn law_open_asked<W>(
    c: &mut RemoteClient<W>,
    fid: Fid,
    flags: u32,
    m: TMessage,
)
    requires
        call_ensures(RemoteClient::<W>::open, (c, fid, flags), m),
    ensures
        m@ matches TMessageView::Lopen { tag, fid: f, flags: g } && f == fid && g == flags
            && took_tag(*old(c), *final(c), tag),
        final(c).next_fid == old(c).next_fid,
{
}

/// A read asks for the caller's bytes.
pub proof fn law_read_asked<W>(
    c: &mut RemoteClient<W>,
    fid: Fid,
    offset: u64,
    count: u32,
    m: TMessage,
)
    requires
        call_ensures(RemoteClient::<W>::read, (c, fid, offset, count), m),
    ensures
        m@ matches TMessageView::Read { tag, fid: f, offset: o, count: n } && f == fid
            && o == offset && n == count && took_tag(*old(c), *final(c), tag),
        final(c).next_fid == old(c).next_fid,
{
}

/// A listing request passes the caller's cookie on.
pub proof fn law_readdir_asked<W>(
    c: &mut RemoteClient<W>,
    fid: Fid,
    offset: u64,
    count: u32,
    m: TMessage,
)
    requires
        call_ensures(RemoteClient::<W>::readdir, (c, fid, offset, count), m),
    ensures
        m@ matches TMessageView::Readdir { tag, fid: f, offset: o, count: n } && f == fid
            && o == offset && n == count && took_tag(*old(c), *final(c), tag),
        final(c).next_fid == old(c).next_fid,
{
}

/// A request for attributes asks for all the basic ones.
pub proof fn law_getattr_asked<W>(
    c: &mut RemoteClient<W>,
    fid: Fid,
    m: TMessage,
)
    requires
        call_ensures(RemoteClient::<W>::getattr, (c, fid), m),
    ensures
        m@ matches TMessageView::Getattr { tag, fid: f, request_mask } && f == fid
            && request_mask == 0x7ff && took_tag(*old(c), *final(c), tag),
        final(c).next_fid == old(c).next_fid,
{
}

/// A request for a link's target names the fid.
pub proof fn law_readlink_asked<W>(
    c: &mut RemoteClient<W>,
    fid: Fid,
    m: TMessage,
)
    requires
        call_ensures(RemoteClient::<W>::readlink, (c, fid), m),
    ensures
        m@ matches TMessageView::Readlink { tag, fid: f } && f == fid
            && took_tag(*old(c), *final(c), tag),
        final(c).next_fid == old(c).next_fid,
{
}

/// A clunk names the fid.
pub proof fn law_clunk_asked<W>(
    c: &mut RemoteClient<W>,
    fid: Fid,
    m: TMessage,
)
    requires
        call_ensures(RemoteClient::<W>::clunk, (c, fid), m),
    ensures
        m@ matches TMessageView::Clunk { tag, fid: f } && f == fid
            && took_tag(*old(c), *final(c), tag),
        final(c).next_fid == old(c).next_fid,
{
}

/// A request waits under its tag for its reply.
pub proof fn law_requested<W>(
    c: &mut RemoteClient<W>,
    msg: &TMessage,
    waiter: W,
    r: (Result<Frame, RemoteError>, Option<W>),
)
    requires
        call_ensures(RemoteClient::<W>::request, (c, msg, waiter), r),
    ensures
        final(c).waiters@.contains_key(msg@.tag_of().0),
        final(c).waiters@[msg@.tag_of().0] == waiter,
        forall|t: u16|
            t != msg@.tag_of().0 ==> #[trigger] final(c).waiters@.contains_key(t)
                == old(c).waiters@.contains_key(t),
        put_t(msg@) matches Ok(b) ==> (r.0 matches Ok(f) && f.kind == 0x0400 && f.payload@ == b),
        put_t(msg@) is Err ==> r.0 is Err,
{
}

/// A reply goes to the one that waits under its tag, and only to that one.
pub proof fn law_reply_delivered<W>(
    c: &mut RemoteClient<W>,
    frame: &Frame,
    r: Option<(W, RMessage)>,
)
    requires
        call_ensures(RemoteClient::<W>::deliver_response, (c, frame), r),
    ensures
        take_r(frame.payload@) matches Ok((m, _)) ==> {
            let t = m.tag_of().0;
            &&& r is Some <==> old(c).waiters@.contains_key(t)
            &&& r matches Some((w, got)) ==> w == old(c).waiters@[t] && got@ == m
            &&& !final(c).waiters@.contains_key(t)
            &&& forall|u: u16|
                u != t ==> #[trigger] final(c).waiters@.contains_key(u)
                    == old(c).waiters@.contains_key(u)
        },
        take_r(frame.payload@) is Err ==> r is None && final(c).waiters@ == old(c).waiters@,
{
}

/// When the connection is lost every waiter gets an I/O error under its own tag.
pub proof fn law_all_failed<W>(c: &mut RemoteClient<W>, r: Vec<(W, RMessage)>, i: int)
    requires
        call_ensures(RemoteClient::<W>::fail_all_in_flight, (c,), r),
        0 <= i < r@.len(),
    ensures
        final(c).waiters@.dom().is_empty(),
        r@.len() == old(c).waiters@.dom().len(),
        r@[i].1@ matches RMessageView::Lerror { tag, ecode } && ecode == 5
            && old(c).waiters@.contains_key(tag.0) && r@[i].0 == old(c).waiters@[tag.0],
{
    let t = r@[i].1@.tag_of();
    assert(old(c).waiters@.contains_key(t.0));
}

/// An error reply is the errno that it carries, a lost one a lost connection, and
/// any other is handed on.
pub proof fn law_response(got: Option<RMessage>, r: Result<RMessage, RemoteError>)
    requires
        call_ensures(response, (got,), r),
    ensures
        got is None ==> (r matches Err(e) && e is Transport && e.errno_of() == 5),
        got matches Some(m) ==> (m@ matches RMessageView::Lerror { ecode, .. } ==> r matches Err(e)
            && e == RemoteError::Errno(ecode)),
        got matches Some(m) ==> (!(m@ is Lerror) ==> r == Ok::<RMessage, RemoteError>(m)),
{
}

/// A reply of the right kind gives what it carries; any other is a complaint.
pub proof fn law_replies_read(
    m: RMessage,
    fid: Fid,
    size: Result<u32, RemoteError>,
    attached: Result<Fid, RemoteError>,
    walked: Result<Fid, RemoteError>,
    opened: Result<Qid, RemoteError>,
    read: Result<Vec<u8>, RemoteError>,
    stat: Result<Stat, RemoteError>,
    target: Result<String, RemoteError>,
    clunked: Result<(), RemoteError>,
)
    requires
        call_ensures(on_version, (m,), size),
        call_ensures(on_attach, (m, fid), attached),
        call_ensures(on_walk, (m, fid), walked),
        call_ensures(on_open, (m,), opened),
        call_ensures(on_read, (m,), read),
        call_ensures(on_getattr, (m,), stat),
        call_ensures(on_readlink, (m,), target),
        call_ensures(on_clunk, (m,), clunked),
    ensures
        size is Ok <==> m@ is Version,
        m@ matches RMessageView::Version { msize, .. } ==> size == Ok::<u32, RemoteError>(msize),
        attached is Ok <==> m@ is Attach,
        attached matches Ok(f) ==> f == fid,
        walked is Ok <==> m@ is Walk,
        walked matches Ok(f) ==> f == fid,
        opened is Ok <==> m@ is Lopen,
        m@ matches RMessageView::Lopen { qid, .. } ==> opened == Ok::<Qid, RemoteError>(qid),
        read is Ok <==> m@ is Read,
        m@ matches RMessageView::Read { data, .. } ==> read->Ok_0@ == data,
        stat is Ok <==> m@ is Getattr,
        m@ matches RMessageView::Getattr { stat: s, .. } ==> stat == Ok::<Stat, RemoteError>(s),
        target is Ok <==> m@ is Readlink,
        m@ matches RMessageView::Readlink { target: t, .. } ==> target->Ok_0@ == t,
        clunked is Ok <==> m@ is Clunk,
{
}

/// A listing that the server sent is read as it was.
pub proof fn law_listing_read(
    m: RMessage,
    r: Result<Vec<DirEntry>, RemoteError>,
    es: Seq<crate::fs::types::DirEntryView>,
)
    requires
        call_ensures(on_readdir, (m,), r),
        crate::fs::client::names_fit(es),
        m@ matches RMessageView::Readdir { data, .. } && data == crate::fs::server::put_entries(es),
    ensures
        r matches Ok(v) && entries_view(v@) == es,
{
    crate::fs::client::law_listing_read_back(es);
}

} // verus!

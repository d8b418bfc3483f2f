//! What holds of the server over whole exchanges.
use crate::fs::codec::{put_r, take_t, RMessageView, TMessageView, MAX_WALK_NAMES};
use crate::fs::errno::{EBADF, EROFS};
use crate::fs::server::{dispatched, mutating_op, reply_to, walk_path, FidHandle, Fids};
use crate::fs::tree::{NodeId, Tree};
use crate::fs::types::{Fid, Qid, Tag};
use crate::fs::wire::{lemma_put_take_strs, str_fits, take_u16, take_u32, take_u8};
use vstd::prelude::*;

verus! {

/// Every reply carries the tag of its request.
pub proof fn law_reply_tag<T: Tree>(tree: &T, fids: Fids, m: TMessageView)
    ensures
        reply_to(m, dispatched(tree, fids, m).1).tag_of() == m.tag_of(),
{
}

/// A walk yields one qid for each name.
pub proof fn law_walk_qids<T: Tree>(tree: &T, start: NodeId, names: Seq<Seq<char>>)
    requires
        walk_path(tree, start, names) is Some,
    ensures
        walk_path(tree, start, names)->Some_0.0.len() == names.len(),
    decreases names.len(),
{
    if names.len() > 0 {
        law_walk_qids(tree, start, names.drop_last());
    }
}

/// Every request that can be parsed is answered: its reply can be written. It
/// is the dispatched one unless that is a link target too long for the wire,
/// which becomes an I/O error.
pub proof fn law_reply_written<T: Tree>(tree: &T, fids: Fids, s: Seq<u8>)
    requires
        take_t(s) is Ok,
    ensures
        ({
            let m = take_t(s)->Ok_0.0;
            let r = dispatched(tree, fids, m).1;
            &&& put_r(reply_to(m, r)) is Ok
            &&& r matches Ok(reply) ==> {
                ||| reply_to(m, r) == reply
                ||| reply matches RMessageView::Readlink { target, .. } && !str_fits(target)
            }
        }),
{
    let m = take_t(s)->Ok_0.0;
    let r = dispatched(tree, fids, m).1;
    if let TMessageView::Walk { wnames, fid, .. } = m {
        let s1 = take_u8(s)->Ok_0.1;
        let b = take_u16(s1)->Ok_0.1;
        let b1 = take_u32(b)->Ok_0.1;
        let b2 = take_u32(b1)->Ok_0.1;
        let (n, b3) = take_u16(b2)->Ok_0;
        lemma_put_take_strs(b3, n as nat);
        assert(wnames.len() <= MAX_WALK_NAMES);
        if r is Ok {
            law_walk_qids(tree, fids[fid.0].node, wnames);
        }
    }
    if let TMessageView::Version { .. } = m {
        lemma_version_fits();
        law_version_reply(tree, fids, m);
    }
}

proof fn lemma_version_fits()
    ensures
        str_fits("9P2000.L"@),
        str_fits("unknown"@),
{
    reveal_strlit("9P2000.L");
    reveal_strlit("unknown");
    vstd::utf8::is_ascii_chars_encode_utf8("9P2000.L"@);
    vstd::utf8::is_ascii_chars_encode_utf8("unknown"@);
}

/// The version reply names the protocol that the server speaks, or `unknown`.
pub proof fn law_version_reply<T: Tree>(tree: &T, fids: Fids, m: TMessageView)
    requires
        m is Version,
    ensures
        dispatched(tree, fids, m).1 matches Ok(RMessageView::Version { version, .. }) && (version
            == "9P2000.L"@ || version == "unknown"@),
{
}

/// The server is read-only: an op that would change the tree, and an open for
/// writing, is answered with `EROFS` and changes nothing.
pub proof fn law_read_only<T: Tree>(tree: &T, fids: Fids, m: TMessageView)
    requires
        ({
            ||| m matches TMessageView::Rejected { code, .. } && mutating_op(code)
            ||| m matches TMessageView::Lopen { flags, .. } && flags & 3 != 0
        }),
    ensures
        dispatched(tree, fids, m) == (fids, Err::<RMessageView, u32>(EROFS)),
{
}

/// A request that fails leaves the fid table as it was. Attaching to a tree
/// without a root is the one exception.
pub proof fn law_error_keeps_fids<T: Tree>(tree: &T, fids: Fids, m: TMessageView)
    requires
        dispatched(tree, fids, m).1 is Err,
        m !is Attach,
    ensures
        dispatched(tree, fids, m).0 == fids,
{
}

/// The fid that a request sets or drops, if it does.
pub open spec fn touched(m: TMessageView) -> Option<Fid> {
    match m {
        TMessageView::Attach { fid, .. } => Some(fid),
        TMessageView::Walk { newfid, .. } => Some(newfid),
        TMessageView::Lopen { fid, .. } => Some(fid),
        TMessageView::Clunk { fid, .. } => Some(fid),
        _ => None,
    }
}

/// A request leaves every fid alone but the one it is about.
pub proof fn law_other_fids_kept<T: Tree>(tree: &T, fids: Fids, m: TMessageView, other: u32)
    requires
        touched(m) != Some(Fid(other)),
    ensures
        dispatched(tree, fids, m).0.contains_key(other) == fids.contains_key(other),
        fids.contains_key(other) ==> dispatched(tree, fids, m).0[other] == fids[other],
{
}

/// Whether a request works on a fid that has to exist.
pub open spec fn uses_fid(m: TMessageView, f: Fid) -> bool {
    match m {
        TMessageView::Walk { fid, .. } => fid == f,
        TMessageView::Lopen { fid, flags, .. } => fid == f && flags & 3 == 0,
        TMessageView::Readlink { fid, .. } => fid == f,
        TMessageView::Getattr { fid, .. } => fid == f,
        TMessageView::Readdir { fid, .. } => fid == f,
        TMessageView::Read { fid, .. } => fid == f,
        TMessageView::Clunk { fid, .. } => fid == f,
        _ => false,
    }
}

/// A clunked fid is gone: whatever is asked of it next, a second clunk too, is
/// answered with `EBADF`.
pub proof fn law_clunk_forgets<T: Tree>(
    tree: &T,
    fids: Fids,
    tag: Tag,
    fid: Fid,
    next: TMessageView,
)
    requires
        uses_fid(next, fid),
    ensures
        ({
            let after = dispatched(tree, fids, TMessageView::Clunk { tag, fid }).0;
            dispatched(tree, after, next) == (after, Err::<RMessageView, u32>(EBADF))
        }),
{
}

/// A walk of no names clones the fid: the new one stands for the same node, is
/// not open, and no qid comes back.
pub proof fn law_walk_clones<T: Tree>(tree: &T, fids: Fids, tag: Tag, fid: Fid, newfid: Fid)
    requires
        fids.contains_key(fid.0),
    ensures
        dispatched(
            tree,
            fids,
            TMessageView::Walk { tag, fid, newfid, wnames: Seq::empty() },
        ) == (
            fids.insert(newfid.0, FidHandle { node: fids[fid.0].node, opened: false }),
            Ok::<RMessageView, u32>(RMessageView::Walk { tag, wqids: Seq::empty() }),
        ),
{
}

/// Walking in two steps is walking in one: the names of the second step follow
/// those of the first.
pub proof fn law_walk_steps<T: Tree>(
    tree: &T,
    start: NodeId,
    first: Seq<Seq<char>>,
    second: Seq<Seq<char>>,
)
    requires
        walk_path(tree, start, first) is Some,
    ensures
        walk_path(tree, start, first + second) == match walk_path(
            tree,
            walk_path(tree, start, first)->Some_0.1,
            second,
        ) {
            None => None::<(Seq<Qid>, NodeId)>,
            Some((qids, node)) => Some((walk_path(tree, start, first)->Some_0.0 + qids, node)),
        },
    decreases second.len(),
{
    let (qids, mid) = walk_path(tree, start, first)->Some_0;
    if second.len() == 0 {
        assert(first + second =~= first);
        assert(qids + Seq::<Qid>::empty() =~= qids);
    } else {
        law_walk_steps(tree, start, first, second.drop_last());
        assert((first + second).drop_last() =~= first + second.drop_last());
        if let Some((more, at)) = walk_path(tree, mid, second.drop_last()) {
            if let Some(next) = tree.child(at, second.last()) {
                if let Some(q) = tree.identity(next) {
                    assert((qids + more).push(q) =~= qids + more.push(q));
                }
            }
        }
    }
}

/// A file that was opened can be read: the reply is what the tree holds there.
/// A fid that was not opened since it was attached or walked to cannot.
pub proof fn law_open_then_read<T: Tree>(
    tree: &T,
    fids: Fids,
    open: TMessageView,
    tag: Tag,
    offset: u64,
    count: u32,
)
    requires
        open is Lopen,
        dispatched(tree, fids, open).1 is Ok,
    ensures
        ({
            let fid = open->Lopen_fid;
            let after = dispatched(tree, fids, open).0;
            let read = TMessageView::Read { tag, fid, offset, count };
            dispatched(tree, after, read) == (
                after,
                match tree.content(fids[fid.0].node, offset, count) {
                    Ok(data) => Ok::<RMessageView, u32>(RMessageView::Read { tag, data }),
                    Err(e) => Err::<RMessageView, u32>(e),
                },
            )
        }),
{
}

/// A fid fresh from an attach or a walk is not open, so it cannot be read.
pub proof fn law_unopened_not_read<T: Tree>(
    tree: &T,
    fids: Fids,
    m: TMessageView,
    tag: Tag,
    offset: u64,
    count: u32,
)
    requires
        m is Attach || m is Walk,
        dispatched(tree, fids, m).1 is Ok,
    ensures
        ({
            let after = dispatched(tree, fids, m).0;
            let read = TMessageView::Read { tag, fid: touched(m)->Some_0, offset, count };
            dispatched(tree, after, read) == (after, Err::<RMessageView, u32>(EBADF))
        }),
{
}

/// A version reply settles the session: no more bytes than asked for and than the
/// server takes, and the protocol it speaks where that was asked for.
pub proof fn law_version_settled<T: Tree>(
    tree: &T,
    fids: Fids,
    tag: Tag,
    msize: u32,
    version: Seq<char>,
)
    ensures
        ({
            let (after, r) = dispatched(tree, fids, TMessageView::Version { tag, msize, version });
            &&& after == fids
            &&& r matches Ok(RMessageView::Version { tag: t, msize: m, version: v }) && {
                &&& t == tag
                &&& m <= msize && m <= 65536 && (m == msize || m == 65536)
                &&& version == "9P2000.L"@ ==> v == "9P2000.L"@
                &&& version != "9P2000.L"@ ==> v == "unknown"@
            }
        }),
{
}

/// An attach makes the fid stand for the root, not open, whatever it stood for,
/// and answers with the root's qid.
pub proof fn law_attach<T: Tree>(tree: &T, fids: Fids, m: TMessageView)
    requires
        m is Attach,
    ensures
        ({
            let (after, r) = dispatched(tree, fids, m);
            let fid = m->Attach_fid.0;
            &&& after.contains_key(fid)
            &&& after[fid].node == 0
            &&& !after[fid].opened
            &&& match tree.identity(0) {
                Some(q) => r == Ok::<RMessageView, u32>(
                    RMessageView::Attach { tag: m.tag_of(), qid: q },
                ),
                None => r == Err::<RMessageView, u32>(5),
            }
        }),
{
}

/// An open for reading answers with the qid of the fid's node and opens the fid;
/// the node stays. A fid that is not there, or whose node is gone, is bad.
pub proof fn law_open<T: Tree>(tree: &T, fids: Fids, tag: Tag, fid: Fid, flags: u32)
    requires
        flags & 3 == 0,
    ensures
        ({
            let (after, r) = dispatched(tree, fids, TMessageView::Lopen { tag, fid, flags });
            let there = fids.contains_key(fid.0) && tree.identity(fids[fid.0].node) is Some;
            &&& there ==> after.contains_key(fid.0) && after[fid.0].opened && after[fid.0].node
                == fids[fid.0].node && r == Ok::<RMessageView, u32>(
                RMessageView::Lopen {
                    tag,
                    qid: tree.identity(fids[fid.0].node)->Some_0,
                    iounit: 0,
                },
            )
            &&& !there ==> after == fids && r == Err::<RMessageView, u32>(9)
        }),
{
}

/// A fid tells where its link points and what its attributes are, as the tree has
/// them, all that were asked for counting; what is no link is an invalid argument.
pub proof fn law_told_of_fid<T: Tree>(
    tree: &T,
    fids: Fids,
    tag: Tag,
    fid: Fid,
    request_mask: u64,
)
    requires
        fids.contains_key(fid.0),
    ensures
        ({
            let n = fids[fid.0].node;
            &&& dispatched(tree, fids, TMessageView::Readlink { tag, fid }) == (
                fids,
                if tree.link(n) is Some {
                    Ok::<RMessageView, u32>(
                        RMessageView::Readlink { tag, target: tree.link(n)->Some_0 },
                    )
                } else {
                    Err::<RMessageView, u32>(22)
                },
            )
            &&& dispatched(tree, fids, TMessageView::Getattr { tag, fid, request_mask }) == (
                fids,
                if tree.attributes(n) is Some {
                    Ok::<RMessageView, u32>(
                        RMessageView::Getattr {
                            tag,
                            valid: request_mask,
                            stat: tree.attributes(n)->Some_0,
                        },
                    )
                } else {
                    Err::<RMessageView, u32>(9)
                },
            )
        }),
{
}

/// What is no directory cannot be listed.
pub proof fn law_list_directories_only<T: Tree>(
    tree: &T,
    fids: Fids,
    tag: Tag,
    fid: Fid,
    offset: u64,
    count: u32,
)
    requires
        fids.contains_key(fid.0),
        !tree.directory(fids[fid.0].node),
    ensures
        dispatched(tree, fids, TMessageView::Readdir { tag, fid, offset, count }) == (
            fids,
            Err::<RMessageView, u32>(20),
        ),
{
}

/// A clunk drops the fid and nothing else, open or not.
pub proof fn law_clunk<T: Tree>(tree: &T, fids: Fids, tag: Tag, fid: Fid)
    requires
        fids.contains_key(fid.0),
    ensures
        ({
            let (after, r) = dispatched(tree, fids, TMessageView::Clunk { tag, fid });
            &&& !after.contains_key(fid.0)
            &&& r == Ok::<RMessageView, u32>(RMessageView::Clunk { tag })
        }),
{
}

/// A flush and a sync have nothing to do, and say so, whatever the fid.
pub proof fn law_nothing_to_do<T: Tree>(tree: &T, fids: Fids, tag: Tag, oldtag: Tag, fid: Fid)
    ensures
        dispatched(tree, fids, TMessageView::Flush { tag, oldtag }) == (
            fids,
            Ok::<RMessageView, u32>(RMessageView::Flush { tag }),
        ),
        dispatched(tree, fids, TMessageView::Fsync { tag, fid }) == (
            fids,
            Ok::<RMessageView, u32>(RMessageView::Fsync { tag }),
        ),
{
}

/// What is not served: an op that would create, link, rename, write, remove or set
/// attributes is refused as on a read-only file system, any other as unsupported.
pub proof fn law_not_served<T: Tree>(tree: &T, fids: Fids, tag: Tag, code: u8)
    ensures
        dispatched(tree, fids, TMessageView::Rejected { tag, code }) == (
            fids,
            Err::<RMessageView, u32>(
                if code == 14 || code == 16 || code == 18 || code == 20 || code == 26 || code == 70
                    || code == 72 || code == 74 || code == 76 || code == 118 || code == 122 {
                    30
                } else {
                    95
                },
            ),
        ),
{
}

/// A read gives what the tree gives from the offset on, where the fid is open.
pub proof fn law_read<T: Tree>(
    tree: &T,
    fids: Fids,
    tag: Tag,
    fid: Fid,
    offset: u64,
    count: u32,
)
    requires
        fids.contains_key(fid.0),
        fids[fid.0].opened,
    ensures
        ({
            let (after, r) = dispatched(tree, fids, TMessageView::Read { tag, fid, offset, count });
            &&& after == fids
            &&& match tree.content(fids[fid.0].node, offset, count) {
                Ok(d) => r == Ok::<RMessageView, u32>(RMessageView::Read { tag, data: d }),
                Err(e) => r == Err::<RMessageView, u32>(e),
            }
        }),
{
}

/// A walk takes one step for each name, each to what the tree has under it; it
/// fails where a step does.
pub proof fn law_walk_step<T: Tree>(
    tree: &T,
    start: NodeId,
    names: Seq<Seq<char>>,
    name: Seq<char>,
)
    ensures
        walk_path(tree, start, Seq::empty()) == Some((Seq::<Qid>::empty(), start)),
        walk_path(tree, start, names) is None ==> walk_path(tree, start, names.push(name)) is None,
        walk_path(tree, start, names) matches Some((qids, at)) ==> match tree.child(at, name) {
            Some(next) => match tree.identity(next) {
                Some(q) => walk_path(tree, start, names.push(name)) == Some((qids.push(q), next)),
                None => walk_path(tree, start, names.push(name)) is None,
            },
            None => walk_path(tree, start, names.push(name)) is None,
        },
{
    assert(names.push(name).drop_last() =~= names);
}

/// An error is answered under the request's tag with its number; a reply that can
/// be written is sent as it is.
pub proof fn law_reply(m: TMessageView, r: Result<RMessageView, u32>)
    ensures
        r matches Err(e) ==> reply_to(m, r) == (RMessageView::Lerror { tag: m.tag_of(), ecode: e }),
        r matches Ok(reply) ==> (put_r(reply) is Ok ==> reply_to(m, r) == reply),
        r matches Ok(reply) ==> (put_r(reply) is Err ==> reply_to(m, r) == (RMessageView::Lerror {
            tag: m.tag_of(),
            ecode: 5,
        })),
{
}

} // verus!

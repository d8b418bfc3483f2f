//! Local 9P2000.L server. Consumes inbound T-messages and emits R-messages, or
//! `Rlerror` for what a read-mostly server rejects.
//!
//! The filesystem content comes from a pluggable [`Tree`].
use crate::bytes::{le_bytes, lemma_le_bytes_len, push_le};
use crate::fs::codec::{
    decode_t, encode_r, put_r, take_t, RMessage, RMessageView, TMessage, TMessageView, MAX_MSIZE,
};
use crate::fs::errno::{EBADF, EINVAL, EIO, ENOENT, ENOTDIR, EOPNOTSUPP, EROFS};
use crate::fs::tcode::{
    TLCREATE, TLINK, TMKDIR, TMKNOD, TREMOVE, TRENAME, TRENAMEAT, TSETATTR, TSYMLINK, TUNLINKAT,
    TWRITE,
};
use crate::fs::tree::{entries_view, NodeId, Tree, ROOT_NODE};
use crate::fs::types::{DirEntry, DirEntryView, Fid, Qid};
use crate::fs::wire::{put_qid, put_u64, NineError, W};
use crate::ident::FrameKind;
use crate::text::{text_eq, texts};
use std::collections::HashMap;
use vstd::prelude::*;
use vstd::utf8::encode_utf8;

verus! {

broadcast use {vstd::std_specs::hash::group_hash_axioms, lemma_le_bytes_len};

/// Server-side handle for one fid: the underlying tree node plus whether the
/// client has opened it via Tlopen.
#[derive(Copy, Clone, Debug, PartialEq, Eq, Structural)]
pub struct FidHandle {
    pub node: NodeId,
    pub opened: bool,
}

/// Local 9P server. One per attach context.
pub struct LocalServer<T: Tree> {
    pub tree: T,
    pub fids: HashMap<u32, FidHandle>,
}

/// The fid table: which node each fid stands for.
pub type Fids = Map<u32, FidHandle>;

/// The protocol version the server speaks.
pub open spec fn protocol() -> Seq<char> {
    "9P2000.L"@
}

/// Walks `names` from `start`: the qid of every node on the way and the node at
/// the end, if every name is found.
pub open spec fn walk_path<T: Tree>(tree: &T, start: NodeId, names: Seq<Seq<char>>) -> Option<
    (Seq<Qid>, NodeId),
>
    decreases names.len(),
{
    if names.len() == 0 {
        Some((Seq::empty(), start))
    } else {
        match walk_path(tree, start, names.drop_last()) {
            None => None,
            Some((qids, at)) => match tree.child(at, names.last()) {
                None => None,
                Some(next) => match tree.identity(next) {
                    None => None,
                    Some(qid) => Some((qids.push(qid), next)),
                },
            },
        }
    }
}

/// One directory entry on the wire: qid, cookie, type, and the name behind the
/// low 16 bits of its length.
pub open spec fn put_entry(e: DirEntryView) -> Seq<u8> {
    put_qid(e.qid) + put_u64(e.offset) + seq![e.ty] + le_bytes(encode_utf8(e.name).len(), 2)
        + encode_utf8(e.name)
}

/// Directory entries on the wire.
pub open spec fn put_entries(es: Seq<DirEntryView>) -> Seq<u8>
    decreases es.len(),
{
    if es.len() == 0 {
        Seq::empty()
    } else {
        put_entries(es.drop_last()) + put_entry(es.last())
    }
}

/// The ops that would change the tree.
pub open spec fn mutating_op(code: u8) -> bool {
    ||| code == TLCREATE
    ||| code == TSYMLINK
    ||| code == TMKNOD
    ||| code == TRENAME
    ||| code == TSETATTR
    ||| code == TLINK
    ||| code == TMKDIR
    ||| code == TRENAMEAT
    ||| code == TUNLINKAT
    ||| code == TWRITE
    ||| code == TREMOVE
}

/// What a request does: the fid table after it, and the reply or the errno.
pub open spec fn dispatched<T: Tree>(tree: &T, fids: Fids, m: TMessageView) -> (
    Fids,
    Result<RMessageView, u32>,
) {
    match m {
        TMessageView::Version { tag, msize, version } => {
            let msize = if msize <= MAX_MSIZE {
                msize
            } else {
                MAX_MSIZE
            };
            let version = if version == protocol() {
                version
            } else {
                "unknown"@
            };
            (fids, Ok(RMessageView::Version { tag, msize, version }))
        },
        TMessageView::Attach { tag, fid, .. } => (
            fids.insert(fid.0, FidHandle { node: ROOT_NODE, opened: false }),
            match tree.identity(ROOT_NODE) {
                Some(qid) => Ok(RMessageView::Attach { tag, qid }),
                None => Err(EIO),
            },
        ),
        TMessageView::Flush { tag, .. } => (fids, Ok(RMessageView::Flush { tag })),
        TMessageView::Walk { tag, fid, newfid, wnames } => if !fids.contains_key(fid.0) {
            (fids, Err(EBADF))
        } else {
            match walk_path(tree, fids[fid.0].node, wnames) {
                None => (fids, Err(ENOENT)),
                Some((wqids, node)) => (
                    fids.insert(newfid.0, FidHandle { node, opened: false }),
                    Ok(RMessageView::Walk { tag, wqids }),
                ),
            }
        },
        TMessageView::Lopen { tag, fid, flags } => if flags & 3 != 0 {
            (fids, Err(EROFS))
        } else if !fids.contains_key(fid.0) {
            (fids, Err(EBADF))
        } else {
            let node = fids[fid.0].node;
            match tree.identity(node) {
                None => (fids, Err(EBADF)),
                Some(qid) => (
                    fids.insert(fid.0, FidHandle { node, opened: true }),
                    Ok(RMessageView::Lopen { tag, qid, iounit: 0 }),
                ),
            }
        },
        TMessageView::Readlink { tag, fid } => (
            fids,
            if !fids.contains_key(fid.0) {
                Err(EBADF)
            } else {
                match tree.link(fids[fid.0].node) {
                    None => Err(EINVAL),
                    Some(target) => Ok(RMessageView::Readlink { tag, target }),
                }
            },
        ),
        TMessageView::Getattr { tag, fid, request_mask } => (
            fids,
            if !fids.contains_key(fid.0) {
                Err(EBADF)
            } else {
                match tree.attributes(fids[fid.0].node) {
                    None => Err(EBADF),
                    Some(stat) => Ok(RMessageView::Getattr { tag, valid: request_mask, stat }),
                }
            },
        ),
        TMessageView::Readdir { tag, fid, offset, .. } => (
            fids,
            if !fids.contains_key(fid.0) {
                Err(EBADF)
            } else if !tree.directory(fids[fid.0].node) {
                Err(ENOTDIR)
            } else {
                match tree.listing(fids[fid.0].node, offset) {
                    Err(e) => Err(e),
                    Ok(es) => Ok(RMessageView::Readdir { tag, data: put_entries(es) }),
                }
            },
        ),
        TMessageView::Fsync { tag, .. } => (fids, Ok(RMessageView::Fsync { tag })),
        TMessageView::Read { tag, fid, offset, count } => (
            fids,
            if !fids.contains_key(fid.0) || !fids[fid.0].opened {
                Err(EBADF)
            } else {
                match tree.content(fids[fid.0].node, offset, count) {
                    Err(e) => Err(e),
                    Ok(data) => Ok(RMessageView::Read { tag, data }),
                }
            },
        ),
        TMessageView::Clunk { tag, fid } => if fids.contains_key(fid.0) {
            (fids.remove(fid.0), Ok(RMessageView::Clunk { tag }))
        } else {
            (fids, Err(EBADF))
        },
        TMessageView::Rejected { code, .. } => (
            fids,
            Err(
                if mutating_op(code) {
                    EROFS
                } else {
                    EOPNOTSUPP
                },
            ),
        ),
    }
}

/// The reply to a request: what was dispatched, an error as `Rlerror` with the
/// request's tag. A reply that cannot be written becomes an I/O error.
pub open spec fn reply_to(m: TMessageView, r: Result<RMessageView, u32>) -> RMessageView {
    match r {
        Ok(reply) => if put_r(reply) is Ok {
            reply
        } else {
            RMessageView::Lerror { tag: m.tag_of(), ecode: EIO }
        },
        Err(ecode) => RMessageView::Lerror { tag: m.tag_of(), ecode },
    }
}

/// What was returned is the expected reply.
pub open spec fn gives_reply(
    r: Result<RMessage, u32>,
    want: Result<RMessageView, u32>,
) -> bool {
    match want {
        Ok(m) => r is Ok && r->Ok_0@ == m,
        Err(e) => r == Err::<RMessage, u32>(e),
    }
}

fn write_entries(entries: &Vec<DirEntry>) -> (data: Vec<u8>)
    ensures
        data@ == put_entries(entries_view(entries@)),
{
    let ghost all = entries_view(entries@);
    let mut w = W::new();
    let mut k: usize = 0;
    assert(all.take(0) =~= Seq::empty());
    while k < entries.len()
        invariant
            k <= entries.len(),
            all == entries_view(entries@),
            w@ == put_entries(all.take(k as int)),
        decreases entries.len() - k,
    {
        let ghost before = w@;
        let e = &entries[k];
        let name = e.name.as_str().as_bytes();
        w.qid(e.qid);
        w.u64(e.offset);
        w.u8(e.ty);
        push_le(&mut w.buf, name.len() as u64, 2);
        w.data(name);
        proof {
            assert(all.take(k + 1).drop_last() =~= all.take(k as int));
            assert(all.take(k + 1).last() == e@);
            assert(w@ =~= before + put_entry(e@));
        }
        k = k + 1;
    }
    assert(all.take(k as int) =~= all);
    w.into_vec()
}

fn refusal(code: u8) -> (e: u32)
    ensures
        e == if mutating_op(code) {
            EROFS
        } else {
            EOPNOTSUPP
        },
{
    if code == TLCREATE || code == TSYMLINK || code == TMKNOD || code == TRENAME || code == TSETATTR
        || code == TLINK || code == TMKDIR || code == TRENAMEAT || code == TUNLINKAT || code
        == TWRITE || code == TREMOVE {
        EROFS
    } else {
        EOPNOTSUPP
    }
}

impl<T: Tree> LocalServer<T> {
    pub fn new(tree: T) -> (s: Self)
        ensures
            s.tree == tree,
            s.fids@ == Map::<u32, FidHandle>::empty(),
    {
        LocalServer { tree, fids: HashMap::new() }
    }

    fn lookup_node(&self, fid: Fid) -> (r: Result<NodeId, u32>)
        ensures
            r == if self.fids@.contains_key(fid.0) {
                Ok::<NodeId, u32>(self.fids@[fid.0].node)
            } else {
                Err::<NodeId, u32>(EBADF)
            },
    {
        match self.fids.get(&fid.0) {
            Some(h) => Ok(h.node),
            None => Err(EBADF),
        }
    }

    fn insert_fid(&mut self, fid: Fid, node: NodeId)
        ensures
            final(self).tree == old(self).tree,
            final(self).fids@ == old(self).fids@.insert(fid.0, FidHandle { node, opened: false }),
    {
        self.fids.insert(fid.0, FidHandle { node, opened: false });
    }

    /// Walks every name or fails; the tree is only looked at.
    fn walk(&self, start: NodeId, wnames: &Vec<String>) -> (r: Option<(Vec<Qid>, NodeId)>)
        ensures
            match walk_path(&self.tree, start, texts(wnames@)) {
                None => r is None,
                Some((qids, node)) => r is Some && r->Some_0.0@ == qids && r->Some_0.1 == node,
            },
    {
        let ghost all = texts(wnames@);
        let mut wqids: Vec<Qid> = Vec::new();
        let mut current: NodeId = start;
        let mut k: usize = 0;
        assert(all.take(0) =~= Seq::empty());
        while k < wnames.len()
            invariant
                k <= wnames.len(),
                all == texts(wnames@),
                walk_path(&self.tree, start, all.take(k as int)) == Some((wqids@, current)),
            decreases wnames.len() - k,
        {
            proof {
                assert(all.take(k + 1).drop_last() =~= all.take(k as int));
                assert(all.take(k + 1).last() == wnames@[k as int]@);
            }
            let next: NodeId = match self.tree.walk_one(current, wnames[k].as_str()) {
                Some(n) => n,
                None => {
                    proof {
                        lemma_walk_stops(&self.tree, start, all, k + 1);
                    }
                    return None;
                },
            };
            match self.tree.qid(next) {
                Some(q) => {
                    wqids.push(q);
                },
                None => {
                    proof {
                        lemma_walk_stops(&self.tree, start, all, k + 1);
                    }
                    return None;
                },
            }
            current = next;
            k = k + 1;
        }
        assert(all.take(k as int) =~= all);
        Some((wqids, current))
    }

    /// Serves one request.
    pub fn dispatch(&mut self, msg: TMessage) -> (r: Result<RMessage, u32>)
        ensures
            final(self).tree == old(self).tree,
            final(self).fids@ == dispatched(&old(self).tree, old(self).fids@, msg@).0,
            gives_reply(r, dispatched(&old(self).tree, old(self).fids@, msg@).1),
    {
        match msg {
            TMessage::Version { tag, msize, version } => {
                let clamped: u32 = if msize <= MAX_MSIZE {
                    msize
                } else {
                    MAX_MSIZE
                };
                let version = if text_eq(version.as_str(), "9P2000.L") {
                    version
                } else {
                    "unknown".to_owned()
                };
                Ok(RMessage::Version { tag, msize: clamped, version })
            },
            TMessage::Attach { tag, fid, .. } => {
                // Any auth fid is accepted: Tauth is rejected separately.
                self.insert_fid(fid, ROOT_NODE);
                match self.tree.qid(ROOT_NODE) {
                    Some(qid) => Ok(RMessage::Attach { tag, qid }),
                    None => Err(EIO),
                }
            },
            TMessage::Flush { tag, .. } => Ok(RMessage::Flush { tag }),
            TMessage::Walk { tag, fid, newfid, wnames } => {
                let start: NodeId = self.lookup_node(fid)?;
                match self.walk(start, &wnames) {
                    None => Err(ENOENT),
                    Some((wqids, node)) => {
                        // `newfid` may equal `fid`: it is then replaced.
                        self.insert_fid(newfid, node);
                        Ok(RMessage::Walk { tag, wqids })
                    },
                }
            },
            TMessage::Lopen { tag, fid, flags } => {
                // Any write-mode open is refused.
                if flags & 3 != 0 {
                    return Err(EROFS);
                }
                let node: NodeId = self.lookup_node(fid)?;
                match self.tree.qid(node) {
                    None => Err(EBADF),
                    Some(qid) => {
                        self.fids.insert(fid.0, FidHandle { node, opened: true });
                        Ok(RMessage::Lopen { tag, qid, iounit: 0 })
                    },
                }
            },
            TMessage::Readlink { tag, fid } => {
                let node: NodeId = self.lookup_node(fid)?;
                match self.tree.readlink(node) {
                    None => Err(EINVAL),
                    Some(target) => Ok(RMessage::Readlink { tag, target }),
                }
            },
            TMessage::Getattr { tag, fid, request_mask } => {
                let node: NodeId = self.lookup_node(fid)?;
                match self.tree.stat(node) {
                    None => Err(EBADF),
                    Some(stat) => Ok(RMessage::Getattr { tag, valid: request_mask, stat }),
                }
            },
            TMessage::Readdir { tag, fid, offset, count: _ } => {
                let node: NodeId = self.lookup_node(fid)?;
                if !self.tree.is_dir(node) {
                    return Err(ENOTDIR);
                }
                match self.tree.readdir(node, offset) {
                    Err(e) => Err(e),
                    Ok(entries) => Ok(RMessage::Readdir { tag, data: write_entries(&entries) }),
                }
            },
            TMessage::Fsync { tag, .. } => Ok(RMessage::Fsync { tag }),
            TMessage::Read { tag, fid, offset, count } => {
                let handle = match self.fids.get(&fid.0) {
                    Some(h) => *h,
                    None => {
                        return Err(EBADF);
                    },
                };
                if !handle.opened {
                    return Err(EBADF);
                }
                match self.tree.read(handle.node, offset, count) {
                    Err(e) => Err(e),
                    Ok(data) => Ok(RMessage::Read { tag, data }),
                }
            },
            TMessage::Clunk { tag, fid } => {
                match self.fids.remove(&fid.0) {
                    Some(_) => Ok(RMessage::Clunk { tag }),
                    None => Err(EBADF),
                }
            },
            TMessage::Rejected { tag: _, code } => Err(refusal(code)),
        }
    }

    /// Drive one inbound 9P frame. Returns:
    /// - `Some((NineRsp, body))` for every parseable T-message (including
    ///   those that produce `Rlerror`).
    /// - `None` when the frame is unparseable or arrives on the wrong
    ///   `FrameKind`: the caller closes the connection.
    pub fn handle(&mut self, kind: FrameKind, body: &[u8]) -> (r: Option<(FrameKind, Vec<u8>)>)
        ensures
            final(self).tree == old(self).tree,
            kind == FrameKind::NineReq && take_t(body@) is Ok ==> {
                let m = take_t(body@)->Ok_0.0;
                let (fids, reply) = dispatched(&old(self).tree, old(self).fids@, m);
                &&& final(self).fids@ == fids
                &&& r is Some
                &&& r->Some_0.0 == FrameKind::NineRsp
                &&& Ok::<Seq<u8>, NineError>(r->Some_0.1@) == put_r(reply_to(m, reply))
            },
            !(kind == FrameKind::NineReq && take_t(body@) is Ok) ==> r is None && final(self).fids@
                == old(self).fids@,
    {
        if kind != FrameKind::NineReq {
            return None;
        }
        let msg = match decode_t(body) {
            Ok(m) => m,
            Err(_) => {
                return None;
            },
        };
        let tag = msg.tag();
        let response = match self.dispatch(msg) {
            Ok(m) => m,
            Err(ecode) => RMessage::Lerror { tag, ecode },
        };
        match encode_r(&response) {
            Ok(b) => Some((FrameKind::NineRsp, b)),
            Err(_) => {
                let failed = RMessage::Lerror { tag, ecode: EIO };
                match encode_r(&failed) {
                    Ok(b) => Some((FrameKind::NineRsp, b)),
                    Err(_) => None,
                }
            },
        }
    }
}

proof fn lemma_walk_stops<T: Tree>(tree: &T, start: NodeId, names: Seq<Seq<char>>, k: int)
    requires
        0 <= k <= names.len(),
        walk_path(tree, start, names.take(k)) is None,
    ensures
        walk_path(tree, start, names) is None,
    decreases names.len() - k,
{
    if k < names.len() {
        assert(names.take(k + 1).drop_last() =~= names.take(k));
        lemma_walk_stops(tree, start, names, k + 1);
    } else {
        assert(names.take(k) =~= names);
    }
}

} // verus!

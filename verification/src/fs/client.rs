//! `RemoteClient`: outbound 9P2000.L over frames, against a remote server.
//! Tag-multiplexed: each request gets a `Tag` and the response routes back to
//! the waiter under that tag.
//!
//! A call has two halves. The first builds the request and files the waiter;
//! the second says what the reply means. Sending and waiting in between are up
//! to the caller.
use crate::bytes::{lemma_le_bytes_len, lemma_utf8_text, utf8_text};
use crate::fs::codec::{
    decode_r, encode_t, put_t, take_r, RMessage, RMessageView, TMessage, TMessageView, MAX_MSIZE,
};
use crate::fs::errno::EIO;
use crate::fs::server::{put_entries, put_entry};
use crate::fs::show::{reply_text, show_reply};
use crate::fs::tree::entries_view;
use crate::fs::types::{DirEntry, DirEntryView, Fid, Qid, Stat, Tag};
use crate::fs::wire::{
    lemma_take_put_qid, lemma_take_put_u16, lemma_take_put_u64, lemma_take_put_u8, put_qid,
    put_u16, put_u64, take_qid, take_u16, take_u64, take_u8, R,
};
use crate::ident::{Frame, FrameKind};
use crate::text::texts;
use std::collections::BTreeMap;
use vstd::prelude::*;
use vstd::std_specs::iter::IteratorSpec;
use vstd::string::StringExecFns;
use vstd::utf8::{decode_utf8, encode_utf8, valid_utf8};

verus! {

broadcast use {vstd::std_specs::btree::group_btree_axioms, lemma_le_bytes_len};

/// Passed as `afid` when no auth fid is in use.
pub const NOFID: u32 = 0xffff_ffff;

/// How a call failed. Pinned to numeric errno values so that they can be handed
/// to the kernel as they are.
#[derive(Debug, PartialEq, Eq)]
pub enum RemoteError {
    /// The remote answered with this errno.
    Errno(u32),
    /// The request or the reply got lost.
    Transport(String),
    /// The request could not be written, or the reply is none to it.
    Protocol(String),
}

impl RemoteError {
    /// The errno that stands for the error.
    pub open spec fn errno_of(self) -> u32 {
        match self {
            RemoteError::Errno(e) => e,
            _ => EIO,
        }
    }

    pub fn errno(&self) -> (e: u32)
        ensures
            e == self.errno_of(),
    {
        match self {
            RemoteError::Errno(e) => *e,
            RemoteError::Transport(_) => EIO,
            RemoteError::Protocol(_) => EIO,
        }
    }
}

/// Whether the result is the complaint that another reply was expected.
pub open spec fn complains<T>(
    r: Result<T, RemoteError>,
    expected: Seq<char>,
    got: RMessageView,
) -> bool {
    r matches Err(RemoteError::Protocol(t)) && t@ == "expected "@ + expected + ", got "@
        + reply_text(got)
}

/// The complaint that another reply was expected.
fn unexpected(expected: &str, got: &RMessage) -> (e: RemoteError)
    ensures
        e matches RemoteError::Protocol(t) && t@ == "expected "@ + expected@ + ", got "@
            + reply_text(got@),
{
    let mut s = "expected ".to_owned();
    s.append(expected);
    s.append(", got ");
    s.append(show_reply(got).as_str());
    RemoteError::Protocol(s)
}

/// Client for one remote server. `W` is whatever waits for a reply.
pub struct RemoteClient<W> {
    pub waiters: BTreeMap<u16, W>,
    pub next_tag: u16,
    pub next_fid: u32,
}

/// The tag given out when `next` is next: tag 0xFFFF means "no tag" and is
/// skipped.
pub open spec fn tag_after(next: u16) -> u16 {
    if next == 0xffff {
        0
    } else {
        next
    }
}

impl<W> RemoteClient<W> {
    pub fn new() -> (c: Self)
        ensures
            c.waiters@ == Map::<u16, W>::empty(),
            c.next_tag == 1,
            c.next_fid == 1,
    {
        RemoteClient { waiters: BTreeMap::new(), next_tag: 1, next_fid: 1 }
    }

    /// A tag for the duration of one call.
    pub fn alloc_tag(&mut self) -> (t: Tag)
        ensures
            t.0 == tag_after(old(self).next_tag),
            t.0 != 0xffff,
            final(self).next_tag == t.0 + 1,
            final(self).next_fid == old(self).next_fid,
            final(self).waiters@ == old(self).waiters@,
    {
        let t: u16 = if self.next_tag == 0xffff {
            0
        } else {
            self.next_tag
        };
        self.next_tag = t + 1;
        Tag(t)
    }

    /// A fid for a file to be attached or walked to.
    pub fn alloc_fid(&mut self) -> (f: Fid)
        ensures
            f.0 == old(self).next_fid,
            final(self).next_fid == if f.0 == u32::MAX {
                0
            } else {
                f.0 + 1
            },
            final(self).next_tag == old(self).next_tag,
            final(self).waiters@ == old(self).waiters@,
    {
        let f: u32 = self.next_fid;
        self.next_fid = if f == u32::MAX {
            0
        } else {
            f + 1
        };
        Fid(f)
    }

    /// Files the waiter and writes the request. The waiter is filed even where
    /// the request cannot be written; one that waited under the same tag is
    /// handed back.
    pub fn request(&mut self, msg: &TMessage, waiter: W) -> (r: (
        Result<Frame, RemoteError>,
        Option<W>,
    ))
        ensures
            final(self).waiters@ == old(self).waiters@.insert(msg@.tag_of().0, waiter),
            final(self).next_tag == old(self).next_tag,
            final(self).next_fid == old(self).next_fid,
            r.1 == if old(self).waiters@.contains_key(msg@.tag_of().0) {
                Some(old(self).waiters@[msg@.tag_of().0])
            } else {
                None
            },
            match put_t(msg@) {
                Ok(b) => r.0 is Ok && r.0->Ok_0.kind == FrameKind::NineReq.number()
                    && r.0->Ok_0.payload@ == b,
                Err(e) => r.0 matches Err(RemoteError::Protocol(t)) && t@ == "encode: "@ + e.text(),
            },
    {
        let tag = msg.tag();
        let replaced = self.waiters.insert(tag.0, waiter);
        match encode_t(msg) {
            Ok(body) => (Ok(Frame::new(FrameKind::NineReq.code(), body)), replaced),
            Err(e) => {
                let mut s = "encode: ".to_owned();
                s.append(e.to_string().as_str());
                (Err(RemoteError::Protocol(s)), replaced)
            },
        }
    }

    /// An inbound reply frame: the waiter for its tag and the reply. A reply
    /// that cannot be read, or that nobody waits for, is dropped.
    pub fn deliver_response(&mut self, frame: &Frame) -> (r: Option<(W, RMessage)>)
        ensures
            final(self).next_tag == old(self).next_tag,
            final(self).next_fid == old(self).next_fid,
            match take_r(frame.payload@) {
                Ok((m, _)) => {
                    let t = m.tag_of().0;
                    &&& final(self).waiters@ == old(self).waiters@.remove(t)
                    &&& r is Some <==> old(self).waiters@.contains_key(t)
                    &&& r is Some ==> r->Some_0.0 == old(self).waiters@[t] && r->Some_0.1@ == m
                },
                Err(_) => r is None && final(self).waiters@ == old(self).waiters@,
            },
    {
        match decode_r(frame.payload.as_slice()) {
            Ok(msg) => {
                let tag = msg.tag();
                match self.waiters.remove(&tag.0) {
                    Some(w) => Some((w, msg)),
                    None => None,
                }
            },
            Err(_) => None,
        }
    }

    /// Every waiter and the I/O error that it gets, for when the connection is
    /// lost. Nobody waits afterwards.
    pub fn fail_all_in_flight(&mut self) -> (r: Vec<(W, RMessage)>)
        ensures
            final(self).waiters@ == Map::<u16, W>::empty(),
            final(self).next_tag == old(self).next_tag,
            final(self).next_fid == old(self).next_fid,
            r@.len() == old(self).waiters@.dom().len(),
            forall|i: int|
                0 <= i < r@.len() ==> {
                    let t = (#[trigger] r@[i]).1@.tag_of();
                    &&& r@[i].1@ == RMessageView::Lerror { tag: t, ecode: EIO }
                    &&& old(self).waiters@.contains_key(t.0)
                    &&& r@[i].0 == old(self).waiters@[t.0]
                },
            forall|i: int, j: int|
                0 <= i < j < r@.len() ==> (#[trigger] r@[i]).1@.tag_of() != (
                #[trigger] r@[j]).1@.tag_of(),
    {
        let ghost all = self.waiters@;
        let tags = self.tags();
        let mut out: Vec<(W, RMessage)> = Vec::new();
        let mut i: usize = 0;
        while i < tags.len()
            invariant
                i <= tags@.len(),
                all == old(self).waiters@,
                tags@.no_duplicates(),
                forall|t: u16| tags@.contains(t) <==> all.contains_key(t),
                self.next_tag == old(self).next_tag,
                self.next_fid == old(self).next_fid,
                forall|t: u16|
                    #![trigger self.waiters@.contains_key(t)]
                    self.waiters@.contains_key(t) <==> all.contains_key(t) && !tags@.take(
                        i as int,
                    ).contains(t),
                forall|t: u16|
                    self.waiters@.contains_key(t) ==> #[trigger] self.waiters@[t] == all[t],
                out@.len() == i,
                forall|k: int|
                    0 <= k < i ==> (#[trigger] out@[k]).1@ == (RMessageView::Lerror {
                        tag: Tag(tags@[k]),
                        ecode: EIO,
                    }) && out@[k].0 == all[tags@[k]],
            decreases tags@.len() - i,
        {
            let t: u16 = tags[i];
            let ghost before = self.waiters@;
            proof {
                assert(tags@.contains(t));
                assert(!tags@.take(i as int).contains(t)) by {
                    if tags@.take(i as int).contains(t) {
                        let k = choose|k: int| 0 <= k < i && tags@.take(i as int)[k] == t;
                        assert(tags@[k] == tags@[i as int]);
                    }
                }
                assert(before.contains_key(t));
            }
            match self.waiters.remove(&t) {
                Some(w) => {
                    out.push((w, RMessage::Lerror { tag: Tag(t), ecode: EIO }));
                },
                None => {
                    assert(false);
                },
            }
            proof {
                assert(tags@.take(i + 1) =~= tags@.take(i as int).push(t));
                assert forall|x: u16|
                    #![trigger self.waiters@.contains_key(x)]
                    self.waiters@.contains_key(x) <==> all.contains_key(x) && !tags@.take(
                        i + 1,
                    ).contains(x) by {
                    assert(before.contains_key(x) <==> all.contains_key(x) && !tags@.take(
                        i as int,
                    ).contains(x));
                    let p = tags@.take(i as int);
                    assert(p.push(t).contains(x) <==> p.contains(x) || x == t) by {
                        if p.contains(x) {
                            let k = choose|k: int| 0 <= k < p.len() && p[k] == x;
                            assert(p.push(t)[k] == x);
                        }
                        if x == t {
                            assert(p.push(t)[p.len() as int] == x);
                        }
                    }
                }
            }
            i = i + 1;
        }
        proof {
            assert(tags@.take(i as int) =~= tags@);
            assert(self.waiters@ =~= Map::<u16, W>::empty());
            assert forall|k: int| 0 <= k < out@.len() implies all.contains_key(
                (#[trigger] out@[k]).1@.tag_of().0,
            ) by {
                assert(tags@.contains(tags@[k]));
            }
            assert(tags@.to_set() =~= all.dom());
            tags@.unique_seq_to_set();
        }
        out
    }

    /// The tags under which someone waits.
    fn tags(&self) -> (r: Vec<u16>)
        ensures
            r@.no_duplicates(),
            forall|t: u16| r@.contains(t) <==> self.waiters@.contains_key(t),
    {
        let mut out: Vec<u16> = Vec::new();
        let keys = self.waiters.keys();
        let ghost all = keys.remaining();
        for k in it: keys
            invariant
                it.seq() == all,
                out@.len() == it.index(),
                forall|i: int| 0 <= i < it.index() ==> out@[i] == *all[i],
        {
            out.push(*k);
        }
        proof {
            let plain = all.unref();
            assert(out@ =~= plain);
            assert forall|i: int, j: int| 0 <= i < out@.len() && 0 <= j < out@.len() && i
                != j implies out@[i] != out@[j] by {
                assert(all[i] != all[j]);
            }
            assert forall|t: u16| out@.contains(t) <==> self.waiters@.contains_key(t) by {
                assert(plain.to_set().contains(t) <==> plain.contains(t));
                assert(self.waiters@.dom().contains(t) <==> self.waiters@.contains_key(t));
            }
        }
        out
    }

    /// Version negotiation: offers the largest message size.
    pub fn version(&mut self) -> (m: TMessage)
        ensures
            m@ == (TMessageView::Version {
                tag: Tag(tag_after(old(self).next_tag)),
                msize: MAX_MSIZE,
                version: "9P2000.L"@,
            }),
            final(self).next_tag == tag_after(old(self).next_tag) + 1,
            final(self).next_fid == old(self).next_fid,
            final(self).waiters@ == old(self).waiters@,
    {
        let tag = self.alloc_tag();
        TMessage::Version { tag, msize: MAX_MSIZE, version: "9P2000.L".to_owned() }
    }

    /// Attaches to the remote tree: the request, and the fid of its root.
    pub fn attach(&mut self, aname: &str) -> (r: (TMessage, Fid))
        ensures
            r.1.0 == old(self).next_fid,
            r.0@ == (TMessageView::Attach {
                tag: Tag(tag_after(old(self).next_tag)),
                fid: r.1,
                afid: Fid(NOFID),
                uname: Seq::empty(),
                aname: aname@,
                n_uname: 0,
            }),
            final(self).next_tag == tag_after(old(self).next_tag) + 1,
            final(self).next_fid == if r.1.0 == u32::MAX {
                0
            } else {
                r.1.0 + 1
            },
            final(self).waiters@ == old(self).waiters@,
    {
        let tag = self.alloc_tag();
        let fid = self.alloc_fid();
        let m = TMessage::Attach {
            tag,
            fid,
            afid: Fid(NOFID),
            uname: String::new(),
            aname: aname.to_owned(),
            n_uname: 0,
        };
        (m, fid)
    }

    /// Walks from `fid`: the request, and the fid of what is found.
    pub fn walk(&mut self, fid: Fid, names: Vec<String>) -> (r: (TMessage, Fid))
        ensures
            r.1.0 == old(self).next_fid,
            r.0@ == (TMessageView::Walk {
                tag: Tag(tag_after(old(self).next_tag)),
                fid,
                newfid: r.1,
                wnames: texts(names@),
            }),
            final(self).next_tag == tag_after(old(self).next_tag) + 1,
            final(self).next_fid == if r.1.0 == u32::MAX {
                0
            } else {
                r.1.0 + 1
            },
            final(self).waiters@ == old(self).waiters@,
    {
        let tag = self.alloc_tag();
        let newfid = self.alloc_fid();
        (TMessage::Walk { tag, fid, newfid, wnames: names }, newfid)
    }

    /// Opens a file.
    pub fn open(&mut self, fid: Fid, flags: u32) -> (m: TMessage)
        ensures
            m@ == (TMessageView::Lopen { tag: Tag(tag_after(old(self).next_tag)), fid, flags }),
            final(self).next_tag == tag_after(old(self).next_tag) + 1,
            final(self).next_fid == old(self).next_fid,
            final(self).waiters@ == old(self).waiters@,
    {
        let tag = self.alloc_tag();
        TMessage::Lopen { tag, fid, flags }
    }

    /// Reads from a file.
    pub fn read(&mut self, fid: Fid, offset: u64, count: u32) -> (m: TMessage)
        ensures
            m@ == (TMessageView::Read {
                tag: Tag(tag_after(old(self).next_tag)),
                fid,
                offset,
                count,
            }),
            final(self).next_tag == tag_after(old(self).next_tag) + 1,
            final(self).next_fid == old(self).next_fid,
            final(self).waiters@ == old(self).waiters@,
    {
        let tag = self.alloc_tag();
        TMessage::Read { tag, fid, offset, count }
    }

    /// Lists a directory.
    pub fn readdir(&mut self, fid: Fid, offset: u64, count: u32) -> (m: TMessage)
        ensures
            m@ == (TMessageView::Readdir {
                tag: Tag(tag_after(old(self).next_tag)),
                fid,
                offset,
                count,
            }),
            final(self).next_tag == tag_after(old(self).next_tag) + 1,
            final(self).next_fid == old(self).next_fid,
            final(self).waiters@ == old(self).waiters@,
    {
        let tag = self.alloc_tag();
        TMessage::Readdir { tag, fid, offset, count }
    }

    /// Asks for a file's attributes.
    pub fn getattr(&mut self, fid: Fid) -> (m: TMessage)
        ensures
            m@ == (TMessageView::Getattr {
                tag: Tag(tag_after(old(self).next_tag)),
                fid,
                request_mask: 0x7ff,
            }),
            final(self).next_tag == tag_after(old(self).next_tag) + 1,
            final(self).next_fid == old(self).next_fid,
            final(self).waiters@ == old(self).waiters@,
    {
        let tag = self.alloc_tag();
        TMessage::Getattr { tag, fid, request_mask: 0x7ff }
    }

    /// Asks where a symlink points.
    pub fn readlink(&mut self, fid: Fid) -> (m: TMessage)
        ensures
            m@ == (TMessageView::Readlink { tag: Tag(tag_after(old(self).next_tag)), fid }),
            final(self).next_tag == tag_after(old(self).next_tag) + 1,
            final(self).next_fid == old(self).next_fid,
            final(self).waiters@ == old(self).waiters@,
    {
        let tag = self.alloc_tag();
        TMessage::Readlink { tag, fid }
    }

    /// Gives a fid back.
    pub fn clunk(&mut self, fid: Fid) -> (m: TMessage)
        ensures
            m@ == (TMessageView::Clunk { tag: Tag(tag_after(old(self).next_tag)), fid }),
            final(self).next_tag == tag_after(old(self).next_tag) + 1,
            final(self).next_fid == old(self).next_fid,
            final(self).waiters@ == old(self).waiters@,
    {
        let tag = self.alloc_tag();
        TMessage::Clunk { tag, fid }
    }
}

/// What the waiter makes of what came: an error reply is the remote's errno,
/// and if nothing ever came the transport is to blame.
pub fn response(got: Option<RMessage>) -> (r: Result<RMessage, RemoteError>)
    ensures
        match got {
            Some(m) => match m@ {
                RMessageView::Lerror { ecode, .. } => r == Err::<RMessage, RemoteError>(
                    RemoteError::Errno(ecode),
                ),
                _ => r == Ok::<RMessage, RemoteError>(m),
            },
            None => r matches Err(RemoteError::Transport(t)) && t@ == "response channel dropped"@,
        },
{
    match got {
        Some(RMessage::Lerror { ecode, .. }) => Err(RemoteError::Errno(ecode)),
        Some(m) => Ok(m),
        None => Err(RemoteError::Transport("response channel dropped".to_owned())),
    }
}

/// The message size that the server agreed to.
pub fn on_version(resp: RMessage) -> (r: Result<u32, RemoteError>)
    ensures
        match resp@ {
            RMessageView::Version { msize, .. } => r == Ok::<u32, RemoteError>(msize),
            _ => complains(r, "Rversion"@, resp@),
        },
{
    match resp {
        RMessage::Version { msize, .. } => Ok(msize),
        other => Err(unexpected("Rversion", &other)),
    }
}

/// The fid that was attached.
pub fn on_attach(resp: RMessage, fid: Fid) -> (r: Result<Fid, RemoteError>)
    ensures
        match resp@ {
            RMessageView::Attach { .. } => r == Ok::<Fid, RemoteError>(fid),
            _ => complains(r, "Rattach"@, resp@),
        },
{
    match resp {
        RMessage::Attach { .. } => Ok(fid),
        other => Err(unexpected("Rattach", &other)),
    }
}

/// The fid that was walked to.
pub fn on_walk(resp: RMessage, newfid: Fid) -> (r: Result<Fid, RemoteError>)
    ensures
        match resp@ {
            RMessageView::Walk { .. } => r == Ok::<Fid, RemoteError>(newfid),
            _ => complains(r, "Rwalk"@, resp@),
        },
{
    match resp {
        RMessage::Walk { .. } => Ok(newfid),
        other => Err(unexpected("Rwalk", &other)),
    }
}

/// The identity of the file that was opened.
pub fn on_open(resp: RMessage) -> (r: Result<Qid, RemoteError>)
    ensures
        match resp@ {
            RMessageView::Lopen { qid, .. } => r == Ok::<Qid, RemoteError>(qid),
            _ => complains(r, "Rlopen"@, resp@),
        },
{
    match resp {
        RMessage::Lopen { qid, .. } => Ok(qid),
        other => Err(unexpected("Rlopen", &other)),
    }
}

/// The data that was read.
pub fn on_read(resp: RMessage) -> (r: Result<Vec<u8>, RemoteError>)
    ensures
        match resp@ {
            RMessageView::Read { data, .. } => r is Ok && r->Ok_0@ == data,
            _ => complains(r, "Rread"@, resp@),
        },
{
    match resp {
        RMessage::Read { data, .. } => Ok(data),
        other => Err(unexpected("Rread", &other)),
    }
}

/// The entries that were listed.
pub fn on_readdir(resp: RMessage) -> (r: Result<Vec<DirEntry>, RemoteError>)
    ensures
        match resp@ {
            RMessageView::Readdir { data, .. } => lists(r, parse_entries(data)),
            _ => complains(r, "Rreaddir"@, resp@),
        },
{
    match resp {
        RMessage::Readdir { data, .. } => parse_readdir_payload(data.as_slice()),
        other => Err(unexpected("Rreaddir", &other)),
    }
}

/// The attributes that were asked for.
pub fn on_getattr(resp: RMessage) -> (r: Result<Stat, RemoteError>)
    ensures
        match resp@ {
            RMessageView::Getattr { stat, .. } => r == Ok::<Stat, RemoteError>(stat),
            _ => complains(r, "Rgetattr"@, resp@),
        },
{
    match resp {
        RMessage::Getattr { stat, .. } => Ok(stat),
        other => Err(unexpected("Rgetattr", &other)),
    }
}

/// Where the symlink points.
pub fn on_readlink(resp: RMessage) -> (r: Result<String, RemoteError>)
    ensures
        match resp@ {
            RMessageView::Readlink { target, .. } => r is Ok && r->Ok_0@ == target,
            _ => complains(r, "Rreadlink"@, resp@),
        },
{
    match resp {
        RMessage::Readlink { target, .. } => Ok(target),
        other => Err(unexpected("Rreadlink", &other)),
    }
}

/// That the fid is gone.
pub fn on_clunk(resp: RMessage) -> (r: Result<(), RemoteError>)
    ensures
        match resp@ {
            RMessageView::Clunk { .. } => r is Ok,
            _ => complains(r, "Rclunk"@, resp@),
        },
{
    match resp {
        RMessage::Clunk { .. } => Ok(()),
        other => Err(unexpected("Rclunk", &other)),
    }
}

/// The directory entry at the front of the bytes and the bytes after it, or
/// what is wrong with it.
pub open spec fn take_entry(s: Seq<u8>) -> Result<(DirEntryView, Seq<u8>), Seq<char>> {
    if s.len() < 24 {
        Err("truncated Rreaddir entry"@)
    } else {
        let (qid, s1) = take_qid(s)->Ok_0;
        let (offset, s2) = take_u64(s1)->Ok_0;
        let (ty, s3) = take_u8(s2)->Ok_0;
        let (n, s4) = take_u16(s3)->Ok_0;
        if s4.len() < n {
            Err("truncated Rreaddir name"@)
        } else if !valid_utf8(s4.take(n as int)) {
            Err("non-utf8 name"@)
        } else {
            Ok(
                (
                    DirEntryView { qid, offset, ty, name: decode_utf8(s4.take(n as int)) },
                    s4.skip(n as int),
                ),
            )
        }
    }
}

proof fn lemma_take_entry(s: Seq<u8>)
    requires
        s.len() >= 24,
    ensures
        take_qid(s) is Ok,
        take_u64(take_qid(s)->Ok_0.1) is Ok,
        take_u8(take_u64(take_qid(s)->Ok_0.1)->Ok_0.1) is Ok,
        take_u16(take_u8(take_u64(take_qid(s)->Ok_0.1)->Ok_0.1)->Ok_0.1) is Ok,
        take_entry(s) matches Ok((_, rest)) ==> rest.len() < s.len(),
{
}

/// The directory entries in the bytes, or what is wrong with the first bad one.
pub open spec fn parse_entries(s: Seq<u8>) -> Result<Seq<DirEntryView>, Seq<char>>
    decreases s.len(),
{
    if s.len() == 0 {
        Ok(Seq::empty())
    } else {
        match take_entry(s) {
            Err(e) => Err(e),
            Ok((d, rest)) => if rest.len() < s.len() {
                match parse_entries(rest) {
                    Err(e) => Err(e),
                    Ok(ds) => Ok(seq![d] + ds),
                }
            } else {
                Ok(seq![d])
            },
        }
    }
}

/// Whether the result is the list, or the complaint, that is expected.
pub open spec fn lists(
    r: Result<Vec<DirEntry>, RemoteError>,
    want: Result<Seq<DirEntryView>, Seq<char>>,
) -> bool {
    match want {
        Ok(ds) => r is Ok && entries_view(r->Ok_0@) == ds,
        Err(e) => r matches Err(RemoteError::Protocol(t)) && t@ == e,
    }
}

/// What the whole list is when some of it is known.
spec fn prepended(
    done: Seq<DirEntryView>,
    rest: Result<Seq<DirEntryView>, Seq<char>>,
) -> Result<Seq<DirEntryView>, Seq<char>> {
    match rest {
        Ok(ds) => Ok(done + ds),
        Err(e) => Err(e),
    }
}

/// Decode an Rreaddir data block. Layout: each entry is `qid(13) + offset(8) +
/// type(1) + name[s]`.
pub fn parse_readdir_payload(buf: &[u8]) -> (r: Result<Vec<DirEntry>, RemoteError>)
    ensures
        lists(r, parse_entries(buf@)),
{
    let mut out: Vec<DirEntry> = Vec::new();
    let mut r = R::new(buf);
    assert(entries_view(out@) =~= Seq::empty());
    assert(prepended(Seq::empty(), parse_entries(buf@)) == parse_entries(buf@)) by {
        if let Ok(ds) = parse_entries(buf@) {
            assert(Seq::<DirEntryView>::empty() + ds =~= ds);
        }
    }
    while r.i < r.buf.len()
        invariant
            r.wf(),
            parse_entries(buf@) == prepended(entries_view(out@), parse_entries(r@)),
        decreases r@.len(),
    {
        let ghost s = r@;
        let ghost done = out@;
        if let Err(_) = r.need(24) {
            return Err(RemoteError::Protocol("truncated Rreaddir entry".to_owned()));
        }
        proof {
            lemma_take_entry(s);
        }
        let qid = r.qid();
        let offset = r.u64();
        let ty = r.u8();
        let n = r.u16();
        match (qid, offset, ty, n) {
            (Ok(qid), Ok(offset), Ok(ty), Ok(n)) => {
                let name = match r.data(n as usize) {
                    Ok(b) => b,
                    Err(_) => {
                        return Err(RemoteError::Protocol("truncated Rreaddir name".to_owned()));
                    },
                };
                let name = match utf8_text(name.as_slice()) {
                    Some(t) => t,
                    None => {
                        return Err(RemoteError::Protocol("non-utf8 name".to_owned()));
                    },
                };
                let e = DirEntry { qid, offset, ty, name };
                out.push(e);
                proof {
                    assert(entries_view(out@) =~= entries_view(done).push(e@));
                    if let Ok(ds) = parse_entries(r@) {
                        assert(entries_view(done) + (seq![e@] + ds) =~= entries_view(out@) + ds);
                    }
                }
            },
            _ => {
                assert(false);
                return Err(RemoteError::Protocol("truncated Rreaddir entry".to_owned()));
            },
        }
    }
    assert(r@.len() == 0);
    assert(entries_view(out@) + Seq::<DirEntryView>::empty() =~= entries_view(out@));
    Ok(out)
}

/// Whether every name's length fits its 16-bit prefix.
pub open spec fn names_fit(es: Seq<DirEntryView>) -> bool {
    forall|i: int| 0 <= i < es.len() ==> encode_utf8((#[trigger] es[i]).name).len() <= 0xffff
}

proof fn lemma_entry_roundtrip(e: DirEntryView, rest: Seq<u8>)
    requires
        encode_utf8(e.name).len() <= 0xffff,
    ensures
        take_entry(put_entry(e) + rest) == Ok::<(DirEntryView, Seq<u8>), Seq<char>>((e, rest)),
        put_entry(e).len() >= 24,
{
    let name = encode_utf8(e.name);
    let n = name.len() as u16;
    let b4 = name + rest;
    let b3 = put_u16(n) + b4;
    let b2 = seq![e.ty] + b3;
    let b1 = put_u64(e.offset) + b2;
    assert(put_entry(e) + rest =~= put_qid(e.qid) + b1);
    lemma_take_put_qid(e.qid, b1);
    lemma_take_put_u64(e.offset, b2);
    lemma_take_put_u8(e.ty, b3);
    lemma_take_put_u16(n, b4);
    assert(b4.take(n as int) =~= name);
    assert(b4.skip(n as int) =~= rest);
    lemma_utf8_text(e.name);
}

/// What a server lists, the client reads: the entries come back in order.
pub proof fn law_listing_read_back(es: Seq<DirEntryView>)
    requires
        names_fit(es),
    ensures
        parse_entries(put_entries(es)) == Ok::<Seq<DirEntryView>, Seq<char>>(es),
    decreases es.len(),
{
    if es.len() == 0 {
        assert(es =~= Seq::empty());
    } else {
        let first = es[0];
        let tail = es.skip(1);
        lemma_put_entries_front(es);
        assert(put_entries(es) =~= put_entry(first) + put_entries(tail));
        lemma_entry_roundtrip(first, put_entries(tail));
        assert forall|i: int| 0 <= i < tail.len() implies encode_utf8(
            (#[trigger] tail[i]).name,
        ).len() <= 0xffff by {
            assert(tail[i] == es[i + 1]);
        }
        law_listing_read_back(tail);
        assert(seq![first] + tail =~= es);
    }
}

proof fn lemma_put_entries_front(es: Seq<DirEntryView>)
    requires
        es.len() > 0,
    ensures
        put_entries(es) == put_entry(es[0]) + put_entries(es.skip(1)),
    decreases es.len(),
{
    if es.len() == 1 {
        assert(es.drop_last() =~= Seq::empty());
        assert(es.skip(1) =~= Seq::empty());
        assert(Seq::<u8>::empty() + put_entry(es[0]) =~= put_entry(es[0])
            + Seq::<u8>::empty());
    } else {
        lemma_put_entries_front(es.drop_last());
        assert(es.drop_last().skip(1) =~= es.skip(1).drop_last());
        assert(es.skip(1).last() == es.last());
        let a = put_entry(es[0]);
        let b = put_entries(es.skip(1).drop_last());
        let c = put_entry(es.last());
        assert((a + b) + c =~= a + (b + c));
    }
}

/// Tags given out one after the other differ, and none is the reserved one.
pub proof fn law_tags_differ(next: u16)
    ensures
        tag_after(next) != 0xffff,
        tag_after((tag_after(next) + 1) as u16) != tag_after(next),
{
}

} // verus!

//! Fire-and-forget delivery of mail.
//!
//! `Ok` means that the payload was handed off, not that the receiver saw it.
//! Failures are limited to local validation (payload size, missing own node);
//! drops are counted.
use crate::ident::{Frame, MboxId, NetId, NodeId};
use crate::mbox::error::MailError;
use crate::mbox::frames::{
    encode_mail_send, frame_of, law_mbox_roundtrip, mbox_inbound, MailSend, MailSendView,
    MboxFrameError, MboxInboundView,
};
use crate::mbox::mailbox::{lookup, offered, try_deliver_local, Registry};
use vstd::prelude::*;

verus! {

/// Largest payload `mail_send` accepts.
pub const MAX_MAIL_BYTES: usize = 8_388_608;

/// A counter after one more; it wraps around.
pub open spec fn counted(n: u64) -> u64 {
    if n == u64::MAX {
        0
    } else {
        (n + 1) as u64
    }
}

/// A counter after one more; it wraps around.
pub fn count(n: u64) -> (r: u64)
    ensures
        r == counted(n),
{
    if n == u64::MAX {
        0
    } else {
        n + 1
    }
}

/// What was dropped.
#[derive(Copy, Clone, Debug, PartialEq, Eq, Structural)]
pub struct Drops {
    /// The mailbox was full or closed.
    pub local_full: u64,
    /// There was no such mailbox.
    pub local_missing: u64,
    /// There was no connection to the node.
    pub remote_no_peer: u64,
}

/// The mail service of one node.
pub struct Post {
    pub self_node: Option<NodeId>,
    pub registry: Registry,
    pub drops: Drops,
}

/// A frame for another node.
#[derive(Debug, PartialEq, Eq)]
pub struct Outbound {
    pub to: NodeId,
    pub frame: Frame,
}

impl Post {
    pub fn new() -> (p: Self)
        ensures
            p.self_node is None,
            p.registry.wf(),
            p.registry.slots@.dom().is_empty(),
            p.registry.next_id == 1,
            p.drops == (Drops { local_full: 0, local_missing: 0, remote_no_peer: 0 }),
    {
        Post {
            self_node: None,
            registry: Registry::new(),
            drops: Drops { local_full: 0, local_missing: 0, remote_no_peer: 0 },
        }
    }
}

/// Sets the own node, so that local mail can be told from remote mail. Repeated
/// calls after the first are ignored.
pub fn init(post: &mut Post, self_node_id: NodeId)
    ensures
        final(post).self_node == match old(post).self_node {
            Some(n) => Some(n),
            None => Some(self_node_id),
        },
        final(post).registry == old(post).registry,
        final(post).drops == old(post).drops,
{
    if post.self_node.is_none() {
        post.self_node = Some(self_node_id);
    }
}

/// The own node, if it was set.
pub fn self_node_id(post: &Post) -> (r: Option<NodeId>)
    ensures
        r == post.self_node,
{
    post.self_node
}

/// The drops after a local delivery came to nothing, or did not.
pub open spec fn after_local(d: Drops, known: bool, sent: bool) -> Drops {
    if !known {
        Drops { local_missing: counted(d.local_missing), ..d }
    } else if !sent {
        Drops { local_full: counted(d.local_full), ..d }
    } else {
        d
    }
}

/// Counts a local delivery.
pub fn count_local(d: Drops, known: bool, sent: bool) -> (r: Drops)
    ensures
        r == after_local(d, known, sent),
{
    if !known {
        Drops { local_missing: count(d.local_missing), ..d }
    } else if !sent {
        Drops { local_full: count(d.local_full), ..d }
    } else {
        d
    }
}

/// Whether a local mail comes to this: the mailbox was offered the payload, and
/// the drops were counted. Whether it took the payload is up to the channel.
pub open spec fn local_mail(before: Post, after: Post, to: NetId, payload: Seq<u8>, sent: bool) -> bool {
    &&& offered(before.registry.slots@, after.registry.slots@, to.mbox.0, payload, sent)
    &&& after.registry.next_id == before.registry.next_id
    &&& after.drops == after_local(
        before.drops,
        before.registry.slots@.contains_key(to.mbox.0),
        sent,
    )
}

/// Hands a payload to a mailbox of the own node.
fn deliver_local(post: &mut Post, to: NetId, payload: Vec<u8>)
    ensures
        final(post).self_node == old(post).self_node,
        exists|sent: bool| #[trigger] local_mail(*old(post), *final(post), to, payload@, sent),
        old(post).registry.wf() ==> final(post).registry.wf(),
{
    let known = lookup(&post.registry, to.mbox).is_some();
    let sent = try_deliver_local(&mut post.registry, to.mbox, payload);
    post.drops = count_local(post.drops, known, sent);
    assert(local_mail(*old(post), *post, to, payload@, sent));
}

/// The mail that a node sends to another: it comes from the node itself.
pub open spec fn mail_of(own: NodeId, to: NetId, payload: Seq<u8>) -> MailSendView {
    MailSendView { from: NetId { node: own, mbox: MboxId(0) }, to, payload }
}

/// A mail that is accepted for another node arrives there as it was sent: for
/// the same mailbox, with the same payload.
pub proof fn law_mail_crosses(own: NodeId, to: NetId, payload: Seq<u8>)
    requires
        payload.len() <= MAX_MAIL_BYTES,
    ensures
        mbox_inbound(frame_of(MboxInboundView::MailSend(mail_of(own, to, payload)))) == Ok::<
            MboxInboundView,
            MboxFrameError,
        >(MboxInboundView::MailSend(mail_of(own, to, payload))),
{
    law_mbox_roundtrip(MboxInboundView::MailSend(mail_of(own, to, payload)));
}

/// Fire-and-forget send to `to`. A local mailbox is handed the payload at once.
/// For another node the frame to send is handed back; whoever has the
/// connections sends it and reports to [`peer_done`].
pub fn mail_send(post: &mut Post, to: NetId, payload: Vec<u8>) -> (r: Result<
    Option<Outbound>,
    MailError,
>)
    ensures
        final(post).self_node == old(post).self_node,
        old(post).registry.wf() ==> final(post).registry.wf(),
        if payload@.len() > MAX_MAIL_BYTES {
            &&& r == Err::<Option<Outbound>, MailError>(
                MailError::PayloadTooLarge(payload@.len() as usize),
            )
            &&& *final(post) == *old(post)
        } else {
            match old(post).self_node {
                None => {
                    &&& r == Err::<Option<Outbound>, MailError>(MailError::NotInitialized)
                    &&& *final(post) == *old(post)
                },
                Some(own) => if to.node == own {
                    &&& r == Ok::<Option<Outbound>, MailError>(None)
                    &&& exists|sent: bool| #[trigger]
                        local_mail(*old(post), *final(post), to, payload@, sent)
                } else {
                    &&& r is Ok
                    &&& r->Ok_0 is Some
                    &&& r->Ok_0->Some_0.to == to.node
                    &&& r->Ok_0->Some_0.frame@ == frame_of(
                        MboxInboundView::MailSend(mail_of(own, to, payload@)),
                    )
                    &&& *final(post) == *old(post)
                },
            }
        },
{
    if payload.len() > MAX_MAIL_BYTES {
        return Err(MailError::PayloadTooLarge(payload.len()));
    }
    let own = match post.self_node {
        Some(n) => n,
        None => {
            return Err(MailError::NotInitialized);
        },
    };
    if to.node == own {
        deliver_local(post, to, payload);
        return Ok(None);
    }
    let mail = MailSend { from: NetId { node: own, mbox: MboxId(0) }, to, payload };
    match encode_mail_send(&mail) {
        Ok(frame) => Ok(Some(Outbound { to: to.node, frame })),
        Err(_) => Err(MailError::PayloadTooLarge(0)),
    }
}

/// Counts what became of a frame for another node: one that was not sent, for
/// want of a connection or of any backend, is a drop.
pub fn peer_done(post: &mut Post, sent: bool)
    ensures
        final(post).self_node == old(post).self_node,
        final(post).registry == old(post).registry,
        final(post).drops == if sent {
            old(post).drops
        } else {
            Drops { remote_no_peer: counted(old(post).drops.remote_no_peer), ..old(post).drops }
        },
{
    if !sent {
        let d = post.drops;
        post.drops = Drops { remote_no_peer: count(d.remote_no_peer), ..d };
    }
}

} // verus!

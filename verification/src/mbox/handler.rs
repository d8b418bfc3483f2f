//! Inbound frames of the mailbox range. Mail goes to the local mailbox, with a
//! delivery failure sent back where it cannot; service frames go to the
//! directory.
use crate::ident::{Frame, NetId, NodeId};
use crate::mbox::frames::{
    decode_mbox_frame, encode_mail_delivery_failure, encode_service_sync_response, frame_of,
    mbox_inbound, DeliveryFailureReason, MailDeliveryFailure, MailDeliveryFailureView,
    MailSendView, MboxFrameError, MboxInbound, MboxInboundView, ServiceSyncResponseView,
};
use crate::mbox::gossip::{
    answers_sync, build_sync_response, on_inbound_ad, on_inbound_forget, on_inbound_sync_response,
    ServiceGossip, ServiceGossipView,
};
use crate::mbox::mailbox::{lookup, offered, try_deliver_local};
use crate::mbox::send::{Outbound, Post};
use crate::time::Duration;
use vstd::prelude::*;

verus! {

/// Handler for the mailbox range.
#[derive(Copy, Clone, Debug, PartialEq, Eq, Structural)]
pub struct MboxHandler {
    /// Whether delivery failures are sent back.
    pub replies: bool,
}

/// The reply to a mail that could not be delivered. There is none where replies
/// are off, and none to the own node, which could loop.
pub open spec fn bounce(
    replies: bool,
    self_node: Option<NodeId>,
    sender: NodeId,
    to: NetId,
    reason: DeliveryFailureReason,
) -> Option<(NodeId, MailDeliveryFailureView)> {
    if replies && self_node != Some(sender) {
        Some((sender, MailDeliveryFailureView { to, reason }))
    } else {
        None
    }
}

/// Whether what was returned is the expected reply.
pub open spec fn is_bounce(
    r: Option<Outbound>,
    want: Option<(NodeId, MailDeliveryFailureView)>,
) -> bool {
    match want {
        None => r is None,
        Some((to, f)) => r is Some && r->Some_0.to == to && r->Some_0.frame@ == frame_of(
            MboxInboundView::MailDeliveryFailure(f),
        ),
    }
}

/// What went wrong with a delivery, if something did.
pub open spec fn failure(known: bool, sent: bool) -> Option<DeliveryFailureReason> {
    if !known {
        Some(DeliveryFailureReason::UnknownMbox)
    } else if !sent {
        Some(DeliveryFailureReason::MboxFull)
    } else {
        None
    }
}

/// The reply to a mail for which a delivery was tried.
pub open spec fn reply_for(
    replies: bool,
    self_node: Option<NodeId>,
    m: MailSendView,
    known: bool,
    sent: bool,
) -> Option<(NodeId, MailDeliveryFailureView)> {
    match failure(known, sent) {
        Some(reason) => bounce(replies, self_node, m.from.node, m.to, reason),
        None => None,
    }
}

/// Whether an inbound mail comes to this: the mailbox was offered the payload,
/// and the reply is the one for what became of it.
pub open spec fn mail_handled(
    before: Post,
    after: Post,
    replies: bool,
    m: MailSendView,
    r: Option<Outbound>,
    sent: bool,
) -> bool {
    &&& offered(before.registry.slots@, after.registry.slots@, m.to.mbox.0, m.payload, sent)
    &&& is_bounce(
        r,
        reply_for(
            replies,
            before.self_node,
            m,
            before.registry.slots@.contains_key(m.to.mbox.0),
            sent,
        ),
    )
}

/// The engine after service news came in; other messages are no news.
pub open spec fn heard_from(
    g: ServiceGossipView,
    m: MboxInboundView,
    now: Duration,
) -> ServiceGossipView {
    match m {
        MboxInboundView::ServiceAd(ad) => g.hears(ad.name, ad.net_id, ad.lamport, false, now),
        MboxInboundView::ServiceForget(f) => g.hears(f.name, f.net_id, f.lamport, true, now),
        MboxInboundView::ServiceSyncResponse(resp) => g.hears_all(resp.entries, now),
        _ => g,
    }
}

/// Whether an inbound message comes to this, for the mail service, the gossip
/// engine and the frame to send back.
pub open spec fn handled(
    replies: bool,
    peer: NodeId,
    m: MboxInboundView,
    now: Duration,
    before: Post,
    after: Post,
    g: ServiceGossipView,
    h: ServiceGossipView,
    r: Option<Outbound>,
) -> bool {
    match m {
        MboxInboundView::MailSend(mail) => {
            &&& exists|sent: bool| #[trigger] mail_handled(before, after, replies, mail, r, sent)
            &&& h == g
        },
        MboxInboundView::ServiceSync => {
            &&& exists|resp: ServiceSyncResponseView| #[trigger]
                answers_sync(g.dir, resp.entries) && r is Some && r->Some_0.to == peer && r->Some_0.frame@
                    == frame_of(MboxInboundView::ServiceSyncResponse(resp))
            &&& h == g
            &&& after == before
        },
        _ => {
            &&& r is None
            &&& h == heard_from(g, m, now)
            &&& after == before
        },
    }
}

impl MboxHandler {
    /// A handler that sends no delivery failures.
    pub fn new() -> (h: Self)
        ensures
            !h.replies,
    {
        MboxHandler { replies: false }
    }

    /// A handler that sends delivery failures.
    pub fn with_peers() -> (h: Self)
        ensures
            h.replies,
    {
        MboxHandler { replies: true }
    }

    fn reply_failure(
        &self,
        self_node: Option<NodeId>,
        sender: NodeId,
        to: NetId,
        reason: DeliveryFailureReason,
    ) -> (r: Option<Outbound>)
        ensures
            is_bounce(r, bounce(self.replies, self_node, sender, to, reason)),
    {
        if !self.replies {
            return None;
        }
        if let Some(own) = self_node {
            if own == sender {
                return None;
            }
        }
        match encode_mail_delivery_failure(&MailDeliveryFailure { to, reason }) {
            Ok(frame) => Some(Outbound { to: sender, frame }),
            Err(_) => None,
        }
    }

    /// The reply to a mail for which a delivery was tried: whether the mailbox
    /// was there, and whether it took the mail.
    pub fn delivered(
        &self,
        self_node: Option<NodeId>,
        from: NodeId,
        to: NetId,
        known: bool,
        sent: bool,
    ) -> (r: Option<Outbound>)
        ensures
            is_bounce(
                r,
                match failure(known, sent) {
                    Some(reason) => bounce(self.replies, self_node, from, to, reason),
                    None => None,
                },
            ),
    {
        if !known {
            self.reply_failure(self_node, from, to, DeliveryFailureReason::UnknownMbox)
        } else if !sent {
            self.reply_failure(self_node, from, to, DeliveryFailureReason::MboxFull)
        } else {
            None
        }
    }

    /// An inbound frame: the frame to send back, if any. Mail goes to its
    /// mailbox; whether that takes it is up to its channel. Service news goes to
    /// the directory, and a peer that asks for a sync is sent everything known.
    /// A report of a failed delivery is only information, and a frame that
    /// cannot be read is dropped.
    pub fn on_frame(
        &self,
        post: &mut Post,
        g: &mut ServiceGossip,
        peer: NodeId,
        frame: &Frame,
        now: Duration,
    ) -> (r: Option<Outbound>)
        requires
            old(g).wf(),
        ensures
            final(g).wf(),
            final(post).self_node == old(post).self_node,
            final(post).drops == old(post).drops,
            final(post).registry.next_id == old(post).registry.next_id,
            old(post).registry.wf() ==> final(post).registry.wf(),
            match mbox_inbound(frame@) {
                Ok(m) => handled(
                    self.replies,
                    peer,
                    m,
                    now,
                    *old(post),
                    *final(post),
                    old(g)@,
                    final(g)@,
                    r,
                ),
                Err(_) => r is None && final(g)@ == old(g)@ && *final(post) == *old(post),
            },
    {
        let inbound = match decode_mbox_frame(frame) {
            Ok(v) => v,
            Err(_) => {
                return None;
            },
        };
        let ghost said = inbound@;
        assert(mbox_inbound(frame@) == Ok::<MboxInboundView, MboxFrameError>(said));
        let r = match inbound {
            MboxInbound::MailSend(m) => {
                let ghost mv = m@;
                assert(said matches MboxInboundView::MailSend(x) && x == mv);
                let from = m.from.node;
                let to = m.to;
                let known = lookup(&post.registry, to.mbox).is_some();
                let sent = try_deliver_local(&mut post.registry, to.mbox, m.payload);
                let r = self.delivered(post.self_node, from, to, known, sent);
                assert(mail_handled(*old(post), *post, self.replies, mv, r, sent));
                r
            },
            MboxInbound::MailDeliveryFailure(f) => {
                assert(said == MboxInboundView::MailDeliveryFailure(f@));
                None
            },
            MboxInbound::ServiceAd(ad) => {
                assert(said == MboxInboundView::ServiceAd(ad@));
                on_inbound_ad(g, &ad, now);
                None
            },
            MboxInbound::ServiceForget(f) => {
                assert(said == MboxInboundView::ServiceForget(f@));
                on_inbound_forget(g, &f, now);
                None
            },
            MboxInbound::ServiceSync => {
                let resp = build_sync_response(g);
                assert(answers_sync(old(g)@.dir, resp@.entries));
                match encode_service_sync_response(&resp) {
                    Ok(frame) => Some(Outbound { to: peer, frame }),
                    Err(_) => None,
                }
            },
            MboxInbound::ServiceSyncResponse(resp) => {
                assert(said == MboxInboundView::ServiceSyncResponse(resp@));
                on_inbound_sync_response(g, &resp, now);
                None
            },
        };
        assert(handled(self.replies, peer, said, now, *old(post), *post, old(g)@, g@, r));
        r
    }
}

impl Default for MboxHandler {
    fn default() -> (h: Self)
        ensures
            !h.replies,
    {
        MboxHandler { replies: false }
    }
}

/// A mail for a mailbox that is not there comes back to its sender as unknown,
/// unless the sender is the own node.
pub proof fn law_unknown_mailbox_answered(
    self_node: Option<NodeId>,
    m: MailSendView,
    sent: bool,
)
    requires
        self_node != Some(m.from.node),
    ensures
        reply_for(true, self_node, m, false, sent) == Some(
            (
                m.from.node,
                MailDeliveryFailureView { to: m.to, reason: DeliveryFailureReason::UnknownMbox },
            ),
        ),
{
}

/// A delivered mail is not answered.
pub proof fn law_delivered_unanswered(replies: bool, self_node: Option<NodeId>, m: MailSendView)
    ensures
        reply_for(replies, self_node, m, true, true) is None,
{
}

} // verus!

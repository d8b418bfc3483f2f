//! Gossip: what is sent to which peer, and what an inbound ad frame does.
//!
//! The frames to send are handed back; whoever holds the connections sends
//! them.
use crate::ad::frames::{
    decode_ad_frame, encode_ad_request, encode_node_ad, inbound, node_ad_frame, request_frame,
    AdInbound, AdInboundView,
};
use crate::ad::schema::{AdRequest, AdRequestView};
use crate::ad::store::{AdStore, AdStoreView};
use crate::ident::{Frame, FrameView, NodeId};
use crate::time::Duration;
use vstd::prelude::*;

verus! {

/// A frame and the peer that it goes to.
#[derive(Debug, PartialEq, Eq)]
pub struct Outgoing {
    pub to: NodeId,
    pub frame: Frame,
}

/// What an [`Outgoing`] says.
pub struct OutgoingView {
    pub to: NodeId,
    pub frame: FrameView,
}

impl View for Outgoing {
    type V = OutgoingView;

    open spec fn view(&self) -> OutgoingView {
        OutgoingView { to: self.to, frame: self.frame@ }
    }
}

/// What a list of outgoing frames says.
pub open spec fn outgoing_view(v: Seq<Outgoing>) -> Seq<OutgoingView> {
    Seq::new(v.len(), |i: int| v[i]@)
}

/// The ad store and how long a peer that went away is remembered.
pub struct Gossip {
    pub store: AdStore,
    pub peer_grace: Duration,
}

/// The store after a frame came in: an ad is merged, anything else changes
/// nothing.
pub open spec fn received(s: AdStoreView, f: FrameView) -> AdStoreView {
    match inbound(f) {
        Ok(AdInboundView::Ad(ad)) => s.upserted(ad),
        _ => s,
    }
}

/// What is sent back for a frame: the own ad, to the node that asks for it.
pub open spec fn answer(s: AdStoreView, f: FrameView) -> Option<OutgoingView> {
    match inbound(f) {
        Ok(AdInboundView::Request(r)) => Some(
            OutgoingView { to: r.from, frame: node_ad_frame(s.own) },
        ),
        _ => None,
    }
}

impl Gossip {
    pub fn new(store: AdStore, peer_grace: Duration) -> (g: Self)
        ensures
            g.store == store,
            g.peer_grace == peer_grace,
    {
        Gossip { store, peer_grace }
    }

    /// The own ad, addressed to `peer`.
    fn own_ad_to(&self, peer: NodeId) -> (o: Outgoing)
        ensures
            o@ == (OutgoingView { to: peer, frame: node_ad_frame(self.store@.own) }),
    {
        let ad = self.store.self_ad();
        let frame = match encode_node_ad(&ad) {
            Ok(f) => f,
            Err(_) => Frame::new(0, Vec::new()),
        };
        Outgoing { to: peer, frame }
    }

    /// The current own ad for every live peer, in their order.
    pub fn broadcast_self(&self, live: &Vec<NodeId>) -> (r: Vec<Outgoing>)
        ensures
            outgoing_view(r@) == Seq::new(
                live@.len(),
                |i: int| OutgoingView { to: live@[i], frame: node_ad_frame(self.store@.own) },
            ),
    {
        let mut out: Vec<Outgoing> = Vec::new();
        let mut i: usize = 0;
        while i < live.len()
            invariant
                i <= live@.len(),
                out@.len() == i,
                forall|k: int|
                    0 <= k < i ==> #[trigger] out@[k]@ == (OutgoingView {
                        to: live@[k],
                        frame: node_ad_frame(self.store@.own),
                    }),
            decreases live@.len() - i,
        {
            out.push(self.own_ad_to(live[i]));
            i = i + 1;
        }
        assert(outgoing_view(out@) =~= Seq::new(
            live@.len(),
            |i: int| OutgoingView { to: live@[i], frame: node_ad_frame(self.store@.own) },
        ));
        out
    }

    /// Connection-up hook: the own ad for the new peer.
    pub fn on_peer_up(&self, peer: NodeId) -> (o: Outgoing)
        ensures
            o@ == (OutgoingView { to: peer, frame: node_ad_frame(self.store@.own) }),
    {
        self.own_ad_to(peer)
    }

    /// Connection-down hook: schedule the peer's eviction.
    pub fn on_peer_down(&mut self, peer: NodeId, now: Duration)
        ensures
            final(self).store@ == old(self).store@.marked_stale(peer, old(self).peer_grace, now),
            final(self).peer_grace == old(self).peer_grace,
            old(self).store@.wf() ==> final(self).store@.wf(),
    {
        let grace = self.peer_grace;
        self.store.mark_stale(peer, grace, now);
    }

    /// An inbound frame from a peer. A frame that cannot be read is dropped.
    /// Deltas are accepted and ignored.
    pub fn on_frame(&mut self, _peer: NodeId, frame: &Frame) -> (reply: Option<Outgoing>)
        ensures
            final(self).store@ == received(old(self).store@, frame@),
            final(self).peer_grace == old(self).peer_grace,
            old(self).store@.wf() ==> final(self).store@.wf(),
            match answer(old(self).store@, frame@) {
                None => reply is None,
                Some(o) => reply is Some && reply->Some_0@ == o,
            },
    {
        match decode_ad_frame(frame) {
            Err(_) => None,
            Ok(AdInbound::Ad(ad)) => {
                let _ = self.store.upsert(ad);
                None
            },
            Ok(AdInbound::Delta { node_id: _, generation: _ }) => None,
            Ok(AdInbound::Request(req)) => Some(self.own_ad_to(req.from)),
        }
    }
}

/// The frame in which `from` asks for an ad.
pub fn ad_request_frame(from: NodeId) -> (f: Frame)
    ensures
        f@ == request_frame(AdRequestView { from }),
{
    match encode_ad_request(&AdRequest { from }) {
        Ok(f) => f,
        Err(_) => Frame::new(0, Vec::new()),
    }
}

/// A peer that asks is answered with the own ad, and asking changes nothing.
pub proof fn law_request_answered(s: AdStoreView, from: NodeId)
    ensures
        answer(s, request_frame(AdRequestView { from })) == Some(
            OutgoingView { to: from, frame: node_ad_frame(s.own) },
        ),
        received(s, request_frame(AdRequestView { from })) == s,
{
    crate::packed::law_unpack_pack::<AdRequest>(AdRequestView { from });
}

/// What one node broadcasts, another merges: the receiver ends up with the
/// sender's own ad unless it knows a newer one.
pub proof fn law_broadcast_received(sender: AdStoreView, receiver: AdStoreView)
    requires
        <crate::ad::schema::NodeAd as crate::packed::Packed>::fits(sender.own),
    ensures
        received(receiver, node_ad_frame(sender.own)) == receiver.upserted(sender.own),
{
    crate::packed::law_unpack_pack::<crate::ad::schema::NodeAd>(sender.own);
}

} // verus!

//! Frame-kind constants for the ad range (`0x0100..=0x01FF`) plus the glue
//! between frames and the schema types.
use crate::ad::schema::{AdGossip, AdGossipView, AdRequest, AdRequestView, NodeAd, NodeAdView};
use crate::ident::{Frame, FrameView, NodeId};
use crate::packed::{law_pack_unpack, law_unpack_pack, pack, unpack, unpacked, CodecError, Packed};
use vstd::prelude::*;

verus! {

pub const FRAME_NODE_AD: u16 = 0x0100;

pub const FRAME_AD_GOSSIP: u16 = 0x0101;

pub const FRAME_AD_REQUEST: u16 = 0x0102;

/// First and last of the ad-owned frame kinds.
pub const AD_RANGE: (u16, u16) = (0x0100, 0x01FF);

/// Why an ad frame could not be read or written.
#[derive(Copy, Clone, Debug, PartialEq, Eq, Structural)]
pub enum AdFrameError {
    /// The kind is in the ad range, but there is no such frame.
    UnknownFrameKind { kind: u16 },
    /// The kind is not in the ad range.
    OutOfRange { kind: u16 },
    /// The payload is not what the kind says.
    Codec(CodecError),
}

/// Normalized inbound message, hiding the redundancy between `NodeAd` and
/// `AdGossip::Full`.
#[derive(Debug, PartialEq, Eq)]
pub enum AdInbound {
    Ad(NodeAd),
    Delta { node_id: NodeId, generation: u64 },
    Request(AdRequest),
}

/// What an [`AdInbound`] says.
pub enum AdInboundView {
    Ad(NodeAdView),
    Delta { node_id: NodeId, generation: u64 },
    Request(AdRequestView),
}

impl View for AdInbound {
    type V = AdInboundView;

    open spec fn view(&self) -> AdInboundView {
        match *self {
            AdInbound::Ad(ad) => AdInboundView::Ad(ad@),
            AdInbound::Delta { node_id, generation } => AdInboundView::Delta {
                node_id,
                generation,
            },
            AdInbound::Request(r) => AdInboundView::Request(r@),
        }
    }
}

/// The frame that carries an ad.
pub open spec fn node_ad_frame(ad: NodeAdView) -> FrameView {
    FrameView { kind: FRAME_NODE_AD, payload: NodeAd::put(ad) }
}

/// The frame that carries a gossip envelope.
pub open spec fn ad_gossip_frame(g: AdGossipView) -> FrameView {
    FrameView { kind: FRAME_AD_GOSSIP, payload: AdGossip::put(g) }
}

/// The frame that asks for ads.
pub open spec fn request_frame(r: AdRequestView) -> FrameView {
    FrameView { kind: FRAME_AD_REQUEST, payload: AdRequest::put(r) }
}

/// Encodes an ad. Every ad can be encoded.
pub fn encode_node_ad(ad: &NodeAd) -> (r: Result<Frame, AdFrameError>)
    ensures
        r is Ok,
        r->Ok_0@ == node_ad_frame(ad@),
        NodeAd::fits(ad@),
{
    Ok(Frame::new(FRAME_NODE_AD, pack(ad)))
}

/// Encodes a gossip envelope. Every envelope can be encoded.
pub fn encode_ad_gossip(g: &AdGossip) -> (r: Result<Frame, AdFrameError>)
    ensures
        r is Ok,
        r->Ok_0@ == ad_gossip_frame(g@),
        AdGossip::fits(g@),
{
    Ok(Frame::new(FRAME_AD_GOSSIP, pack(g)))
}

/// Encodes a request. Every request can be encoded.
pub fn encode_ad_request(r: &AdRequest) -> (f: Result<Frame, AdFrameError>)
    ensures
        f is Ok,
        f->Ok_0@ == request_frame(r@),
{
    Ok(Frame::new(FRAME_AD_REQUEST, pack(r)))
}

/// What a frame says: an ad, whichever way it came, a delta or a request; the
/// kind is looked at first.
pub open spec fn inbound(f: FrameView) -> Result<AdInboundView, AdFrameError> {
    if !(AD_RANGE.0 <= f.kind <= AD_RANGE.1) {
        Err(AdFrameError::OutOfRange { kind: f.kind })
    } else if f.kind == FRAME_NODE_AD {
        match unpacked::<NodeAd>(f.payload) {
            Ok(ad) => Ok(AdInboundView::Ad(ad)),
            Err(e) => Err(AdFrameError::Codec(e)),
        }
    } else if f.kind == FRAME_AD_GOSSIP {
        match unpacked::<AdGossip>(f.payload) {
            Ok(AdGossipView::Full(ad)) => Ok(AdInboundView::Ad(ad)),
            Ok(AdGossipView::Delta { node_id, generation }) => Ok(
                AdInboundView::Delta { node_id, generation },
            ),
            Err(e) => Err(AdFrameError::Codec(e)),
        }
    } else if f.kind == FRAME_AD_REQUEST {
        match unpacked::<AdRequest>(f.payload) {
            Ok(r) => Ok(AdInboundView::Request(r)),
            Err(e) => Err(AdFrameError::Codec(e)),
        }
    } else {
        Err(AdFrameError::UnknownFrameKind { kind: f.kind })
    }
}

/// Receiver-side decoder. `NodeAd` and `AdGossip::Full` are both folded to
/// `AdInbound::Ad` so handlers don't need to special-case the two equivalent
/// representations.
pub fn decode_ad_frame(frame: &Frame) -> (r: Result<AdInbound, AdFrameError>)
    ensures
        match inbound(frame@) {
            Ok(m) => r is Ok && r->Ok_0@ == m,
            Err(e) => r == Err::<AdInbound, AdFrameError>(e),
        },
{
    let kind: u16 = frame.kind;
    let payload = frame.payload.as_slice();
    if kind < AD_RANGE.0 || kind > AD_RANGE.1 {
        return Err(AdFrameError::OutOfRange { kind });
    }
    if kind == FRAME_NODE_AD {
        match unpack::<NodeAd>(payload) {
            Ok(ad) => Ok(AdInbound::Ad(ad)),
            Err(e) => Err(AdFrameError::Codec(e)),
        }
    } else if kind == FRAME_AD_GOSSIP {
        match unpack::<AdGossip>(payload) {
            Ok(AdGossip::Full(ad)) => Ok(AdInbound::Ad(ad)),
            Ok(AdGossip::Delta { node_id, generation }) => Ok(
                AdInbound::Delta { node_id, generation },
            ),
            Err(e) => Err(AdFrameError::Codec(e)),
        }
    } else if kind == FRAME_AD_REQUEST {
        match unpack::<AdRequest>(payload) {
            Ok(r) => Ok(AdInbound::Request(r)),
            Err(e) => Err(AdFrameError::Codec(e)),
        }
    } else {
        Err(AdFrameError::UnknownFrameKind { kind })
    }
}

/// An ad is received as it was sent, whether bare or in an envelope; so are a
/// delta and a request.
pub proof fn law_frames_roundtrip(
    ad: NodeAdView,
    node_id: NodeId,
    generation: u64,
    request: AdRequestView,
)
    requires
        NodeAd::fits(ad),
    ensures
        inbound(node_ad_frame(ad)) == Ok::<AdInboundView, AdFrameError>(AdInboundView::Ad(ad)),
        inbound(ad_gossip_frame(AdGossipView::Full(ad))) == Ok::<AdInboundView, AdFrameError>(
            AdInboundView::Ad(ad),
        ),
        inbound(ad_gossip_frame(AdGossipView::Delta { node_id, generation })) == Ok::<
            AdInboundView,
            AdFrameError,
        >(AdInboundView::Delta { node_id, generation }),
        inbound(request_frame(request)) == Ok::<AdInboundView, AdFrameError>(
            AdInboundView::Request(request),
        ),
{
    law_unpack_pack::<NodeAd>(ad);
    law_unpack_pack::<AdGossip>(AdGossipView::Full(ad));
    law_unpack_pack::<AdGossip>(AdGossipView::Delta { node_id, generation });
    law_unpack_pack::<AdRequest>(request);
}

/// A frame that is received was sent: it is one of the frames that encode what
/// it says.
pub proof fn law_frames_canonical(f: FrameView)
    ensures
        match inbound(f) {
            Ok(AdInboundView::Ad(ad)) => f == node_ad_frame(ad) || f == ad_gossip_frame(
                AdGossipView::Full(ad),
            ),
            Ok(AdInboundView::Delta { node_id, generation }) => f == ad_gossip_frame(
                AdGossipView::Delta { node_id, generation },
            ),
            Ok(AdInboundView::Request(r)) => f == request_frame(r),
            Err(_) => true,
        },
{
    law_pack_unpack::<NodeAd>(f.payload);
    law_pack_unpack::<AdGossip>(f.payload);
    law_pack_unpack::<AdRequest>(f.payload);
}

} // verus!

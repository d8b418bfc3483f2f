//! Wire payloads for the mailbox range (`0x0200..=0x02FF`).
use crate::ident::{Frame, FrameView, NetId};
use crate::packed::{
    law_pack_unpack, law_unpack_pack, pack, unpack, unpacked, write_blob, Blob, CodecError, Input,
    Packed,
};
use vstd::prelude::*;

verus! {

pub const FRAME_MAIL_SEND: u16 = 0x0200;

pub const FRAME_MAIL_DELIVERY_FAILURE: u16 = 0x0201;

pub const FRAME_SERVICE_AD: u16 = 0x0210;

pub const FRAME_SERVICE_FORGET: u16 = 0x0211;

pub const FRAME_SERVICE_SYNC: u16 = 0x0212;

pub const FRAME_SERVICE_SYNC_RESPONSE: u16 = 0x0213;

/// First and last of the mailbox-owned frame kinds.
pub const MBOX_RANGE: (u16, u16) = (0x0200, 0x02FF);

/// The largest mail payload: 8 MiB.
pub const MAX_MAIL_PAYLOAD: usize = 8_388_608;

/// A mail on its way.
#[derive(Debug, PartialEq, Eq)]
pub struct MailSend {
    pub from: NetId,
    pub to: NetId,
    /// At most 8 MiB.
    pub payload: Vec<u8>,
}

/// What a [`MailSend`] says.
pub struct MailSendView {
    pub from: NetId,
    pub to: NetId,
    pub payload: Seq<u8>,
}

impl View for MailSend {
    type V = MailSendView;

    open spec fn view(&self) -> MailSendView {
        MailSendView {
            from: self.from,
            to: self.to,
            payload: self.payload@,
        }
    }
}

impl Clone for MailSend {
    fn clone(&self) -> (r: Self)
        ensures
            r@ == self@,
    {
        self.copy()
    }
}

/// The fields of a [`MailSend`] in order.
pub type MailSendFields = (NetId, (NetId, Blob));

impl Packed for MailSend {
    type M = MailSendView;

    open spec fn model(&self) -> MailSendView {
        self@
    }

    open spec fn fits(m: MailSendView) -> bool {
        <MailSendFields as Packed>::fits((m.from, (m.to, m.payload)))
    }

    open spec fn put(m: MailSendView) -> Seq<u8> {
        <MailSendFields as Packed>::put((m.from, (m.to, m.payload)))
    }

    open spec fn take(s: Seq<u8>) -> Option<(MailSendView, Seq<u8>)> {
        match <MailSendFields as Packed>::take(s) {
            None => None,
            Some(((from, (to, payload)), s)) => Some((MailSendView { from, to, payload }, s)),
        }
    }

    proof fn roundtrip(m: MailSendView, rest: Seq<u8>) {
        <MailSendFields as Packed>::roundtrip((m.from, (m.to, m.payload)), rest);
    }

    proof fn canonical(s: Seq<u8>) {
        <MailSendFields as Packed>::canonical(s);
    }

    fn write(&self, out: &mut Vec<u8>) {
        let ghost before = out@;
        self.from.write(out);
        self.to.write(out);
        write_blob(self.payload.as_slice(), out);
        assert(out@ =~= before + Self::put(self@));
    }

    fn copy(&self) -> (x: Self) {
        MailSend {
            from: self.from.copy(),
            to: self.to.copy(),
            payload: self.payload.clone(),
        }
    }

    fn read(r: &mut Input<'_>) -> (x: Option<Self>) {
        match <MailSendFields as Packed>::read(r) {
            None => None,
            Some((from, (to, payload))) => Some(MailSend { from, to, payload: payload.0 }),
        }
    }
}

/// Why a mail was not delivered.
#[derive(Copy, Clone, Debug, PartialEq, Eq, Structural)]
pub enum DeliveryFailureReason {
    UnknownMbox,
    MboxFull,
    NodeUnreachable,
}

impl DeliveryFailureReason {
    /// The number of the reason on the wire.
    pub open spec fn number(self) -> u32 {
        match self {
            DeliveryFailureReason::UnknownMbox => 0,
            DeliveryFailureReason::MboxFull => 1,
            DeliveryFailureReason::NodeUnreachable => 2,
        }
    }
}

impl Packed for DeliveryFailureReason {
    type M = DeliveryFailureReason;

    open spec fn model(&self) -> DeliveryFailureReason {
        *self
    }

    open spec fn fits(m: DeliveryFailureReason) -> bool {
        true
    }

    open spec fn put(m: DeliveryFailureReason) -> Seq<u8> {
        u32::put(m.number())
    }

    open spec fn take(s: Seq<u8>) -> Option<(DeliveryFailureReason, Seq<u8>)> {
        match u32::take(s) {
            None => None,
            Some((n, s)) => if n == 0 {
                Some((DeliveryFailureReason::UnknownMbox, s))
            } else if n == 1 {
                Some((DeliveryFailureReason::MboxFull, s))
            } else if n == 2 {
                Some((DeliveryFailureReason::NodeUnreachable, s))
            } else {
                None
            },
        }
    }

    proof fn roundtrip(m: DeliveryFailureReason, rest: Seq<u8>) {
        u32::roundtrip(m.number(), rest);
    }

    proof fn canonical(s: Seq<u8>) {
        u32::canonical(s);
    }

    fn write(&self, out: &mut Vec<u8>) {
        let n: u32 = match self {
            DeliveryFailureReason::UnknownMbox => 0,
            DeliveryFailureReason::MboxFull => 1,
            DeliveryFailureReason::NodeUnreachable => 2,
        };
        n.write(out);
    }

    fn copy(&self) -> (x: Self) {
        *self
    }

    fn read(r: &mut Input<'_>) -> (x: Option<Self>) {
        match u32::read(r) {
            Some(0) => Some(DeliveryFailureReason::UnknownMbox),
            Some(1) => Some(DeliveryFailureReason::MboxFull),
            Some(2) => Some(DeliveryFailureReason::NodeUnreachable),
            _ => None,
        }
    }
}

/// A mail came back.
#[derive(Debug, PartialEq, Eq)]
pub struct MailDeliveryFailure {
    pub to: NetId,
    pub reason: DeliveryFailureReason,
}

/// What a [`MailDeliveryFailure`] says.
pub struct MailDeliveryFailureView {
    pub to: NetId,
    pub reason: DeliveryFailureReason,
}

impl View for MailDeliveryFailure {
    type V = MailDeliveryFailureView;

    open spec fn view(&self) -> MailDeliveryFailureView {
        MailDeliveryFailureView {
            to: self.to,
            reason: self.reason,
        }
    }
}

impl Clone for MailDeliveryFailure {
    fn clone(&self) -> (r: Self)
        ensures
            r@ == self@,
    {
        self.copy()
    }
}

/// The fields of a [`MailDeliveryFailure`] in order.
pub type MailDeliveryFailureFields = (NetId, DeliveryFailureReason);

impl Packed for MailDeliveryFailure {
    type M = MailDeliveryFailureView;

    open spec fn model(&self) -> MailDeliveryFailureView {
        self@
    }

    open spec fn fits(m: MailDeliveryFailureView) -> bool {
        <MailDeliveryFailureFields as Packed>::fits((m.to, m.reason))
    }

    open spec fn put(m: MailDeliveryFailureView) -> Seq<u8> {
        <MailDeliveryFailureFields as Packed>::put((m.to, m.reason))
    }

    open spec fn take(s: Seq<u8>) -> Option<(MailDeliveryFailureView, Seq<u8>)> {
        match <MailDeliveryFailureFields as Packed>::take(s) {
            None => None,
            Some(((to, reason), s)) => Some((MailDeliveryFailureView { to, reason }, s)),
        }
    }

    proof fn roundtrip(m: MailDeliveryFailureView, rest: Seq<u8>) {
        <MailDeliveryFailureFields as Packed>::roundtrip((m.to, m.reason), rest);
    }

    proof fn canonical(s: Seq<u8>) {
        <MailDeliveryFailureFields as Packed>::canonical(s);
    }

    fn write(&self, out: &mut Vec<u8>) {
        let ghost before = out@;
        self.to.write(out);
        self.reason.write(out);
        assert(out@ =~= before + Self::put(self@));
    }

    fn copy(&self) -> (x: Self) {
        MailDeliveryFailure {
            to: self.to.copy(),
            reason: self.reason.copy(),
        }
    }

    fn read(r: &mut Input<'_>) -> (x: Option<Self>) {
        match <MailDeliveryFailureFields as Packed>::read(r) {
            None => None,
            Some((to, reason)) => Some(MailDeliveryFailure { to, reason }),
        }
    }
}

/// A mailbox offers a service.
#[derive(Debug, PartialEq, Eq)]
pub struct ServiceAd {
    pub name: String,
    pub net_id: NetId,
    pub lamport: u64,
}

/// What a [`ServiceAd`] says.
pub struct ServiceAdView {
    pub name: Seq<char>,
    pub net_id: NetId,
    pub lamport: u64,
}

impl View for ServiceAd {
    type V = ServiceAdView;

    open spec fn view(&self) -> ServiceAdView {
        ServiceAdView {
            name: self.name@,
            net_id: self.net_id,
            lamport: self.lamport,
        }
    }
}

impl Clone for ServiceAd {
    fn clone(&self) -> (r: Self)
        ensures
            r@ == self@,
    {
        self.copy()
    }
}

/// The fields of a [`ServiceAd`] in order.
pub type ServiceAdFields = (String, (NetId, u64));

impl Packed for ServiceAd {
    type M = ServiceAdView;

    open spec fn model(&self) -> ServiceAdView {
        self@
    }

    open spec fn fits(m: ServiceAdView) -> bool {
        <ServiceAdFields as Packed>::fits((m.name, (m.net_id, m.lamport)))
    }

    open spec fn put(m: ServiceAdView) -> Seq<u8> {
        <ServiceAdFields as Packed>::put((m.name, (m.net_id, m.lamport)))
    }

    open spec fn take(s: Seq<u8>) -> Option<(ServiceAdView, Seq<u8>)> {
        match <ServiceAdFields as Packed>::take(s) {
            None => None,
            Some(((name, (net_id, lamport)), s)) => Some((ServiceAdView { name, net_id, lamport }, s)),
        }
    }

    proof fn roundtrip(m: ServiceAdView, rest: Seq<u8>) {
        <ServiceAdFields as Packed>::roundtrip((m.name, (m.net_id, m.lamport)), rest);
    }

    proof fn canonical(s: Seq<u8>) {
        <ServiceAdFields as Packed>::canonical(s);
    }

    fn write(&self, out: &mut Vec<u8>) {
        let ghost before = out@;
        self.name.write(out);
        self.net_id.write(out);
        self.lamport.write(out);
        assert(out@ =~= before + Self::put(self@));
    }

    fn copy(&self) -> (x: Self) {
        ServiceAd {
            name: self.name.copy(),
            net_id: self.net_id.copy(),
            lamport: self.lamport.copy(),
        }
    }

    fn read(r: &mut Input<'_>) -> (x: Option<Self>) {
        match <ServiceAdFields as Packed>::read(r) {
            None => None,
            Some((name, (net_id, lamport))) => Some(ServiceAd { name, net_id, lamport }),
        }
    }
}

/// A mailbox no longer offers a service.
#[derive(Debug, PartialEq, Eq)]
pub struct ServiceForget {
    pub name: String,
    pub net_id: NetId,
    pub lamport: u64,
}

/// What a [`ServiceForget`] says.
pub struct ServiceForgetView {
    pub name: Seq<char>,
    pub net_id: NetId,
    pub lamport: u64,
}

impl View for ServiceForget {
    type V = ServiceForgetView;

    open spec fn view(&self) -> ServiceForgetView {
        ServiceForgetView {
            name: self.name@,
            net_id: self.net_id,
            lamport: self.lamport,
        }
    }
}

impl Clone for ServiceForget {
    fn clone(&self) -> (r: Self)
        ensures
            r@ == self@,
    {
        self.copy()
    }
}

/// The fields of a [`ServiceForget`] in order.
pub type ServiceForgetFields = (String, (NetId, u64));

impl Packed for ServiceForget {
    type M = ServiceForgetView;

    open spec fn model(&self) -> ServiceForgetView {
        self@
    }

    open spec fn fits(m: ServiceForgetView) -> bool {
        <ServiceForgetFields as Packed>::fits((m.name, (m.net_id, m.lamport)))
    }

    open spec fn put(m: ServiceForgetView) -> Seq<u8> {
        <ServiceForgetFields as Packed>::put((m.name, (m.net_id, m.lamport)))
    }

    open spec fn take(s: Seq<u8>) -> Option<(ServiceForgetView, Seq<u8>)> {
        match <ServiceForgetFields as Packed>::take(s) {
            None => None,
            Some(((name, (net_id, lamport)), s)) => Some((ServiceForgetView { name, net_id, lamport }, s)),
        }
    }

    proof fn roundtrip(m: ServiceForgetView, rest: Seq<u8>) {
        <ServiceForgetFields as Packed>::roundtrip((m.name, (m.net_id, m.lamport)), rest);
    }

    proof fn canonical(s: Seq<u8>) {
        <ServiceForgetFields as Packed>::canonical(s);
    }

    fn write(&self, out: &mut Vec<u8>) {
        let ghost before = out@;
        self.name.write(out);
        self.net_id.write(out);
        self.lamport.write(out);
        assert(out@ =~= before + Self::put(self@));
    }

    fn copy(&self) -> (x: Self) {
        ServiceForget {
            name: self.name.copy(),
            net_id: self.net_id.copy(),
            lamport: self.lamport.copy(),
        }
    }

    fn read(r: &mut Input<'_>) -> (x: Option<Self>) {
        match <ServiceForgetFields as Packed>::read(r) {
            None => None,
            Some((name, (net_id, lamport))) => Some(ServiceForget { name, net_id, lamport }),
        }
    }
}

/// A peer asks for everything that is known. It has no payload.
#[derive(Copy, Clone, Debug, PartialEq, Eq, Structural)]
pub struct ServiceSync;

impl Packed for ServiceSync {
    type M = ServiceSync;

    open spec fn model(&self) -> ServiceSync {
        *self
    }

    open spec fn fits(m: ServiceSync) -> bool {
        true
    }

    open spec fn put(m: ServiceSync) -> Seq<u8> {
        Seq::empty()
    }

    open spec fn take(s: Seq<u8>) -> Option<(ServiceSync, Seq<u8>)> {
        Some((ServiceSync, s))
    }

    proof fn roundtrip(m: ServiceSync, rest: Seq<u8>) {
        assert(Seq::<u8>::empty() + rest =~= rest);
    }

    proof fn canonical(s: Seq<u8>) {
        assert(Seq::<u8>::empty() + s =~= s);
    }

    fn write(&self, out: &mut Vec<u8>) {
        assert(out@ + Seq::<u8>::empty() =~= out@);
    }

    fn copy(&self) -> (x: Self) {
        *self
    }

    fn read(r: &mut Input<'_>) -> (x: Option<Self>) {
        Some(ServiceSync)
    }
}

/// One entry of the answer to a sync.
#[derive(Debug, PartialEq, Eq)]
pub struct ServiceSyncEntry {
    pub name: String,
    pub net_id: NetId,
    pub lamport: u64,
    pub tombstone: bool,
}

/// What a [`ServiceSyncEntry`] says.
pub struct ServiceSyncEntryView {
    pub name: Seq<char>,
    pub net_id: NetId,
    pub lamport: u64,
    pub tombstone: bool,
}

impl View for ServiceSyncEntry {
    type V = ServiceSyncEntryView;

    open spec fn view(&self) -> ServiceSyncEntryView {
        ServiceSyncEntryView {
            name: self.name@,
            net_id: self.net_id,
            lamport: self.lamport,
            tombstone: self.tombstone,
        }
    }
}

impl Clone for ServiceSyncEntry {
    fn clone(&self) -> (r: Self)
        ensures
            r@ == self@,
    {
        self.copy()
    }
}

/// The fields of a [`ServiceSyncEntry`] in order.
pub type ServiceSyncEntryFields = (String, (NetId, (u64, bool)));

impl Packed for ServiceSyncEntry {
    type M = ServiceSyncEntryView;

    open spec fn model(&self) -> ServiceSyncEntryView {
        self@
    }

    open spec fn fits(m: ServiceSyncEntryView) -> bool {
        <ServiceSyncEntryFields as Packed>::fits((m.name, (m.net_id, (m.lamport, m.tombstone))))
    }

    open spec fn put(m: ServiceSyncEntryView) -> Seq<u8> {
        <ServiceSyncEntryFields as Packed>::put((m.name, (m.net_id, (m.lamport, m.tombstone))))
    }

    open spec fn take(s: Seq<u8>) -> Option<(ServiceSyncEntryView, Seq<u8>)> {
        match <ServiceSyncEntryFields as Packed>::take(s) {
            None => None,
            Some(((name, (net_id, (lamport, tombstone))), s)) => Some((ServiceSyncEntryView { name, net_id, lamport, tombstone }, s)),
        }
    }

    proof fn roundtrip(m: ServiceSyncEntryView, rest: Seq<u8>) {
        <ServiceSyncEntryFields as Packed>::roundtrip((m.name, (m.net_id, (m.lamport, m.tombstone))), rest);
    }

    proof fn canonical(s: Seq<u8>) {
        <ServiceSyncEntryFields as Packed>::canonical(s);
    }

    fn write(&self, out: &mut Vec<u8>) {
        let ghost before = out@;
        self.name.write(out);
        self.net_id.write(out);
        self.lamport.write(out);
        self.tombstone.write(out);
        assert(out@ =~= before + Self::put(self@));
    }

    fn copy(&self) -> (x: Self) {
        ServiceSyncEntry {
            name: self.name.copy(),
            net_id: self.net_id.copy(),
            lamport: self.lamport.copy(),
            tombstone: self.tombstone.copy(),
        }
    }

    fn read(r: &mut Input<'_>) -> (x: Option<Self>) {
        match <ServiceSyncEntryFields as Packed>::read(r) {
            None => None,
            Some((name, (net_id, (lamport, tombstone)))) => Some(ServiceSyncEntry { name, net_id, lamport, tombstone }),
        }
    }
}

/// The answer to a sync.
#[derive(Debug, PartialEq, Eq)]
pub struct ServiceSyncResponse {
    pub entries: Vec<ServiceSyncEntry>,
}

/// What a [`ServiceSyncResponse`] says.
pub struct ServiceSyncResponseView {
    pub entries: Seq<ServiceSyncEntryView>,
}

impl View for ServiceSyncResponse {
    type V = ServiceSyncResponseView;

    open spec fn view(&self) -> ServiceSyncResponseView {
        ServiceSyncResponseView {
            entries: self.entries.model(),
        }
    }
}

impl Clone for ServiceSyncResponse {
    fn clone(&self) -> (r: Self)
        ensures
            r@ == self@,
    {
        self.copy()
    }
}

/// The fields of a [`ServiceSyncResponse`] in order.
pub type ServiceSyncResponseFields = Vec<ServiceSyncEntry>;

impl Packed for ServiceSyncResponse {
    type M = ServiceSyncResponseView;

    open spec fn model(&self) -> ServiceSyncResponseView {
        self@
    }

    open spec fn fits(m: ServiceSyncResponseView) -> bool {
        <ServiceSyncResponseFields as Packed>::fits(m.entries)
    }

    open spec fn put(m: ServiceSyncResponseView) -> Seq<u8> {
        <ServiceSyncResponseFields as Packed>::put(m.entries)
    }

    open spec fn take(s: Seq<u8>) -> Option<(ServiceSyncResponseView, Seq<u8>)> {
        match <ServiceSyncResponseFields as Packed>::take(s) {
            None => None,
            Some((entries, s)) => Some((ServiceSyncResponseView { entries }, s)),
        }
    }

    proof fn roundtrip(m: ServiceSyncResponseView, rest: Seq<u8>) {
        <ServiceSyncResponseFields as Packed>::roundtrip(m.entries, rest);
    }

    proof fn canonical(s: Seq<u8>) {
        <ServiceSyncResponseFields as Packed>::canonical(s);
    }

    fn write(&self, out: &mut Vec<u8>) {
        let ghost before = out@;
        self.entries.write(out);
        assert(out@ =~= before + Self::put(self@));
    }

    fn copy(&self) -> (x: Self) {
        ServiceSyncResponse {
            entries: self.entries.copy(),
        }
    }

    fn read(r: &mut Input<'_>) -> (x: Option<Self>) {
        match <ServiceSyncResponseFields as Packed>::read(r) {
            None => None,
            Some(entries) => Some(ServiceSyncResponse { entries }),
        }
    }
}

/// Why a mailbox frame could not be read or written.
#[derive(Copy, Clone, Debug, PartialEq, Eq, Structural)]
pub enum MboxFrameError {
    /// The kind is in the mailbox range, but there is no such frame.
    UnknownFrameKind { kind: u16 },
    /// The kind is not in the mailbox range.
    OutOfRange { kind: u16 },
    /// A mail payload is larger than 8 MiB.
    PayloadTooLarge(usize),
    /// The payload is not what the kind says.
    Codec(CodecError),
}

/// Normalized inbound view of a mailbox-range frame.
#[derive(Debug, PartialEq, Eq)]
pub enum MboxInbound {
    MailSend(MailSend),
    MailDeliveryFailure(MailDeliveryFailure),
    ServiceAd(ServiceAd),
    ServiceForget(ServiceForget),
    ServiceSync,
    ServiceSyncResponse(ServiceSyncResponse),
}

/// What a [`MboxInbound`] says.
pub enum MboxInboundView {
    MailSend(MailSendView),
    MailDeliveryFailure(MailDeliveryFailureView),
    ServiceAd(ServiceAdView),
    ServiceForget(ServiceForgetView),
    ServiceSync,
    ServiceSyncResponse(ServiceSyncResponseView),
}

impl View for MboxInbound {
    type V = MboxInboundView;

    open spec fn view(&self) -> MboxInboundView {
        match *self {
            MboxInbound::MailSend(m) => MboxInboundView::MailSend(m@),
            MboxInbound::MailDeliveryFailure(m) => MboxInboundView::MailDeliveryFailure(m@),
            MboxInbound::ServiceAd(m) => MboxInboundView::ServiceAd(m@),
            MboxInbound::ServiceForget(m) => MboxInboundView::ServiceForget(m@),
            MboxInbound::ServiceSync => MboxInboundView::ServiceSync,
            MboxInbound::ServiceSyncResponse(m) => MboxInboundView::ServiceSyncResponse(m@),
        }
    }
}

/// The frame that carries a message.
pub open spec fn frame_of(m: MboxInboundView) -> FrameView {
    match m {
        MboxInboundView::MailSend(m) => FrameView {
            kind: FRAME_MAIL_SEND,
            payload: MailSend::put(m),
        },
        MboxInboundView::MailDeliveryFailure(m) => FrameView {
            kind: FRAME_MAIL_DELIVERY_FAILURE,
            payload: MailDeliveryFailure::put(m),
        },
        MboxInboundView::ServiceAd(m) => FrameView {
            kind: FRAME_SERVICE_AD,
            payload: ServiceAd::put(m),
        },
        MboxInboundView::ServiceForget(m) => FrameView {
            kind: FRAME_SERVICE_FORGET,
            payload: ServiceForget::put(m),
        },
        MboxInboundView::ServiceSync => FrameView {
            kind: FRAME_SERVICE_SYNC,
            payload: Seq::empty(),
        },
        MboxInboundView::ServiceSyncResponse(m) => FrameView {
            kind: FRAME_SERVICE_SYNC_RESPONSE,
            payload: ServiceSyncResponse::put(m),
        },
    }
}

/// Encodes a mail. One larger than 8 MiB is refused.
pub fn encode_mail_send(m: &MailSend) -> (r: Result<Frame, MboxFrameError>)
    ensures
        if m.payload@.len() > MAX_MAIL_PAYLOAD {
            r == Err::<Frame, MboxFrameError>(
                MboxFrameError::PayloadTooLarge(m.payload@.len() as usize),
            )
        } else {
            r is Ok && r->Ok_0@ == frame_of(MboxInboundView::MailSend(m@))
        },
{
    if m.payload.len() > MAX_MAIL_PAYLOAD {
        return Err(MboxFrameError::PayloadTooLarge(m.payload.len()));
    }
    Ok(Frame::new(FRAME_MAIL_SEND, pack(m)))
}

/// Encodes a delivery failure. Every one can be encoded.
pub fn encode_mail_delivery_failure(m: &MailDeliveryFailure) -> (r: Result<Frame, MboxFrameError>)
    ensures
        r is Ok,
        r->Ok_0@ == frame_of(MboxInboundView::MailDeliveryFailure(m@)),
{
    Ok(Frame::new(FRAME_MAIL_DELIVERY_FAILURE, pack(m)))
}

/// Encodes a service ad. Every one can be encoded.
pub fn encode_service_ad(m: &ServiceAd) -> (r: Result<Frame, MboxFrameError>)
    ensures
        r is Ok,
        r->Ok_0@ == frame_of(MboxInboundView::ServiceAd(m@)),
{
    Ok(Frame::new(FRAME_SERVICE_AD, pack(m)))
}

/// Encodes a service forget. Every one can be encoded.
pub fn encode_service_forget(m: &ServiceForget) -> (r: Result<Frame, MboxFrameError>)
    ensures
        r is Ok,
        r->Ok_0@ == frame_of(MboxInboundView::ServiceForget(m@)),
{
    Ok(Frame::new(FRAME_SERVICE_FORGET, pack(m)))
}

/// Encodes a sync request.
pub fn encode_service_sync() -> (r: Result<Frame, MboxFrameError>)
    ensures
        r is Ok,
        r->Ok_0@ == frame_of(MboxInboundView::ServiceSync),
{
    Ok(Frame::new(FRAME_SERVICE_SYNC, pack(&ServiceSync)))
}

/// Encodes the answer to a sync. Every one can be encoded.
pub fn encode_service_sync_response(m: &ServiceSyncResponse) -> (r: Result<Frame, MboxFrameError>)
    ensures
        r is Ok,
        r->Ok_0@ == frame_of(MboxInboundView::ServiceSyncResponse(m@)),
{
    Ok(Frame::new(FRAME_SERVICE_SYNC_RESPONSE, pack(m)))
}

/// What a frame says; the kind is looked at first.
pub open spec fn mbox_inbound(f: FrameView) -> Result<MboxInboundView, MboxFrameError> {
    if !(MBOX_RANGE.0 <= f.kind <= MBOX_RANGE.1) {
        Err(MboxFrameError::OutOfRange { kind: f.kind })
    } else if f.kind == FRAME_MAIL_SEND {
        match unpacked::<MailSend>(f.payload) {
            Ok(m) => if m.payload.len() > MAX_MAIL_PAYLOAD {
                Err(MboxFrameError::PayloadTooLarge(m.payload.len() as usize))
            } else {
                Ok(MboxInboundView::MailSend(m))
            },
            Err(e) => Err(MboxFrameError::Codec(e)),
        }
    } else if f.kind == FRAME_MAIL_DELIVERY_FAILURE {
        match unpacked::<MailDeliveryFailure>(f.payload) {
            Ok(m) => Ok(MboxInboundView::MailDeliveryFailure(m)),
            Err(e) => Err(MboxFrameError::Codec(e)),
        }
    } else if f.kind == FRAME_SERVICE_AD {
        match unpacked::<ServiceAd>(f.payload) {
            Ok(m) => Ok(MboxInboundView::ServiceAd(m)),
            Err(e) => Err(MboxFrameError::Codec(e)),
        }
    } else if f.kind == FRAME_SERVICE_FORGET {
        match unpacked::<ServiceForget>(f.payload) {
            Ok(m) => Ok(MboxInboundView::ServiceForget(m)),
            Err(e) => Err(MboxFrameError::Codec(e)),
        }
    } else if f.kind == FRAME_SERVICE_SYNC {
        match unpacked::<ServiceSync>(f.payload) {
            Ok(_) => Ok(MboxInboundView::ServiceSync),
            Err(e) => Err(MboxFrameError::Codec(e)),
        }
    } else if f.kind == FRAME_SERVICE_SYNC_RESPONSE {
        match unpacked::<ServiceSyncResponse>(f.payload) {
            Ok(m) => Ok(MboxInboundView::ServiceSyncResponse(m)),
            Err(e) => Err(MboxFrameError::Codec(e)),
        }
    } else {
        Err(MboxFrameError::UnknownFrameKind { kind: f.kind })
    }
}

/// Decode any mailbox-range frame. Unknown kinds in the range produce
/// `UnknownFrameKind`; out-of-range kinds produce `OutOfRange`.
pub fn decode_mbox_frame(frame: &Frame) -> (r: Result<MboxInbound, MboxFrameError>)
    ensures
        match mbox_inbound(frame@) {
            Ok(m) => r is Ok && r->Ok_0@ == m,
            Err(e) => r == Err::<MboxInbound, MboxFrameError>(e),
        },
{
    let kind: u16 = frame.kind;
    let payload = frame.payload.as_slice();
    if kind < MBOX_RANGE.0 || kind > MBOX_RANGE.1 {
        return Err(MboxFrameError::OutOfRange { kind });
    }
    if kind == FRAME_MAIL_SEND {
        match unpack::<MailSend>(payload) {
            Ok(m) => {
                let n: usize = m.payload.len();
                if n > MAX_MAIL_PAYLOAD {
                    Err(MboxFrameError::PayloadTooLarge(n))
                } else {
                    Ok(MboxInbound::MailSend(m))
                }
            },
            Err(e) => Err(MboxFrameError::Codec(e)),
        }
    } else if kind == FRAME_MAIL_DELIVERY_FAILURE {
        match unpack::<MailDeliveryFailure>(payload) {
            Ok(m) => Ok(MboxInbound::MailDeliveryFailure(m)),
            Err(e) => Err(MboxFrameError::Codec(e)),
        }
    } else if kind == FRAME_SERVICE_AD {
        match unpack::<ServiceAd>(payload) {
            Ok(m) => Ok(MboxInbound::ServiceAd(m)),
            Err(e) => Err(MboxFrameError::Codec(e)),
        }
    } else if kind == FRAME_SERVICE_FORGET {
        match unpack::<ServiceForget>(payload) {
            Ok(m) => Ok(MboxInbound::ServiceForget(m)),
            Err(e) => Err(MboxFrameError::Codec(e)),
        }
    } else if kind == FRAME_SERVICE_SYNC {
        match unpack::<ServiceSync>(payload) {
            Ok(_) => Ok(MboxInbound::ServiceSync),
            Err(e) => Err(MboxFrameError::Codec(e)),
        }
    } else if kind == FRAME_SERVICE_SYNC_RESPONSE {
        match unpack::<ServiceSyncResponse>(payload) {
            Ok(m) => Ok(MboxInbound::ServiceSyncResponse(m)),
            Err(e) => Err(MboxFrameError::Codec(e)),
        }
    } else {
        Err(MboxFrameError::UnknownFrameKind { kind })
    }
}

/// Whether a message can be sent: its lengths fit, and a mail is not too large.
pub open spec fn sendable(m: MboxInboundView) -> bool {
    match m {
        MboxInboundView::MailSend(m) => m.payload.len() <= MAX_MAIL_PAYLOAD,
        MboxInboundView::MailDeliveryFailure(_) => true,
        MboxInboundView::ServiceAd(m) => ServiceAd::fits(m),
        MboxInboundView::ServiceForget(m) => ServiceForget::fits(m),
        MboxInboundView::ServiceSync => true,
        MboxInboundView::ServiceSyncResponse(m) => ServiceSyncResponse::fits(m),
    }
}

/// Every message that can be sent is received as it was.
pub proof fn law_mbox_roundtrip(m: MboxInboundView)
    requires
        sendable(m),
    ensures
        mbox_inbound(frame_of(m)) == Ok::<MboxInboundView, MboxFrameError>(m),
{
    match m {
        MboxInboundView::MailSend(m) => {
            law_unpack_pack::<MailSend>(m);
        },
        MboxInboundView::MailDeliveryFailure(m) => {
            law_unpack_pack::<MailDeliveryFailure>(m);
        },
        MboxInboundView::ServiceAd(m) => {
            law_unpack_pack::<ServiceAd>(m);
        },
        MboxInboundView::ServiceForget(m) => {
            law_unpack_pack::<ServiceForget>(m);
        },
        MboxInboundView::ServiceSync => {
            law_unpack_pack::<ServiceSync>(ServiceSync);
        },
        MboxInboundView::ServiceSyncResponse(m) => {
            law_unpack_pack::<ServiceSyncResponse>(m);
        },
    }
}

/// A frame that is received is the one that carries what it says.
pub proof fn law_mbox_canonical(f: FrameView)
    ensures
        mbox_inbound(f) matches Ok(m) ==> f == frame_of(m),
{
    law_pack_unpack::<MailSend>(f.payload);
    law_pack_unpack::<MailDeliveryFailure>(f.payload);
    law_pack_unpack::<ServiceAd>(f.payload);
    law_pack_unpack::<ServiceForget>(f.payload);
    law_pack_unpack::<ServiceSync>(f.payload);
    law_pack_unpack::<ServiceSyncResponse>(f.payload);
}

} // verus!

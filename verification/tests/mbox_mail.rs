//! Mail: its frames, the mailboxes and the way between them.
use classic::ident::{Frame, MboxId, NetId, NodeId};
use classic::mbox::error::MailError;
use classic::mbox::frames::{
    decode_mbox_frame, encode_mail_delivery_failure, encode_mail_send, encode_service_ad,
    encode_service_forget, encode_service_sync, encode_service_sync_response,
    DeliveryFailureReason, MailDeliveryFailure, MailSend, MboxFrameError, MboxInbound, ServiceAd,
    ServiceForget, ServiceSyncEntry, ServiceSyncResponse, FRAME_MAIL_DELIVERY_FAILURE,
    FRAME_MAIL_SEND, FRAME_SERVICE_AD, FRAME_SERVICE_FORGET, FRAME_SERVICE_SYNC,
    FRAME_SERVICE_SYNC_RESPONSE, MAX_MAIL_PAYLOAD, MBOX_RANGE,
};
use classic::mbox::gc::Tracker;
use classic::mbox::gossip::ServiceGossip;
use classic::mbox::handler::MboxHandler;
use classic::mbox::mailbox::{
    evict_for_gc, lookup, try_deliver_local, Mailbox, MailboxRecv, Polled, Registry, Selected,
    Selecting, MBOX_CAPACITY,
};
use classic::mbox::send::{init, mail_send, peer_done, self_node_id, Outbound, Post, MAX_MAIL_BYTES};
use classic::packed::CodecError;
use classic::time::Duration;
use std::task::Poll;

fn nid(n: u8) -> NodeId {
    NodeId::from_bytes([n; 16])
}

fn netid(node: u8, mbox: u64) -> NetId {
    NetId { node: nid(node), mbox: MboxId(mbox) }
}

fn block_on<F: std::future::Future>(f: F) -> F::Output {
    tokio::runtime::Builder::new_current_thread().enable_all().build().unwrap().block_on(f)
}

fn recv(rx: &mut MailboxRecv) -> Option<Vec<u8>> {
    block_on(rx.rx.recv())
}

/// A fresh mailbox that no task owns.
fn mailbox(registry: &mut Registry) -> (MboxId, MailboxRecv) {
    Mailbox::new(registry, &mut Tracker::new(), None)
}

/// A frame comes in at a node without services.
fn inbound(h: &MboxHandler, post: &mut Post, peer: NodeId, frame: &Frame) -> Option<Outbound> {
    h.on_frame(post, &mut ServiceGossip::new(), peer, frame, Duration::from_secs(0))
}

#[test]
fn frame_kind_discriminants_match_spec() {
    assert_eq!(FRAME_MAIL_SEND, 0x0200);
    assert_eq!(FRAME_MAIL_DELIVERY_FAILURE, 0x0201);
    assert_eq!(FRAME_SERVICE_AD, 0x0210);
    assert_eq!(FRAME_SERVICE_FORGET, 0x0211);
    assert_eq!(FRAME_SERVICE_SYNC, 0x0212);
    assert_eq!(FRAME_SERVICE_SYNC_RESPONSE, 0x0213);
}

#[test]
fn mail_send_roundtrip() {
    let m = MailSend { from: netid(1, 7), to: netid(2, 9), payload: b"hello classic".to_vec() };
    let frame = encode_mail_send(&m).unwrap();
    assert_eq!(frame.kind, FRAME_MAIL_SEND);
    match decode_mbox_frame(&frame).unwrap() {
        MboxInbound::MailSend(back) => assert_eq!(back, m),
        other => panic!("expected MailSend, got {other:?}"),
    }
}

#[test]
fn mail_send_oversize_rejected_on_encode() {
    let m = MailSend {
        from: netid(1, 1),
        to: netid(2, 2),
        payload: vec![0u8; MAX_MAIL_PAYLOAD + 1],
    };
    let err = encode_mail_send(&m).unwrap_err();
    assert!(matches!(err, MboxFrameError::PayloadTooLarge(_)));
}

#[test]
fn mail_delivery_failure_roundtrip_all_reasons() {
    for reason in [
        DeliveryFailureReason::UnknownMbox,
        DeliveryFailureReason::MboxFull,
        DeliveryFailureReason::NodeUnreachable,
    ] {
        let m = MailDeliveryFailure { to: netid(1, 1), reason };
        let frame = encode_mail_delivery_failure(&m).unwrap();
        match decode_mbox_frame(&frame).unwrap() {
            MboxInbound::MailDeliveryFailure(back) => assert_eq!(back, m),
            other => panic!("expected MailDeliveryFailure, got {other:?}"),
        }
    }
}

#[test]
fn service_ad_and_forget_roundtrip() {
    let ad = ServiceAd { name: "registry".into(), net_id: netid(1, 5), lamport: 42 };
    let frame = encode_service_ad(&ad).unwrap();
    match decode_mbox_frame(&frame).unwrap() {
        MboxInbound::ServiceAd(back) => assert_eq!(back, ad),
        other => panic!("got {other:?}"),
    }
    let f = ServiceForget { name: "registry".into(), net_id: netid(1, 5), lamport: 43 };
    let frame = encode_service_forget(&f).unwrap();
    match decode_mbox_frame(&frame).unwrap() {
        MboxInbound::ServiceForget(back) => assert_eq!(back, f),
        other => panic!("got {other:?}"),
    }
}

#[test]
fn service_sync_and_response_roundtrip() {
    let frame = encode_service_sync().unwrap();
    match decode_mbox_frame(&frame).unwrap() {
        MboxInbound::ServiceSync => {}
        other => panic!("got {other:?}"),
    }
    let r = ServiceSyncResponse {
        entries: vec![
            ServiceSyncEntry {
                name: "a".into(),
                net_id: netid(1, 1),
                lamport: 1,
                tombstone: false,
            },
            ServiceSyncEntry { name: "b".into(), net_id: netid(2, 2), lamport: 3, tombstone: true },
        ],
    };
    let frame = encode_service_sync_response(&r).unwrap();
    match decode_mbox_frame(&frame).unwrap() {
        MboxInbound::ServiceSyncResponse(back) => assert_eq!(back, r),
        other => panic!("got {other:?}"),
    }
}

#[test]
fn unknown_kind_in_mbox_range_rejected() {
    let f = Frame::new(0x0242, vec![]);
    let err = decode_mbox_frame(&f).unwrap_err();
    assert!(matches!(err, MboxFrameError::UnknownFrameKind { kind: 0x0242 }));
}

#[test]
fn out_of_range_kind_rejected() {
    let f = Frame::new(0x0042, vec![]);
    let err = decode_mbox_frame(&f).unwrap_err();
    assert!(matches!(err, MboxFrameError::OutOfRange { kind: 0x0042 }));
}

#[test]
fn all_frame_kinds_in_owned_range() {
    for k in [
        FRAME_MAIL_SEND,
        FRAME_MAIL_DELIVERY_FAILURE,
        FRAME_SERVICE_AD,
        FRAME_SERVICE_FORGET,
        FRAME_SERVICE_SYNC,
        FRAME_SERVICE_SYNC_RESPONSE,
    ] {
        assert!(MBOX_RANGE.0 <= k && k <= MBOX_RANGE.1, "{k:#06x} outside mbox range");
    }
}

/// The layout is bincode's legacy one: the same fields in a tuple come out of
/// bincode as the same bytes.
#[test]
fn mbox_layout_is_the_one_of_bincode() {
    let cfg = bincode::config::legacy();
    let m = MailSend { from: netid(1, 7), to: netid(2, 9), payload: vec![1, 2, 3] };
    let same = (([1u8; 16], 7u64), ([2u8; 16], 9u64), vec![1u8, 2, 3]);
    assert_eq!(
        encode_mail_send(&m).unwrap().payload,
        bincode::serde::encode_to_vec(&same, cfg).unwrap()
    );
    let f = MailDeliveryFailure { to: netid(4, 5), reason: DeliveryFailureReason::NodeUnreachable };
    let same = (([4u8; 16], 5u64), 2u32);
    assert_eq!(
        encode_mail_delivery_failure(&f).unwrap().payload,
        bincode::serde::encode_to_vec(&same, cfg).unwrap()
    );
    let r = ServiceSyncResponse {
        entries: vec![ServiceSyncEntry {
            name: "a\u{e9}".into(),
            net_id: netid(1, 1),
            lamport: 77,
            tombstone: true,
        }],
    };
    let same = vec![("a\u{e9}".to_string(), ([1u8; 16], 1u64), 77u64, true)];
    assert_eq!(
        encode_service_sync_response(&r).unwrap().payload,
        bincode::serde::encode_to_vec(&same, cfg).unwrap()
    );
    assert!(encode_service_sync().unwrap().payload.is_empty());
}

#[test]
fn a_flag_that_is_neither_zero_nor_one_is_refused() {
    let r = ServiceSyncResponse {
        entries: vec![ServiceSyncEntry {
            name: "".into(),
            net_id: netid(1, 1),
            lamport: 1,
            tombstone: true,
        }],
    };
    let mut frame = encode_service_sync_response(&r).unwrap();
    let last = frame.payload.len() - 1;
    frame.payload[last] = 2;
    assert_eq!(decode_mbox_frame(&frame), Err(MboxFrameError::Codec(CodecError::Malformed)));
}

#[test]
fn a_name_that_is_not_utf8_is_refused() {
    let ad = ServiceAd { name: "a".into(), net_id: netid(1, 5), lamport: 42 };
    let mut frame = encode_service_ad(&ad).unwrap();
    frame.payload[8] = 0xff;
    assert_eq!(decode_mbox_frame(&frame), Err(MboxFrameError::Codec(CodecError::Malformed)));
}

#[test]
fn alloc_is_monotonic_and_nonzero() {
    let mut r = Registry::new();
    let (a, _ra) = mailbox(&mut r);
    let (b, _rb) = mailbox(&mut r);
    let (c, _rc) = mailbox(&mut r);
    assert_ne!(a.0, 0);
    assert!(a.0 < b.0);
    assert!(b.0 < c.0);
}

#[test]
fn drop_evicts_registry_entry() {
    let mut r = Registry::new();
    let count_before = r.live_count();
    let (id, recv) = mailbox(&mut r);
    assert_eq!(recv.id(), id);
    assert_eq!(r.live_count(), count_before + 1);
    assert!(lookup(&r, id).is_some());
    evict_for_gc(&mut r, recv.id());
    assert!(lookup(&r, id).is_none());
    assert_eq!(r.live_count(), count_before);
}

#[test]
fn mbox_local_delivery_round_trips() {
    let mut r = Registry::new();
    let (id, mut rx) = mailbox(&mut r);
    assert!(try_deliver_local(&mut r, id, b"hello".to_vec()));
    assert_eq!(recv(&mut rx).as_deref(), Some(&b"hello"[..]));
}

#[test]
fn try_recv_returns_message_then_none() {
    let mut r = Registry::new();
    let (id, mut rx) = mailbox(&mut r);
    try_deliver_local(&mut r, id, b"x".to_vec());
    let got = rx.try_recv();
    assert_eq!(got.as_deref(), Some(&b"x"[..]));
    assert!(rx.try_recv().is_none());
}

#[test]
fn full_channel_drops_silently_no_panic() {
    let mut r = Registry::new();
    let (id, _rx) = mailbox(&mut r);
    // Well past capacity: the bounded channel rejects the overflow.
    let mut taken = 0;
    for i in 0..MBOX_CAPACITY + 100 {
        if try_deliver_local(&mut r, id, vec![i as u8]) {
            taken += 1;
        }
    }
    assert_eq!(taken, MBOX_CAPACITY);
}

#[test]
fn missing_mailbox_drop_is_silent() {
    let mut r = Registry::new();
    let (id, recv) = mailbox(&mut r);
    evict_for_gc(&mut r, recv.id());
    assert!(!try_deliver_local(&mut r, id, b"into-the-void".to_vec()));
}

/// Waits for the first of the mailboxes that has a message.
fn select_mboxes(mboxes: &mut [&mut MailboxRecv]) -> Option<(usize, Vec<u8>)> {
    block_on(std::future::poll_fn(|cx| {
        let mut pass = Selecting::new();
        for m in mboxes.iter_mut() {
            let polled = match m.rx.poll_recv(cx) {
                Poll::Ready(Some(msg)) => Polled::Message(msg),
                Poll::Ready(None) => Polled::Closed,
                Poll::Pending => Polled::Pending,
            };
            if let Some(Selected::Ready(i, msg)) = pass.step(polled) {
                return Poll::Ready(Some((i, msg)));
            }
        }
        match pass.finish() {
            Selected::Ready(i, msg) => Poll::Ready(Some((i, msg))),
            Selected::AllClosed => Poll::Ready(None),
            Selected::Wait => Poll::Pending,
        }
    }))
}

#[test]
fn select_returns_first_ready_index_with_message() {
    let mut r = Registry::new();
    let (a, mut ra) = mailbox(&mut r);
    let (_b, mut rb) = mailbox(&mut r);
    let (_c, mut rc) = mailbox(&mut r);
    try_deliver_local(&mut r, a, b"x".to_vec());
    let (idx, msg) = select_mboxes(&mut [&mut ra, &mut rb, &mut rc]).unwrap();
    assert_eq!(idx, 0);
    assert_eq!(&msg, b"x");
}

#[test]
fn select_picks_only_ready_mailbox_among_three() {
    let mut r = Registry::new();
    let (_a, mut ra) = mailbox(&mut r);
    let (_b, mut rb) = mailbox(&mut r);
    let (c, mut rc) = mailbox(&mut r);
    try_deliver_local(&mut r, c, b"hi".to_vec());
    let (idx, msg) = select_mboxes(&mut [&mut ra, &mut rb, &mut rc]).unwrap();
    assert_eq!(idx, 2);
    assert_eq!(&msg, b"hi");
}

#[test]
fn select_empty_slice_returns_none() {
    assert!(select_mboxes(&mut []).is_none());
}

#[test]
fn select_over_closed_mailboxes_ends() {
    let mut r = Registry::new();
    let (a, mut ra) = mailbox(&mut r);
    evict_for_gc(&mut r, a);
    assert!(select_mboxes(&mut [&mut ra]).is_none());
}

fn local_post() -> Post {
    let mut p = Post::new();
    init(&mut p, nid(1));
    p
}

#[test]
fn errors_when_not_initialized() {
    let mut p = Post::new();
    let err = mail_send(&mut p, netid(1, 1), vec![]).unwrap_err();
    assert!(matches!(err, MailError::NotInitialized));
}

#[test]
fn payload_too_large_rejected_even_pre_init() {
    // The size check comes before the check of the own node.
    let huge = vec![0u8; MAX_MAIL_BYTES + 1];
    let err = mail_send(&mut Post::new(), netid(1, 1), huge).unwrap_err();
    assert!(matches!(err, MailError::PayloadTooLarge(_)));
}

#[test]
fn the_own_node_is_set_once() {
    let mut p = local_post();
    init(&mut p, nid(9));
    assert_eq!(self_node_id(&p), Some(nid(1)));
}

#[test]
fn send_local_delivery_round_trips() {
    let mut p = local_post();
    let (id, mut rx) = mailbox(&mut p.registry);
    mail_send(&mut p, NetId { node: nid(1), mbox: id }, b"hello".to_vec()).unwrap();
    assert_eq!(recv(&mut rx).as_deref(), Some(&b"hello"[..]));
}

#[test]
fn missing_local_mbox_is_ok_increments_counter() {
    let mut p = local_post();
    let before = p.drops.local_missing;
    // A mailbox far above any that was handed out.
    mail_send(&mut p, netid(1, u64::MAX), b"void".to_vec()).unwrap();
    assert_eq!(p.drops.local_missing, before + 1);
}

#[test]
fn channel_full_increments_drop_counter() {
    let mut p = local_post();
    let (id, _rx) = mailbox(&mut p.registry);
    let to = NetId { node: nid(1), mbox: id };
    // Fill the bounded channel without receiving.
    for _ in 0..MBOX_CAPACITY {
        mail_send(&mut p, to, b"x".to_vec()).unwrap();
    }
    let before = p.drops.local_full;
    // One more must drop.
    mail_send(&mut p, to, b"overflow".to_vec()).unwrap();
    assert_eq!(p.drops.local_full, before + 1);
}

#[test]
fn remote_send_with_no_peers_backend_drops_silently() {
    let mut p = local_post();
    let before = p.drops.remote_no_peer;
    let out = mail_send(&mut p, netid(2, 1), b"hi".to_vec()).unwrap();
    assert!(out.is_some());
    // There is no backend to send it.
    peer_done(&mut p, false);
    assert_eq!(p.drops.remote_no_peer, before + 1);
}

#[test]
fn remote_send_writes_frame_to_peers_backend() {
    let mut p = local_post();
    let to = netid(2, 42);
    let sent: Vec<(NodeId, Frame)> = mail_send(&mut p, to, b"crossnode".to_vec())
        .unwrap()
        .into_iter()
        .map(|o| (o.to, o.frame))
        .collect();
    peer_done(&mut p, true);
    assert_eq!(sent.len(), 1);
    assert_eq!(p.drops.remote_no_peer, 0);
    let (peer, frame) = &sent[0];
    assert_eq!(*peer, nid(2));
    assert_eq!(frame.kind, FRAME_MAIL_SEND);
    match decode_mbox_frame(frame).unwrap() {
        MboxInbound::MailSend(m) => {
            assert_eq!(m.to, to);
            assert_eq!(m.payload, b"crossnode");
            assert_eq!(m.from.node, nid(1));
        }
        other => panic!("expected MailSend, got {other:?}"),
    }
}

#[test]
fn remote_send_when_backend_refuses_drops() {
    let mut p = local_post();
    let before = p.drops.remote_no_peer;
    let out = mail_send(&mut p, netid(2, 1), b"hi".to_vec()).unwrap();
    peer_done(&mut p, out.is_none());
    assert!(p.drops.remote_no_peer >= before + 1);
}

#[test]
fn inbound_mail_send_delivers_to_local_mailbox() {
    let mut p = local_post();
    let h = MboxHandler::new();
    let (id, mut rx) = mailbox(&mut p.registry);
    let m = MailSend {
        from: netid(2, 1),
        to: NetId { node: nid(1), mbox: id },
        payload: b"crossover".to_vec(),
    };
    let frame = encode_mail_send(&m).unwrap();
    assert!(inbound(&h, &mut p, nid(2), &frame).is_none());
    assert_eq!(recv(&mut rx).as_deref(), Some(&b"crossover"[..]));
}

#[test]
fn inbound_mail_send_missing_mbox_optionally_sends_failure() {
    let mut p = local_post();
    let m = MailSend {
        from: netid(2, 99),
        to: netid(1, u64::MAX), // certainly unknown here
        payload: b"miss".to_vec(),
    };
    let frame = encode_mail_send(&m).unwrap();
    assert!(inbound(&MboxHandler::new(), &mut p, nid(2), &frame).is_none());

    let out = inbound(&MboxHandler::with_peers(), &mut p, nid(2), &frame).unwrap();
    assert_eq!(out.to, nid(2)); // bounce to the sender's node
    match decode_mbox_frame(&out.frame).unwrap() {
        MboxInbound::MailDeliveryFailure(f) => {
            assert_eq!(f.reason, DeliveryFailureReason::UnknownMbox);
            assert_eq!(f.to, netid(1, u64::MAX));
        }
        other => panic!("expected MailDeliveryFailure, got {other:?}"),
    }
}

#[test]
fn a_full_mailbox_is_reported_to_the_sender() {
    let h = MboxHandler::with_peers();
    let out = h.delivered(Some(nid(1)), nid(2), netid(1, 5), true, false).unwrap();
    match decode_mbox_frame(&out.frame).unwrap() {
        MboxInbound::MailDeliveryFailure(f) => {
            assert_eq!(f.reason, DeliveryFailureReason::MboxFull)
        }
        other => panic!("expected MailDeliveryFailure, got {other:?}"),
    }
    assert!(h.delivered(Some(nid(1)), nid(2), netid(1, 5), true, true).is_none());
    // The own node gets no report.
    assert!(h.delivered(Some(nid(2)), nid(2), netid(1, 5), false, false).is_none());
}

#[test]
fn unknown_kind_in_mbox_range_dropped_no_panic() {
    let h = MboxHandler::new();
    // In the mbox range but not assigned.
    assert!(inbound(&h, &mut local_post(), nid(2), &Frame::new(0x0242, vec![])).is_none());
}

#[test]
fn local_mail_send_round_trips() {
    let mut p = local_post();
    let (mbox, mut rx) = mailbox(&mut p.registry);
    mail_send(&mut p, NetId { node: nid(1), mbox }, b"plan-05 hello".to_vec()).unwrap();
    let msg = recv(&mut rx).expect("channel closed unexpectedly");
    assert_eq!(&msg, b"plan-05 hello");
}

#[test]
fn local_mail_send_to_dropped_receiver_is_silent() {
    let mut p = local_post();
    let (mbox, recv) = mailbox(&mut p.registry);
    evict_for_gc(&mut p.registry, recv.id());
    // Fire-and-forget: no error; the message is dropped and counted.
    mail_send(&mut p, NetId { node: nid(1), mbox }, b"into-void".to_vec()).unwrap();
    assert_eq!(p.drops.local_missing, 1);
}

#[test]
fn two_node_mail_round_trips_via_frame() {
    // Node A sends; node B receives.
    let node_a = nid(1);
    let node_b = nid(2);
    let mut a = Post::new();
    init(&mut a, node_a);
    let mut b = Post::new();
    init(&mut b, node_b);
    let (mbox_b, mut rx_b) = mailbox(&mut b.registry);

    let dest = NetId { node: node_b, mbox: mbox_b };
    let out = mail_send(&mut a, dest, b"crossnode plan-05".to_vec()).unwrap().unwrap();
    assert_eq!(out.to, node_b);

    // Node B takes it in.
    assert!(inbound(&MboxHandler::new(), &mut b, node_a, &out.frame).is_none());
    let msg = recv(&mut rx_b).expect("channel closed");
    assert_eq!(&msg, b"crossnode plan-05");

    match decode_mbox_frame(&out.frame).unwrap() {
        MboxInbound::MailSend(m) => {
            assert_eq!(m.from.node, node_a);
            assert_eq!(m.to, dest);
            assert_eq!(m.payload, b"crossnode plan-05");
        }
        other => panic!("expected MailSend, got {other:?}"),
    }
}

#[test]
fn mail_comes_out_in_order_and_of_its_own_mailbox_only() {
    let mut p = local_post();
    let (a, mut ra) = mailbox(&mut p.registry);
    let (_b, mut rb) = mailbox(&mut p.registry);
    mail_send(&mut p, NetId { node: nid(1), mbox: a }, b"one".to_vec()).unwrap();
    mail_send(&mut p, NetId { node: nid(1), mbox: a }, b"two".to_vec()).unwrap();
    assert!(rb.try_recv().is_none());
    assert_eq!(ra.try_recv().as_deref(), Some(&b"one"[..]));
    assert_eq!(ra.try_recv().as_deref(), Some(&b"two"[..]));
    assert!(ra.try_recv().is_none());
    assert_eq!(p.registry.live_count(), 2);
}

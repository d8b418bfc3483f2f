//! The service directory: local changes, gossip between nodes, and what a
//! task's exit takes with it.
use classic::ident::{Frame, MboxId, NetId, NodeId};
use classic::mbox::directory::{
    apply_local_declare, apply_local_forget, apply_remote_ad, apply_remote_forget,
    bump_local_clock, gc_expired_tombstones, service_lookup, service_lookup_one, snapshot,
    test_clear, Directory, SnapshotEntry, MAX_SVC_NAME, TOMBSTONE_TTL,
};
use classic::mbox::error::ServiceError;
use classic::mbox::frames::{
    decode_mbox_frame, encode_service_ad, encode_service_forget, encode_service_sync,
    encode_service_sync_response, MboxInbound, ServiceAd, ServiceForget, ServiceSyncEntry,
    ServiceSyncResponse,
};
use classic::mbox::gc::{on_task_exit, on_task_start, owned_count, record_owned_mbox, Tracker};
use classic::mbox::gossip::{
    build_sync_response, clear_current_task, on_inbound_ad, on_inbound_forget,
    on_inbound_sync_response, service_declare, service_forget, set_current_task, ServiceGossip,
};
use classic::mbox::gossip_emit::{clear_sink, emit, set_sink, Sink};
use classic::mbox::handler::MboxHandler;
use classic::mbox::mailbox::{lookup, Mailbox, Registry, MBOX_CAPACITY};
use classic::mbox::send::Post;
use classic::time::Duration;

fn nid(n: u8) -> NodeId {
    NodeId::from_bytes([n; 16])
}

fn netid(node: u8, mbox: u64) -> NetId {
    NetId { node: nid(node), mbox: MboxId(mbox) }
}

fn now() -> Duration {
    Duration::from_secs(100)
}

#[test]
fn declare_inserts_live_entry() {
    let mut d = Directory::new();
    let (l, ok) = apply_local_declare(&mut d, 1, "registry", netid(1, 5), now()).unwrap();
    assert!(ok);
    assert_eq!(l, 1);
    assert_eq!(service_lookup(&d, "registry"), vec![netid(1, 5)]);
}

#[test]
fn name_too_long_rejected() {
    let mut d = Directory::new();
    let long = "x".repeat(MAX_SVC_NAME + 1);
    let err = apply_local_declare(&mut d, 1, &long, netid(1, 1), now()).unwrap_err();
    assert!(matches!(err, ServiceError::NameTooLong(_)));
}

#[test]
fn the_limit_on_names_is_in_bytes() {
    let mut d = Directory::new();
    let fits = "x".repeat(MAX_SVC_NAME);
    assert!(apply_local_declare(&mut d, 1, &fits, netid(1, 1), now()).is_ok());
    let long = "\u{e9}".repeat(129);
    assert_eq!(
        apply_local_declare(&mut d, 1, &long, netid(1, 1), now()),
        Err(ServiceError::NameTooLong(258))
    );
}

#[test]
fn forget_tombstones_existing_entry() {
    let mut d = Directory::new();
    apply_local_declare(&mut d, 1, "svc", netid(1, 1), now()).unwrap();
    assert_eq!(service_lookup(&d, "svc"), vec![netid(1, 1)]);
    let (_, ok) = apply_local_forget(&mut d, 1, "svc", netid(1, 1), now()).unwrap();
    assert!(ok);
    assert!(service_lookup(&d, "svc").is_empty());
}

#[test]
fn forgetting_what_is_not_live_changes_nothing() {
    let mut d = Directory::new();
    apply_local_declare(&mut d, 1, "svc", netid(1, 1), now()).unwrap();
    let before = snapshot(&d);
    let (_, ok) = apply_local_forget(&mut d, 1, "svc", netid(1, 2), now()).unwrap();
    assert!(!ok);
    assert_eq!(snapshot(&d), before);
    apply_local_forget(&mut d, 1, "svc", netid(1, 1), now()).unwrap();
    let before = snapshot(&d);
    let (_, ok) = apply_local_forget(&mut d, 1, "svc", netid(1, 1), now()).unwrap();
    assert!(!ok);
    assert_eq!(snapshot(&d), before);
}

#[test]
fn remote_ad_with_older_lamport_dropped() {
    let mut d = Directory::new();
    assert!(apply_remote_ad(&mut d, "svc", netid(1, 1), 10, now()));
    assert!(!apply_remote_ad(&mut d, "svc", netid(1, 1), 5, now()));
    // Same lamport: also dropped.
    assert!(!apply_remote_ad(&mut d, "svc", netid(1, 1), 10, now()));
    // Greater lamport: accepted.
    assert!(apply_remote_ad(&mut d, "svc", netid(1, 1), 11, now()));
}

#[test]
fn distinct_net_ids_coexist_under_same_name() {
    let mut d = Directory::new();
    apply_local_declare(&mut d, 1, "svc", netid(1, 1), now()).unwrap();
    apply_local_declare(&mut d, 2, "svc", netid(2, 1), now()).unwrap();
    let mut live = service_lookup(&d, "svc");
    live.sort_by(|a, b| a.node.0.cmp(&b.node.0));
    assert_eq!(live, vec![netid(1, 1), netid(2, 1)]);
}

#[test]
fn tie_breaking_is_deterministic_by_net_id() {
    let mut d = Directory::new();
    // The same lamport but different mailboxes: they coexist, in the order of
    // the mailboxes.
    apply_remote_ad(&mut d, "svc", netid(5, 1), 7, now());
    apply_remote_ad(&mut d, "svc", netid(1, 1), 7, now());
    apply_remote_ad(&mut d, "svc", netid(3, 1), 7, now());
    let live = service_lookup(&d, "svc");
    assert_eq!(live, vec![netid(1, 1), netid(3, 1), netid(5, 1)]);
}

#[test]
fn round_robin_one_picks_each_endpoint_in_turn() {
    let mut d = Directory::new();
    apply_local_declare(&mut d, 1, "svc", netid(1, 1), now()).unwrap();
    apply_local_declare(&mut d, 2, "svc", netid(2, 1), now()).unwrap();
    apply_local_declare(&mut d, 3, "svc", netid(3, 1), now()).unwrap();
    let mut counts = std::collections::HashMap::new();
    for _ in 0..30 {
        let id = service_lookup_one(&mut d, "svc").unwrap();
        *counts.entry(id).or_insert(0) += 1;
    }
    assert_eq!(counts.len(), 3);
    // Each endpoint hit exactly 10 times: the cursor is per name, and these
    // were 30 steps over 3 endpoints.
    for c in counts.values() {
        assert_eq!(*c, 10);
    }
}

#[test]
fn lookup_one_returns_none_when_only_tombstones() {
    let mut d = Directory::new();
    apply_remote_ad(&mut d, "svc", netid(1, 1), 1, now());
    apply_remote_forget(&mut d, "svc", netid(1, 1), 2, now());
    assert!(service_lookup_one(&mut d, "svc").is_none());
}

#[test]
fn tombstone_hides_then_later_ad_revives() {
    let mut d = Directory::new();
    apply_local_declare(&mut d, 1, "svc", netid(1, 1), now()).unwrap();
    apply_local_forget(&mut d, 1, "svc", netid(1, 1), now()).unwrap();
    assert!(service_lookup(&d, "svc").is_empty());
    // A strictly-later ad re-publishes.
    let later = bump_local_clock(&mut d) + 100;
    apply_remote_ad(&mut d, "svc", netid(1, 1), later, now());
    assert_eq!(service_lookup(&d, "svc"), vec![netid(1, 1)]);
}

#[test]
fn observe_remote_advances_local_clock() {
    let mut d = Directory::new();
    apply_remote_ad(&mut d, "svc", netid(1, 1), 1000, now());
    let next = bump_local_clock(&mut d);
    assert!(next > 1000, "next={} should exceed 1000", next);
}

#[test]
fn lookup_returns_empty_for_unknown_name() {
    let mut d = Directory::new();
    assert!(service_lookup(&d, "nope").is_empty());
    assert!(service_lookup_one(&mut d, "nope").is_none());
}

#[test]
fn old_tombstones_are_collected() {
    let mut d = Directory::new();
    let start = now();
    apply_remote_ad(&mut d, "live", netid(1, 1), 1, start);
    apply_remote_forget(&mut d, "gone", netid(1, 2), 2, start);
    let just_before = Duration { nanos: start.nanos + TOMBSTONE_TTL - 1 };
    assert_eq!(gc_expired_tombstones(&mut d, just_before), 0);
    let at = Duration { nanos: start.nanos + TOMBSTONE_TTL + 1 };
    assert_eq!(gc_expired_tombstones(&mut d, at), 1);
    assert_eq!(snapshot(&d).len(), 1);
    assert_eq!(service_lookup(&d, "live"), vec![netid(1, 1)]);
}

#[test]
fn a_cleared_directory_knows_nothing() {
    let mut d = Directory::new();
    apply_local_declare(&mut d, 1, "svc", netid(1, 1), now()).unwrap();
    test_clear(&mut d);
    assert!(snapshot(&d).is_empty());
    assert_eq!(bump_local_clock(&mut d), 1);
}

#[test]
fn three_nodes_converge_on_shared_directory() {
    let mut d = Directory::new();
    // Node 1 declares "registry" at its mailbox.
    apply_remote_ad(&mut d, "registry", netid(1, 5), 10, now());
    // Node 2 declares "registry" at its own.
    apply_remote_ad(&mut d, "registry", netid(2, 5), 11, now());
    // Node 3 declares "scheduler".
    apply_remote_ad(&mut d, "scheduler", netid(3, 7), 12, now());

    let mut reg = service_lookup(&d, "registry");
    reg.sort_by(|a, b| a.node.0.cmp(&b.node.0));
    assert_eq!(reg, vec![netid(1, 5), netid(2, 5)]);

    assert_eq!(service_lookup(&d, "scheduler"), vec![netid(3, 7)]);

    // Round-robin returns each endpoint in turn for the name with two.
    let a = service_lookup_one(&mut d, "registry").unwrap();
    let b = service_lookup_one(&mut d, "registry").unwrap();
    assert_ne!(a, b);
}

#[test]
fn last_writer_wins_on_same_net_id() {
    let mut d = Directory::new();
    apply_remote_ad(&mut d, "svc", netid(1, 1), 5, now());
    // Older lamport drops.
    apply_remote_ad(&mut d, "svc", netid(1, 1), 3, now());
    // Newer lamport replaces.
    apply_remote_ad(&mut d, "svc", netid(1, 1), 9, now());
    // Forget at lamport 10 wins over the live state.
    apply_remote_forget(&mut d, "svc", netid(1, 1), 10, now());

    assert!(service_lookup(&d, "svc").is_empty());

    // A later-arriving ad with a strictly-greater lamport revives it.
    apply_remote_ad(&mut d, "svc", netid(1, 1), 11, now());
    assert_eq!(service_lookup(&d, "svc"), vec![netid(1, 1)]);
}

/// A snapshot in a fixed order.
fn sorted(mut rows: Vec<SnapshotEntry>) -> Vec<SnapshotEntry> {
    rows.sort_by_key(|r| (r.name.clone(), r.net_id));
    rows
}

#[test]
fn news_settle_in_any_order() {
    let news = [
        ("svc", netid(1, 1), 5u64, false),
        ("svc", netid(1, 1), 7, true),
        ("svc", netid(2, 1), 6, false),
        ("other", netid(1, 1), 3, false),
    ];
    let mut settled = Vec::new();
    for start in 0..news.len() {
        let mut d = Directory::new();
        for k in 0..news.len() {
            let (name, id, lamport, gone) = news[(start + k) % news.len()];
            if gone {
                apply_remote_forget(&mut d, name, id, lamport, now());
            } else {
                apply_remote_ad(&mut d, name, id, lamport, now());
            }
        }
        settled.push(sorted(snapshot(&d)));
    }
    for s in &settled {
        assert_eq!(s, &settled[0]);
    }
}

#[test]
fn two_directories_agree_after_a_sync_both_ways() {
    let mut a = ServiceGossip::new();
    let mut b = ServiceGossip::new();
    apply_remote_ad(&mut a.dir, "x", netid(1, 1), 4, now());
    apply_remote_forget(&mut a.dir, "y", netid(1, 2), 9, now());
    apply_remote_ad(&mut b.dir, "y", netid(1, 2), 8, now());
    apply_remote_ad(&mut b.dir, "z", netid(2, 3), 1, now());
    let from_a = build_sync_response(&a);
    on_inbound_sync_response(&mut b, &from_a, now());
    let from_b = build_sync_response(&b);
    on_inbound_sync_response(&mut a, &from_b, now());
    assert_eq!(sorted(snapshot(&a.dir)), sorted(snapshot(&b.dir)));
    assert!(service_lookup(&b.dir, "y").is_empty());
}

#[test]
fn service_declare_requires_task_context() {
    let mut g = ServiceGossip::new();
    let err = service_declare(&mut g, Some(nid(1)), "svc", now()).unwrap_err();
    assert!(matches!(err, ServiceError::NameTooLong(_)));
}

#[test]
fn service_declare_records_entry_and_bumps_out_counter() {
    let mut g = ServiceGossip::new();
    set_current_task(&mut g, 7, MboxId(42));
    let before = g.out;
    let h = service_declare(&mut g, Some(nid(1)), "registry", now()).unwrap();
    let after = g.out;
    assert!(after > before);
    assert_eq!(h.name(), "registry");
    assert_eq!(h.net_id(), netid(1, 42));
    let live = service_lookup(&g.dir, "registry");
    assert_eq!(live, vec![NetId { node: nid(1), mbox: MboxId(42) }]);
}

#[test]
fn service_handle_drop_forgets() {
    let mut g = ServiceGossip::new();
    set_current_task(&mut g, 7, MboxId(42));
    let h = service_declare(&mut g, Some(nid(1)), "registry", now()).unwrap();
    assert_eq!(service_lookup(&g.dir, "registry").len(), 1);
    h.on_drop(&mut g, now());
    assert!(service_lookup(&g.dir, "registry").is_empty());
}

#[test]
fn forgetting_by_name_twice_is_told_once() {
    let mut g = ServiceGossip::new();
    set_current_task(&mut g, 7, MboxId(42));
    let _h = service_declare(&mut g, Some(nid(1)), "registry", now()).unwrap();
    service_forget(&mut g, Some(nid(1)), "registry", now());
    assert!(service_lookup(&g.dir, "registry").is_empty());
    let out = g.out;
    service_forget(&mut g, Some(nid(1)), "registry", now());
    assert_eq!(g.out, out);
}

#[test]
fn inbound_ad_updates_directory_and_bumps_in_counter() {
    let mut g = ServiceGossip::new();
    let before = g.in_applied;
    on_inbound_ad(
        &mut g,
        &ServiceAd { name: "remote-svc".into(), net_id: netid(2, 11), lamport: 5 },
        now(),
    );
    let after = g.in_applied;
    assert!(after > before);
    assert_eq!(service_lookup(&g.dir, "remote-svc"), vec![netid(2, 11)]);
}

#[test]
fn inbound_forget_tombstones_existing_entry() {
    let mut g = ServiceGossip::new();
    on_inbound_ad(
        &mut g,
        &ServiceAd { name: "remote-svc".into(), net_id: netid(2, 11), lamport: 5 },
        now(),
    );
    on_inbound_forget(
        &mut g,
        &ServiceForget { name: "remote-svc".into(), net_id: netid(2, 11), lamport: 6 },
        now(),
    );
    assert!(service_lookup(&g.dir, "remote-svc").is_empty());
}

#[test]
fn sync_response_applies_every_entry() {
    let mut g = ServiceGossip::new();
    let resp = ServiceSyncResponse {
        entries: vec![
            ServiceSyncEntry {
                name: "a".into(),
                net_id: netid(2, 1),
                lamport: 10,
                tombstone: false,
            },
            ServiceSyncEntry {
                name: "b".into(),
                net_id: netid(2, 2),
                lamport: 20,
                tombstone: false,
            },
            ServiceSyncEntry {
                name: "c".into(),
                net_id: netid(2, 3),
                lamport: 30,
                tombstone: true,
            },
        ],
    };
    on_inbound_sync_response(&mut g, &resp, now());
    assert_eq!(service_lookup(&g.dir, "a"), vec![netid(2, 1)]);
    assert_eq!(service_lookup(&g.dir, "b"), vec![netid(2, 2)]);
    // c was a tombstone: no live entry.
    assert!(service_lookup(&g.dir, "c").is_empty());
}

#[test]
fn build_sync_response_includes_live_and_tombstone_entries() {
    let mut g = ServiceGossip::new();
    set_current_task(&mut g, 7, MboxId(42));
    let _h = service_declare(&mut g, Some(nid(1)), "svc-live", now()).unwrap();
    on_inbound_ad(
        &mut g,
        &ServiceAd { name: "svc-remote".into(), net_id: netid(2, 11), lamport: 5 },
        now(),
    );
    on_inbound_forget(
        &mut g,
        &ServiceForget { name: "svc-gone".into(), net_id: netid(2, 12), lamport: 6 },
        now(),
    );
    let resp = build_sync_response(&g);
    let names: Vec<String> = resp.entries.iter().map(|e| e.name.clone()).collect();
    assert!(names.iter().any(|n| n == "svc-live"));
    assert!(names.iter().any(|n| n == "svc-remote"));
    assert!(resp.entries.iter().any(|e| e.name == "svc-gone" && e.tombstone));
}

#[test]
fn what_is_declared_is_told_to_the_others() {
    let mut g = ServiceGossip::new();
    set_sink(&mut g.sink);
    set_current_task(&mut g, 7, MboxId(42));
    let h = service_declare(&mut g, Some(nid(1)), "svc", now()).unwrap();
    h.forget(&mut g, now());
    let frames = g.sink.take_frames();
    assert_eq!(frames.len(), 2);
    assert!(matches!(decode_mbox_frame(&frames[0]), Ok(MboxInbound::ServiceAd(_))));
    let mut other = ServiceGossip::new();
    match decode_mbox_frame(&frames[0]) {
        Ok(MboxInbound::ServiceAd(ad)) => on_inbound_ad(&mut other, &ad, now()),
        other => panic!("got {other:?}"),
    }
    assert_eq!(service_lookup(&other.dir, "svc"), vec![netid(1, 42)]);
    match decode_mbox_frame(&frames[1]) {
        Ok(MboxInbound::ServiceForget(f)) => on_inbound_forget(&mut other, &f, now()),
        other => panic!("got {other:?}"),
    }
    assert!(service_lookup(&other.dir, "svc").is_empty());
}

#[test]
fn without_a_sink_frames_are_counted_and_dropped() {
    let mut s = Sink::new();
    let frame = || -> Frame {
        encode_service_ad(&ServiceAd { name: "a".into(), net_id: netid(1, 1), lamport: 1 })
            .unwrap()
    };
    emit(&mut s, frame());
    assert_eq!(s.unsunk, 1);
    assert!(s.take_frames().is_empty());
    set_sink(&mut s);
    emit(&mut s, frame());
    assert_eq!(s.take_frames().len(), 1);
    clear_sink(&mut s);
    emit(&mut s, frame());
    assert_eq!(s.unsunk, 2);
}

#[test]
fn on_task_exit_forgets_declared_services_and_evicts_mboxes() {
    let mut g = ServiceGossip::new();
    let mut t = Tracker::new();
    let mut registry = Registry::new();
    set_current_task(&mut g, 7, MboxId(42));
    on_task_start(&mut t, 7);

    // Two mailboxes that the task owns.
    let (m1, _r1) = Mailbox::new(&mut registry, &mut t, g.current);
    let (m2, _r2) = Mailbox::new(&mut registry, &mut t, g.current);
    assert_eq!(record_owned_mbox(&mut t, 7, m1), 2);
    assert_eq!(record_owned_mbox(&mut t, 7, m2), 2);
    assert_eq!(owned_count(&t, 7), 2);

    // Declare two services.
    let h1 = service_declare(&mut g, Some(nid(1)), "alpha", now()).unwrap();
    let h2 = service_declare(&mut g, Some(nid(1)), "beta", now()).unwrap();
    assert_eq!(service_lookup(&g.dir, "alpha").len(), 1);
    assert_eq!(service_lookup(&g.dir, "beta").len(), 1);

    on_task_exit(&mut g, &mut t, &mut registry, 7, now());

    assert!(service_lookup(&g.dir, "alpha").is_empty());
    assert!(service_lookup(&g.dir, "beta").is_empty());
    assert_eq!(owned_count(&t, 7), 0);

    // Handles held past the exit: forgetting again is harmless.
    h1.on_drop(&mut g, now());
    h2.on_drop(&mut g, now());
    assert!(service_lookup(&g.dir, "alpha").is_empty());
}

#[test]
fn on_task_exit_idempotent() {
    let mut g = ServiceGossip::new();
    let mut t = Tracker::new();
    let mut registry = Registry::new();
    on_task_start(&mut t, 11);
    on_task_exit(&mut g, &mut t, &mut registry, 11, now());
    on_task_exit(&mut g, &mut t, &mut registry, 11, now());
    on_task_exit(&mut g, &mut t, &mut registry, 11, now());
    assert_eq!(owned_count(&t, 11), 0);
}

#[test]
fn service_handle_drop_then_task_exit_is_safe() {
    let mut g = ServiceGossip::new();
    let mut t = Tracker::new();
    let mut registry = Registry::new();
    set_current_task(&mut g, 12, MboxId(1));
    on_task_start(&mut t, 12);
    let h = service_declare(&mut g, Some(nid(1)), "svc-once", now()).unwrap();
    h.on_drop(&mut g, now());
    assert!(service_lookup(&g.dir, "svc-once").is_empty());
    on_task_exit(&mut g, &mut t, &mut registry, 12, now());
    assert!(service_lookup(&g.dir, "svc-once").is_empty());
}

#[test]
fn mbox_evicted_after_task_exit() {
    let mut g = ServiceGossip::new();
    let mut t = Tracker::new();
    let mut registry = Registry::new();
    on_task_start(&mut t, 20);
    let (id, _r) = Mailbox::new(&mut registry, &mut t, g.current);
    record_owned_mbox(&mut t, 20, id);
    assert!(lookup(&registry, id).is_some());
    on_task_exit(&mut g, &mut t, &mut registry, 20, now());
    // The receiver is still held: the exit is the authoritative teardown.
    assert!(lookup(&registry, id).is_none());
}

#[test]
fn an_exit_spares_the_other_tasks() {
    let mut g = ServiceGossip::new();
    let mut t = Tracker::new();
    let mut registry = Registry::new();
    set_current_task(&mut g, 1, MboxId(10));
    let _a = service_declare(&mut g, Some(nid(1)), "one", now()).unwrap();
    set_current_task(&mut g, 2, MboxId(20));
    let _b = service_declare(&mut g, Some(nid(1)), "two", now()).unwrap();
    clear_current_task(&mut g);
    let (id, _r) = Mailbox::new(&mut registry, &mut t, g.current);
    record_owned_mbox(&mut t, 2, id);
    on_task_exit(&mut g, &mut t, &mut registry, 1, now());
    assert!(service_lookup(&g.dir, "one").is_empty());
    assert_eq!(service_lookup(&g.dir, "two"), vec![netid(1, 20)]);
    assert!(lookup(&registry, id).is_some());
}

#[test]
fn mbox_capacity_constant_is_exposed() {
    // Just so changing the constant fails this test loudly.
    assert_eq!(MBOX_CAPACITY, 1024);
}

#[test]
fn a_mailbox_made_under_a_task_goes_with_it() {
    let mut g = ServiceGossip::new();
    let mut t = Tracker::new();
    let mut registry = Registry::new();
    let (free, _f) = Mailbox::new(&mut registry, &mut t, g.current);
    set_current_task(&mut g, 7, MboxId(42));
    on_task_start(&mut t, 7);
    let (id, _r) = Mailbox::new(&mut registry, &mut t, g.current);
    assert_eq!(owned_count(&t, 7), 1);
    on_task_exit(&mut g, &mut t, &mut registry, 7, now());
    assert!(lookup(&registry, id).is_none());
    // Made without a task: nobody takes it away.
    assert!(lookup(&registry, free).is_some());
}

#[test]
fn recording_an_owner_tells_how_many_are_owned() {
    let mut t = Tracker::new();
    assert_eq!(record_owned_mbox(&mut t, 7, MboxId(1)), 1);
    assert_eq!(record_owned_mbox(&mut t, 7, MboxId(2)), 2);
    assert_eq!(record_owned_mbox(&mut t, 7, MboxId(1)), 2);
    assert_eq!(record_owned_mbox(&mut t, 8, MboxId(1)), 1);
    assert_eq!(owned_count(&t, 7), 2);
}

/// The forgets among the frames: name, mailbox and stamp.
fn forgets(frames: &[Frame]) -> Vec<(String, NetId, u64)> {
    frames
        .iter()
        .filter_map(|f| match decode_mbox_frame(f) {
            Ok(MboxInbound::ServiceForget(f)) => Some((f.name, f.net_id, f.lamport)),
            _ => None,
        })
        .collect()
}

#[test]
fn dropping_a_handle_tells_everyone_as_forgetting_does() {
    let mut dropped = ServiceGossip::new();
    let mut forgotten = ServiceGossip::new();
    for g in [&mut dropped, &mut forgotten] {
        set_sink(&mut g.sink);
        set_current_task(g, 7, MboxId(42));
    }
    let h = service_declare(&mut dropped, Some(nid(1)), "svc", now()).unwrap();
    h.on_drop(&mut dropped, now());
    let _h = service_declare(&mut forgotten, Some(nid(1)), "svc", now()).unwrap();
    service_forget(&mut forgotten, Some(nid(1)), "svc", now());
    let frames = dropped.sink.take_frames();
    assert_eq!(forgets(&frames), vec![("svc".to_string(), netid(1, 42), 2)]);
    assert_eq!(frames, forgotten.sink.take_frames());
    assert!(service_lookup(&dropped.dir, "svc").is_empty());
    assert!(dropped.declared.is_empty());
    // Nothing is left to forget.
    service_forget(&mut dropped, Some(nid(1)), "svc", now());
    assert!(dropped.sink.take_frames().is_empty());
}

#[test]
fn a_forget_frame_carries_the_stamp_of_the_tombstone() {
    let mut g = ServiceGossip::new();
    set_sink(&mut g.sink);
    set_current_task(&mut g, 7, MboxId(42));
    let h = service_declare(&mut g, Some(nid(1)), "svc", now()).unwrap();
    h.forget(&mut g, now());
    // One stamp for the declaration, two for the explicit forget.
    assert_eq!(g.dir.clock, 3);
    assert_eq!(forgets(&g.sink.take_frames()), vec![("svc".to_string(), netid(1, 42), 3)]);
    let rows = snapshot(&g.dir);
    assert_eq!(rows.len(), 1);
    assert!(rows[0].tombstone);
    assert_eq!(rows[0].lamport, 3);
    // The declaration is still listed, so it can be forgotten by name.
    assert_eq!(g.declared.len(), 1);
    service_forget(&mut g, Some(nid(1)), "svc", now());
    assert!(g.declared.is_empty());
    assert_eq!(forgets(&g.sink.take_frames()), vec![("svc".to_string(), netid(1, 42), 4)]);
    assert_eq!(snapshot(&g.dir)[0].lamport, 4);
}

#[test]
fn a_declaration_is_taken_back_though_another_node_hid_it() {
    let mut g = ServiceGossip::new();
    set_sink(&mut g.sink);
    set_current_task(&mut g, 7, MboxId(42));
    let _h = service_declare(&mut g, Some(nid(1)), "svc", now()).unwrap();
    let f = ServiceForget { name: "svc".into(), net_id: netid(1, 42), lamport: 9 };
    on_inbound_forget(&mut g, &f, now());
    assert!(service_lookup(&g.dir, "svc").is_empty());
    g.sink.take_frames();
    service_forget(&mut g, Some(nid(1)), "svc", now());
    assert_eq!(forgets(&g.sink.take_frames()), vec![("svc".to_string(), netid(1, 42), 11)]);
    assert_eq!(snapshot(&g.dir)[0].lamport, 11);
}

#[test]
fn a_handle_dropped_after_the_exit_is_not_told_of_again() {
    let mut g = ServiceGossip::new();
    let mut t = Tracker::new();
    let mut registry = Registry::new();
    set_sink(&mut g.sink);
    set_current_task(&mut g, 7, MboxId(42));
    let a = service_declare(&mut g, Some(nid(1)), "a", now()).unwrap();
    let b = service_declare(&mut g, Some(nid(1)), "b", now()).unwrap();
    a.on_drop(&mut g, now());
    g.sink.take_frames();
    on_task_exit(&mut g, &mut t, &mut registry, 7, now());
    assert_eq!(forgets(&g.sink.take_frames()), vec![("b".to_string(), netid(1, 42), 4)]);
    let rows = snapshot(&g.dir);
    b.on_drop(&mut g, now());
    assert!(g.sink.take_frames().is_empty());
    assert_eq!(snapshot(&g.dir), rows);
}

#[test]
fn an_exit_is_told_once_for_each_declaration() {
    let mut g = ServiceGossip::new();
    let mut t = Tracker::new();
    let mut registry = Registry::new();
    set_sink(&mut g.sink);
    set_current_task(&mut g, 7, MboxId(42));
    let _a = service_declare(&mut g, Some(nid(1)), "a", now()).unwrap();
    let _b = service_declare(&mut g, Some(nid(1)), "b", now()).unwrap();
    g.sink.take_frames();
    // The same service once more: that is a declaration too.
    let _c = service_declare(&mut g, Some(nid(1)), "a", now()).unwrap();
    g.sink.take_frames();
    on_task_exit(&mut g, &mut t, &mut registry, 7, now());
    assert_eq!(
        forgets(&g.sink.take_frames()),
        vec![
            ("a".to_string(), netid(1, 42), 4),
            ("b".to_string(), netid(1, 42), 5),
            ("a".to_string(), netid(1, 42), 6),
        ]
    );
    on_task_exit(&mut g, &mut t, &mut registry, 7, now());
    assert!(g.sink.take_frames().is_empty());
}

#[test]
fn service_frames_reach_the_directory() {
    let h = MboxHandler::new();
    let mut post = Post::new();
    let mut g = ServiceGossip::new();
    let n = netid(2, 11);
    let ad = encode_service_ad(&ServiceAd { name: "remote-svc".into(), net_id: n, lamport: 5 });
    assert!(h.on_frame(&mut post, &mut g, nid(2), &ad.unwrap(), now()).is_none());
    assert_eq!(service_lookup(&g.dir, "remote-svc"), vec![n]);

    // A peer that asks is told everything.
    let sync = encode_service_sync().unwrap();
    let out = h.on_frame(&mut post, &mut g, nid(3), &sync, now()).unwrap();
    assert_eq!(out.to, nid(3));
    assert_eq!(out.frame, encode_service_sync_response(&build_sync_response(&g)).unwrap());
    let mut other = ServiceGossip::new();
    assert!(h.on_frame(&mut post, &mut other, nid(2), &out.frame, now()).is_none());
    assert_eq!(service_lookup(&other.dir, "remote-svc"), vec![n]);

    let gone = ServiceForget { name: "remote-svc".into(), net_id: n, lamport: 6 };
    let gone = encode_service_forget(&gone).unwrap();
    assert!(h.on_frame(&mut post, &mut g, nid(2), &gone, now()).is_none());
    assert!(service_lookup(&g.dir, "remote-svc").is_empty());
    assert_eq!(g.in_applied, 2);
}

#[test]
fn lookups_of_other_names_do_not_disturb_the_turns() {
    let mut d = Directory::new();
    for n in 1..=3 {
        apply_remote_ad(&mut d, "svc", netid(n, 1), 1, now());
        apply_remote_ad(&mut d, "other", netid(n, 2), 1, now());
    }
    let mut picks = Vec::new();
    for i in 0..6 {
        for _ in 0..i {
            service_lookup_one(&mut d, "other");
        }
        picks.push(service_lookup_one(&mut d, "svc").unwrap().node);
    }
    assert_eq!(picks, vec![nid(1), nid(2), nid(3), nid(1), nid(2), nid(3)]);
}

#[test]
fn the_turns_go_on_at_the_end_of_the_cursor() {
    let mut d = Directory::new();
    for n in 1..=3 {
        apply_remote_ad(&mut d, "svc", netid(n, 1), 1, now());
    }
    service_lookup_one(&mut d, "svc");
    d.cursors[0].next = usize::MAX - 1;
    let picks: Vec<NodeId> =
        (0..6).map(|_| service_lookup_one(&mut d, "svc").unwrap().node).collect();
    assert_eq!(picks, vec![nid(3), nid(1), nid(2), nid(3), nid(1), nid(2)]);
}

#[test]
fn a_stamp_is_later_than_all_that_was_seen() {
    let mut d = Directory::new();
    apply_remote_ad(&mut d, "svc", netid(1, 1), 1000, now());
    let (l1, _) = apply_local_declare(&mut d, 1, "own", netid(9, 1), now()).unwrap();
    // Not accepted, but seen.
    assert!(!apply_remote_forget(&mut d, "svc", netid(1, 1), 900, now()));
    service_lookup_one(&mut d, "svc");
    let l2 = bump_local_clock(&mut d);
    assert!(l1 > 1000);
    assert!(l2 > l1);
}

//! Ads: their frames, the store and the gossip round it.
use classic::ad::frames::{
    decode_ad_frame, encode_ad_gossip, encode_ad_request, encode_node_ad, AdFrameError, AdInbound,
    AD_RANGE, FRAME_AD_GOSSIP, FRAME_AD_REQUEST, FRAME_NODE_AD,
};
use classic::ad::gossip::{ad_request_frame, Gossip, Outgoing};
use classic::ad::schema::{
    AdGossip, AdRequest, AdUpdate, CpuInfo, GpuInfo, LoadSample, MemInfo, NodeAd, NumaNode,
    PciDevice,
};
use classic::ad::store::{AdStore, UpsertOutcome};
use classic::ident::{Frame, NodeId};
use classic::packed::{pack, unpack, CodecError};
use classic::time::Duration;
use rand::{Rng, SeedableRng};

fn id(n: u8) -> NodeId {
    NodeId::from_bytes([n; 16])
}

fn booted(node: NodeId, gen: u64, boot: u64) -> NodeAd {
    NodeAd {
        node_id: node,
        hostname: "h".into(),
        proto_version: 1,
        generation: gen,
        boot_time: boot,
        cpu: CpuInfo {
            cores_online: 1,
            cores_physical: 1,
            sockets: 1,
            model: "m".into(),
            vendor: "v".into(),
            arch: "x86_64".into(),
            mhz: 1,
        },
        mem: MemInfo { total_mb: 1, available_mb: 1 },
        gpus: vec![],
        pci: vec![],
        numa: vec![],
        load: LoadSample {
            loadavg_1m: 0,
            loadavg_5m: 0,
            loadavg_15m: 0,
            cpu_pct: 0,
            mem_pct: 0,
            task_count: 0,
        },
    }
}

fn ad(node: NodeId, gen: u64) -> NodeAd {
    booted(node, gen, 0)
}

fn tiny_ad() -> NodeAd {
    booted(id(1), 1, 1)
}

fn ms(n: u64) -> Duration {
    Duration::from_millis(n)
}

#[test]
fn frame_kind_constants_match_spec() {
    assert_eq!(FRAME_NODE_AD, 0x0100);
    assert_eq!(FRAME_AD_GOSSIP, 0x0101);
    assert_eq!(FRAME_AD_REQUEST, 0x0102);
}

#[test]
fn ad_range_holds_every_ad_kind() {
    for k in [FRAME_NODE_AD, FRAME_AD_GOSSIP, FRAME_AD_REQUEST] {
        assert!(AD_RANGE.0 <= k && k <= AD_RANGE.1);
    }
}

#[test]
fn node_ad_roundtrip_via_frame() {
    let ad = tiny_ad();
    let frame = encode_node_ad(&ad).unwrap();
    assert_eq!(frame.kind, FRAME_NODE_AD);
    match decode_ad_frame(&frame).unwrap() {
        AdInbound::Ad(back) => assert_eq!(back, ad),
        other => panic!("expected AdInbound::Ad, got {other:?}"),
    }
}

#[test]
fn ad_gossip_full_decodes_as_ad_inbound_ad() {
    let ad = tiny_ad();
    let frame = encode_ad_gossip(&AdGossip::Full(ad.clone())).unwrap();
    assert_eq!(frame.kind, FRAME_AD_GOSSIP);
    match decode_ad_frame(&frame).unwrap() {
        AdInbound::Ad(back) => assert_eq!(back, ad),
        other => panic!("expected AdInbound::Ad, got {other:?}"),
    }
}

#[test]
fn ad_gossip_delta_decodes_as_delta() {
    let g = AdGossip::Delta { node_id: id(7), generation: 42 };
    let frame = encode_ad_gossip(&g).unwrap();
    let inbound = decode_ad_frame(&frame).unwrap();
    assert_eq!(inbound, AdInbound::Delta { node_id: id(7), generation: 42 });
}

#[test]
fn ad_request_roundtrip_via_frame() {
    let r = AdRequest { from: id(9) };
    let frame = encode_ad_request(&r).unwrap();
    assert_eq!(frame.kind, FRAME_AD_REQUEST);
    match decode_ad_frame(&frame).unwrap() {
        AdInbound::Request(back) => assert_eq!(back, r),
        other => panic!("expected AdInbound::Request, got {other:?}"),
    }
}

#[test]
fn unknown_kind_in_ad_range_rejected() {
    let f = Frame::new(0x0142, vec![]);
    let err = decode_ad_frame(&f).unwrap_err();
    match err {
        AdFrameError::UnknownFrameKind { kind } => assert_eq!(kind, 0x0142),
        other => panic!("expected UnknownFrameKind, got {other:?}"),
    }
}

#[test]
fn frames_out_of_range_kind_rejected() {
    let f = Frame::new(0x0042, vec![]);
    let err = decode_ad_frame(&f).unwrap_err();
    match err {
        AdFrameError::OutOfRange { kind } => assert_eq!(kind, 0x0042),
        other => panic!("expected OutOfRange, got {other:?}"),
    }
}

#[test]
fn a_frame_cut_short_or_too_long_is_refused() {
    let mut frame = encode_ad_request(&AdRequest { from: id(9) }).unwrap();
    frame.payload.pop();
    assert_eq!(decode_ad_frame(&frame), Err(AdFrameError::Codec(CodecError::Malformed)));
    frame.payload.extend([9, 0, 0]);
    assert_eq!(decode_ad_frame(&frame), Err(AdFrameError::Codec(CodecError::Trailing(2))));
}

#[test]
fn a_gossip_frame_of_no_known_variant_is_refused() {
    let frame = Frame::new(FRAME_AD_GOSSIP, vec![2, 0, 0, 0]);
    assert_eq!(decode_ad_frame(&frame), Err(AdFrameError::Codec(CodecError::Malformed)));
}

fn gossip(gen: u64, grace: Duration) -> Gossip {
    Gossip::new(AdStore::new(ad(id(0), gen)), grace)
}

#[test]
fn rx_inserts_ad_via_node_ad_frame() {
    let mut g = gossip(1, Duration::from_secs(90));
    let frame = encode_node_ad(&ad(id(1), 5)).unwrap();
    g.on_frame(id(1), &frame);
    assert_eq!(g.store.peer(id(1)).unwrap().generation, 5);
}

#[test]
fn rx_inserts_ad_via_ad_gossip_full() {
    let mut g = gossip(1, Duration::from_secs(90));
    let frame = encode_ad_gossip(&AdGossip::Full(ad(id(1), 7))).unwrap();
    g.on_frame(id(1), &frame);
    assert_eq!(g.store.peer(id(1)).unwrap().generation, 7);
}

#[test]
fn lww_three_ads_keeps_highest_generation() {
    let mut g = gossip(1, Duration::from_secs(90));
    for gen in [1u64, 3, 2] {
        let frame = encode_node_ad(&ad(id(1), gen)).unwrap();
        g.on_frame(id(1), &frame);
    }
    assert_eq!(g.store.peer(id(1)).unwrap().generation, 3);
}

#[test]
fn ad_request_handler_unicasts_self_ad() {
    let mut g = gossip(42, Duration::from_secs(90));
    let sent: Vec<Outgoing> = g.on_frame(id(7), &ad_request_frame(id(7))).into_iter().collect();
    assert_eq!(sent.len(), 1);
    let out = sent.into_iter().next().unwrap();
    assert_eq!(out.to, id(7));
    match decode_ad_frame(&out.frame).unwrap() {
        AdInbound::Ad(reply) => assert_eq!(reply.generation, 42),
        other => panic!("expected Ad, got {other:?}"),
    }
}

#[test]
fn broadcast_sends_to_every_live_peer() {
    let g = gossip(1, Duration::from_secs(90));
    let sent = g.broadcast_self(&vec![id(1), id(2), id(3)]);
    assert_eq!(sent.len(), 3);
    let recipients: std::collections::HashSet<NodeId> = sent.into_iter().map(|o| o.to).collect();
    assert!(recipients.contains(&id(1)));
    assert!(recipients.contains(&id(2)));
    assert!(recipients.contains(&id(3)));
}

#[test]
fn a_broadcast_is_understood_by_the_peer() {
    let g = gossip(6, Duration::from_secs(90));
    let mut other = Gossip::new(AdStore::new(ad(id(1), 1)), Duration::from_secs(90));
    for o in g.broadcast_self(&vec![id(1)]) {
        assert_eq!(other.on_frame(id(0), &o.frame), None);
    }
    assert_eq!(other.store.peer(id(0)).unwrap(), ad(id(0), 6));
}

#[test]
fn on_peer_up_unicasts_self_ad() {
    let g = gossip(1, Duration::from_secs(90));
    let sent = vec![g.on_peer_up(id(5))];
    assert_eq!(sent.len(), 1);
    assert_eq!(sent[0].to, id(5));
}

#[test]
fn on_peer_down_schedules_eviction() {
    let mut g = gossip(1, ms(80));
    // A peer ad, so that eviction has something to remove.
    g.store.upsert(ad(id(1), 1));
    assert!(g.store.peer(id(1)).is_some());
    g.on_peer_down(id(1), ms(0));
    // Past the grace.
    g.store.expire(id(1), ms(200));
    assert!(g.store.peer(id(1)).is_none());
}

#[test]
fn fresh_ad_during_grace_cancels_eviction() {
    let mut g = gossip(1, ms(200));
    g.store.upsert(ad(id(1), 1));
    g.on_peer_down(id(1), ms(0));
    // Fresh ad before the grace is over.
    let frame = encode_node_ad(&ad(id(1), 2)).unwrap();
    g.on_frame(id(1), &frame);
    g.store.expire(id(1), ms(340));
    assert!(g.store.peer(id(1)).is_some());
}

#[test]
fn a_frame_that_cannot_be_read_changes_nothing() {
    let mut g = gossip(1, ms(200));
    assert_eq!(g.on_frame(id(1), &Frame::new(0x0102, vec![])), None);
    assert_eq!(g.store.peer_count(), 0);
}

#[test]
fn lww_higher_generation_wins() {
    let mut store = AdStore::new(booted(id(0), 1, 0));
    assert_eq!(store.upsert(booted(id(1), 5, 100)), UpsertOutcome::Inserted);
    assert_eq!(store.upsert(booted(id(1), 3, 100)), UpsertOutcome::Stale);
    assert_eq!(store.upsert(booted(id(1), 2, 100)), UpsertOutcome::Stale);
    assert_eq!(store.peer(id(1)).unwrap().generation, 5);
}

#[test]
fn the_own_ad_is_news_only_in_a_new_generation() {
    let mut store = AdStore::new(booted(id(0), 1, 0));
    store.update_self(booted(id(0), 1, 5));
    assert_eq!(store.self_ad(), booted(id(0), 1, 5));
    assert!(store.take_events().is_empty());
    store.update_self(booted(id(0), 2, 5));
    assert_eq!(store.take_events(), vec![AdUpdate::Updated(booted(id(0), 2, 5))]);
}

#[test]
fn lww_breaks_tie_on_boot_time() {
    let mut store = AdStore::new(booted(id(0), 1, 0));
    assert_eq!(store.upsert(booted(id(1), 5, 100)), UpsertOutcome::Inserted);
    // Same generation, newer boot_time: accepted (restart case).
    assert_eq!(store.upsert(booted(id(1), 5, 101)), UpsertOutcome::Updated);
    // Same generation + boot_time: quietly refreshes, no event.
    assert_eq!(store.upsert(booted(id(1), 5, 101)), UpsertOutcome::Unchanged);
    assert_eq!(store.peer(id(1)).unwrap().boot_time, 101);
}

#[test]
fn upsert_into_self_slot_ignored() {
    let me = id(0);
    let mut store = AdStore::new(booted(me, 1, 0));
    assert_eq!(store.upsert(booted(me, 99, 99)), UpsertOutcome::IgnoredSelf);
    assert_eq!(store.self_ad().generation, 1);
}

#[test]
fn watch_emits_inserted_then_updated_but_not_unchanged() {
    let mut store = AdStore::new(booted(id(0), 1, 0));
    store.upsert(booted(id(1), 1, 0));
    store.upsert(booted(id(1), 1, 0)); // unchanged
    store.upsert(booted(id(1), 2, 0)); // updated
    store.upsert(booted(id(1), 1, 0)); // stale, no event
    let events = store.take_events();
    assert_eq!(events.len(), 2);
    assert!(matches!(events[0], AdUpdate::Inserted(_)));
    match &events[1] {
        AdUpdate::Updated(a) => assert_eq!(a.generation, 2),
        other => panic!("expected Updated(gen=2), got {other:?}"),
    }
    assert!(store.take_events().is_empty());
}

#[test]
fn mark_stale_evicts_after_ttl() {
    let mut store = AdStore::new(booted(id(0), 1, 0));
    store.upsert(booted(id(1), 1, 0));
    store.take_events();

    store.mark_stale(id(1), ms(50), ms(0));
    assert!(store.peer(id(1)).is_some());
    store.expire(id(1), ms(49));
    assert!(store.peer(id(1)).is_some());

    store.expire(id(1), ms(50));
    assert_eq!(store.take_events(), vec![AdUpdate::Removed(id(1))]);
    assert!(store.peer(id(1)).is_none());
}

#[test]
fn fresh_ad_cancels_eviction_timer() {
    let mut store = AdStore::new(booted(id(0), 1, 0));
    store.upsert(booted(id(1), 1, 0));
    store.mark_stale(id(1), ms(200), ms(0));
    // Fresh ad arrives well before the deadline.
    store.upsert(booted(id(1), 2, 0));
    // Past the first deadline the peer must still be present.
    store.expire(id(1), ms(320));
    assert!(store.peer(id(1)).is_some());
}

#[test]
fn all_ads_returns_self_first_then_peers_sorted() {
    let mut store = AdStore::new(booted(id(5), 1, 0));
    store.upsert(booted(id(9), 1, 0));
    store.upsert(booted(id(1), 1, 0));
    store.upsert(booted(id(7), 1, 0));
    let all = store.all_ads();
    assert_eq!(all[0].node_id, id(5)); // self first
    assert_eq!(all[1].node_id, id(1));
    assert_eq!(all[2].node_id, id(7));
    assert_eq!(all[3].node_id, id(9));
}

#[test]
fn two_ads_of_one_peer_settle_in_either_order() {
    let (a, b) = (booted(id(1), 5, 7), booted(id(1), 5, 8));
    let mut x = AdStore::new(ad(id(0), 1));
    x.upsert(a.clone());
    x.upsert(b.clone());
    let mut y = AdStore::new(ad(id(0), 1));
    y.upsert(b);
    y.upsert(a);
    assert_eq!(x.all_ads(), y.all_ads());
}

#[test]
fn evicting_twice_says_so_once() {
    let mut store = AdStore::new(ad(id(0), 1));
    store.upsert(ad(id(1), 1));
    store.take_events();
    store.evict(id(1));
    store.evict(id(1));
    assert_eq!(store.take_events(), vec![AdUpdate::Removed(id(1))]);
}

#[test]
fn the_own_ad_never_goes_stale() {
    let mut store = AdStore::new(ad(id(0), 1));
    store.mark_stale(id(0), ms(1), ms(0));
    store.expire(id(0), ms(10));
    assert_eq!(store.all_ads(), vec![ad(id(0), 1)]);
}

fn roundtrip(ad: &NodeAd) -> NodeAd {
    unpack::<NodeAd>(&pack(ad)).unwrap()
}

fn example_ad() -> NodeAd {
    NodeAd {
        node_id: NodeId::from_bytes([0xAB; 16]),
        hostname: "node-a".to_string(),
        proto_version: 1,
        generation: 7,
        boot_time: 1_700_000_000,
        cpu: CpuInfo {
            cores_online: 64,
            cores_physical: 32,
            sockets: 2,
            model: "AMD EPYC 7763".into(),
            vendor: "AuthenticAMD".into(),
            arch: "x86_64".into(),
            mhz: 2450,
        },
        mem: MemInfo { total_mb: 524_288, available_mb: 512_000 },
        gpus: vec![GpuInfo {
            index: 0,
            uuid: "GPU-deadbeef-cafe-1234-5678-90abcdef0000".into(),
            name: "NVIDIA H100".into(),
            pci_vendor: 0x10DE,
            pci_device: 0x2330,
            pci_addr: "0000:01:00.0".into(),
            vram_total_mb: 81920,
            vram_free_mb: 81000,
            compute_capability: (9, 0),
            nvlink_peers: vec!["0000:02:00.0".into(), "0000:03:00.0".into()],
            utilization_pct: 0,
        }],
        pci: vec![PciDevice {
            addr: "0000:01:00.0".into(),
            vendor: 0x10DE,
            device: 0x2330,
            class: 0x030200,
            numa_node: 0,
            iommu_group: Some(42),
        }],
        numa: vec![NumaNode { id: 0, cpus: (0..32).collect(), mem_total_mb: 262144 }],
        load: LoadSample {
            loadavg_1m: 1500,
            loadavg_5m: 2000,
            loadavg_15m: 1750,
            cpu_pct: 35,
            mem_pct: 12,
            task_count: 17,
        },
    }
}

#[test]
fn canonical_example_roundtrips_byte_equal() {
    let ad = example_ad();
    let bytes_a = pack(&ad);
    let back = unpack::<NodeAd>(&bytes_a).unwrap();
    let bytes_b = pack(&back);
    assert_eq!(bytes_a, bytes_b, "re-encoding the decoded ad must be byte-equal");
    assert_eq!(back, ad);
}

/// The layout is bincode's legacy one: the same fields, put into tuples, come
/// out of bincode as the same bytes.
#[test]
fn ad_layout_is_the_one_of_bincode() {
    let a = example_ad();
    let cpu = (
        a.cpu.cores_online,
        a.cpu.cores_physical,
        a.cpu.sockets,
        a.cpu.model.clone(),
        a.cpu.vendor.clone(),
        a.cpu.arch.clone(),
        a.cpu.mhz,
    );
    let g = &a.gpus[0];
    let gpus = vec![(
        g.index,
        g.uuid.clone(),
        g.name.clone(),
        g.pci_vendor,
        g.pci_device,
        g.pci_addr.clone(),
        g.vram_total_mb,
        g.vram_free_mb,
        g.compute_capability,
        g.nvlink_peers.clone(),
        g.utilization_pct,
    )];
    let p = &a.pci[0];
    let pci = vec![(p.addr.clone(), p.vendor, p.device, p.class, p.numa_node, p.iommu_group)];
    let n = &a.numa[0];
    let numa = vec![(n.id, n.cpus.clone(), n.mem_total_mb)];
    let l = &a.load;
    let load =
        (l.loadavg_1m, l.loadavg_5m, l.loadavg_15m, l.cpu_pct, l.mem_pct, l.task_count);
    let whole = (
        [0xABu8; 16],
        a.hostname.clone(),
        a.proto_version,
        a.generation,
        a.boot_time,
        cpu,
        (a.mem.total_mb, a.mem.available_mb),
        gpus,
        pci,
        numa,
        load,
    );
    let bytes = bincode::serde::encode_to_vec(&whole, bincode::config::legacy()).unwrap();
    assert_eq!(pack(&a), bytes);
    // The variants of an enum are numbered from zero, in four bytes.
    let full = encode_ad_gossip(&AdGossip::Full(a)).unwrap();
    assert_eq!(full.payload, [vec![0, 0, 0, 0], bytes].concat());
    let delta = encode_ad_gossip(&AdGossip::Delta { node_id: id(3), generation: 258 }).unwrap();
    let tail = bincode::serde::encode_to_vec(&(1u32, [3u8; 16], 258u64), bincode::config::legacy());
    assert_eq!(delta.payload, tail.unwrap());
}

#[test]
fn random_filled_ad_roundtrips() {
    let mut rng = rand::rngs::StdRng::seed_from_u64(0xC0FFEE);
    for _ in 0..32 {
        let ad = NodeAd {
            node_id: {
                let mut bytes = [0u8; 16];
                rng.fill(&mut bytes);
                NodeId::from_bytes(bytes)
            },
            hostname: format!("host-{}", rng.gen::<u32>()),
            proto_version: rng.gen(),
            generation: rng.gen(),
            boot_time: rng.gen(),
            cpu: CpuInfo {
                cores_online: rng.gen_range(1..=256),
                cores_physical: rng.gen_range(1..=128),
                sockets: rng.gen_range(1..=8),
                model: random_string(&mut rng, 20),
                vendor: random_string(&mut rng, 12),
                arch: "x86_64".into(),
                mhz: rng.gen_range(800..=5000),
            },
            mem: MemInfo {
                total_mb: rng.gen_range(1024..=2 * 1024 * 1024),
                available_mb: rng.gen_range(512..=1024 * 1024),
            },
            gpus: (0..rng.gen_range(0..=8))
                .map(|i| GpuInfo {
                    index: i,
                    uuid: random_string(&mut rng, 40),
                    name: random_string(&mut rng, 16),
                    pci_vendor: rng.gen(),
                    pci_device: rng.gen(),
                    pci_addr: format!("0000:{:02x}:00.0", i),
                    vram_total_mb: rng.gen_range(8 * 1024..=80 * 1024),
                    vram_free_mb: rng.gen_range(0..=8 * 1024),
                    compute_capability: (rng.gen_range(5..=10), rng.gen_range(0..=9)),
                    nvlink_peers: vec![],
                    utilization_pct: rng.gen_range(0..=100),
                })
                .collect(),
            pci: (0..rng.gen_range(0..=64))
                .map(|i| PciDevice {
                    addr: format!("0000:{:02x}:00.0", i),
                    vendor: rng.gen(),
                    device: rng.gen(),
                    class: rng.gen(),
                    numa_node: rng.gen_range(-1..=4),
                    iommu_group: if rng.gen_bool(0.5) { Some(rng.gen()) } else { None },
                })
                .collect(),
            numa: (0..rng.gen_range(1..=4))
                .map(|i| NumaNode {
                    id: i,
                    cpus: (0..16).collect(),
                    mem_total_mb: rng.gen_range(8 * 1024..=512 * 1024),
                })
                .collect(),
            load: LoadSample {
                loadavg_1m: rng.gen_range(0..=8000),
                loadavg_5m: rng.gen_range(0..=8000),
                loadavg_15m: rng.gen_range(0..=8000),
                cpu_pct: rng.gen_range(0..=100),
                mem_pct: rng.gen_range(0..=100),
                task_count: rng.gen_range(0..=4096),
            },
        };
        let back = roundtrip(&ad);
        assert_eq!(back, ad);
    }
}

fn random_string(rng: &mut impl rand::Rng, len: usize) -> String {
    (0..len).map(|_| (b'a' + rng.gen_range(0..=25)) as char).collect()
}

#[test]
fn ad_gossip_full_and_delta_roundtrip() {
    let full = AdGossip::Full(example_ad());
    let back = unpack::<AdGossip>(&pack(&full)).unwrap();
    assert_eq!(back, full);

    let delta = AdGossip::Delta { node_id: NodeId::from_bytes([0x42; 16]), generation: 17 };
    let back = unpack::<AdGossip>(&pack(&delta)).unwrap();
    assert_eq!(back, delta);
}

#[test]
fn ad_request_roundtrip() {
    let req = AdRequest { from: NodeId::from_bytes([0xCD; 16]) };
    let back = unpack::<AdRequest>(&pack(&req)).unwrap();
    assert_eq!(back, req);
}

/// Bound check for a fully-loaded ad: 16 KiB is well under the frame cap and is
/// plenty for a single-frame ad on a maxed-out box.
#[test]
fn max_realistic_ad_size_is_bounded() {
    // 16 GPUs + 256 PCI devices, plus generous strings.
    let ad = NodeAd {
        node_id: id(0),
        hostname: "x".repeat(64),
        proto_version: 1,
        generation: u64::MAX,
        boot_time: u64::MAX,
        cpu: CpuInfo {
            cores_online: 256,
            cores_physical: 128,
            sockets: 8,
            model: "x".repeat(64),
            vendor: "x".repeat(16),
            arch: "x86_64".into(),
            mhz: 5000,
        },
        mem: MemInfo { total_mb: u64::MAX, available_mb: u64::MAX },
        gpus: (0..16)
            .map(|i| GpuInfo {
                index: i,
                uuid: "x".repeat(40),
                name: "x".repeat(48),
                pci_vendor: 0x10DE,
                pci_device: 0x2330,
                pci_addr: "0000:00:00.0".into(),
                vram_total_mb: 80_000,
                vram_free_mb: 80_000,
                compute_capability: (9, 0),
                nvlink_peers: vec![],
                utilization_pct: 100,
            })
            .collect(),
        pci: (0..256)
            .map(|i| PciDevice {
                addr: format!("0000:{:02x}:00.0", i % 256),
                vendor: 0x10DE,
                device: 0x2330,
                class: 0x030200,
                numa_node: 0,
                iommu_group: Some(i),
            })
            .collect(),
        numa: (0..4)
            .map(|i| NumaNode { id: i, cpus: (0..32).collect(), mem_total_mb: 256_000 })
            .collect(),
        load: LoadSample {
            loadavg_1m: 8000,
            loadavg_5m: 8000,
            loadavg_15m: 8000,
            cpu_pct: 100,
            mem_pct: 100,
            task_count: 4096,
        },
    };
    let bytes = pack(&ad);
    assert!(
        bytes.len() <= 16 * 1024,
        "encoded NodeAd was {} bytes, expected <= 16 KiB",
        bytes.len()
    );
}

//! The node's hardware and the cluster's services as files.
use classic::ad::schema::{CpuInfo, GpuInfo, LoadSample, MemInfo, NodeAd};
use classic::ad::store::AdStore;
use classic::cap::broker::{CapBroker, DeviceKind};
use classic::fs::errno::{EISDIR, ENOENT, ENOTDIR};
use classic::fs::path;
use classic::fs::services::group;
use classic::fs::synthetic::{NodeView, Service, SyntheticTree};
use classic::fs::tree::{read_window, Tree, ROOT_NODE};
use classic::ident::{MboxId, NetId, NodeId};
use classic::mbox::directory::{
    apply_local_declare, apply_local_forget, apply_remote_ad, snapshot, Directory,
};
use classic::time::Duration;

fn nid(byte: u8) -> NodeId {
    let mut b = [0u8; 16];
    b[0] = byte;
    NodeId::from_bytes(b)
}

fn ad_with_gpu(count: usize) -> AdStore {
    let mut gpu = Vec::new();
    for i in 0..count {
        gpu.push(GpuInfo {
            index: i as u32,
            uuid: format!("GPU-{i}"),
            name: "NVIDIA H100".into(),
            pci_vendor: 0x10de,
            pci_device: 0x2330,
            pci_addr: format!("0000:{:02x}:00.0", i + 1),
            vram_total_mb: 81920,
            vram_free_mb: 80000,
            compute_capability: (9, 0),
            nvlink_peers: vec![],
            utilization_pct: 0,
        });
    }
    AdStore::new(NodeAd {
        node_id: nid(1),
        hostname: "host-1".into(),
        proto_version: 1,
        generation: 1,
        boot_time: 0,
        cpu: CpuInfo {
            cores_online: 32,
            cores_physical: 16,
            sockets: 1,
            model: "Test".into(),
            vendor: "TestVendor".into(),
            arch: "x86_64".into(),
            mhz: 3000,
        },
        mem: MemInfo { total_mb: 65536, available_mb: 60000 },
        gpus: gpu,
        pci: vec![],
        numa: vec![],
        load: LoadSample {
            loadavg_1m: 0,
            loadavg_5m: 0,
            loadavg_15m: 0,
            cpu_pct: 0,
            mem_pct: 0,
            task_count: 0,
        },
    })
}

fn view_with_gpus(count: usize) -> NodeView {
    NodeView::new(nid(1), ad_with_gpu(count), CapBroker::new())
}

fn names(t: &SyntheticTree, node: u64) -> Vec<String> {
    t.readdir(node, 0).unwrap().iter().map(|e| e.name.clone()).collect()
}

#[test]
fn root_has_three_entries() {
    let t = SyntheticTree::new(view_with_gpus(0));
    assert_eq!(names(&t, ROOT_NODE), vec!["dev", "node", "svc"]); // lex-sorted
}

#[test]
fn node_file_renders_node_id_hex_with_newline() {
    let t = SyntheticTree::new(view_with_gpus(0));
    let bytes = t.read(path::NODE_FILE, 0, 100).unwrap();
    let s = std::str::from_utf8(&bytes).unwrap();
    assert!(s.starts_with("01"), "got {s:?}");
    assert!(s.ends_with('\n'));
    assert_eq!(s.len(), 33);
}

#[test]
fn dev_gpu_dir_lists_numeric_indices() {
    let t = SyntheticTree::new(view_with_gpus(3));
    assert_eq!(names(&t, path::DEV_GPU_DIR), vec!["0", "1", "2"]);
}

#[test]
fn gpu_indices_are_listed_as_texts() {
    let t = SyntheticTree::new(view_with_gpus(11));
    assert_eq!(
        names(&t, path::DEV_GPU_DIR),
        vec!["0", "1", "10", "2", "3", "4", "5", "6", "7", "8", "9"]
    );
}

#[test]
fn dev_gpu_field_files_render_correctly() {
    let t = SyntheticTree::new(view_with_gpus(1));
    // Walk into /dev/gpu/0
    let dev = t.walk_one(ROOT_NODE, "dev").unwrap();
    let gpu = t.walk_one(dev, "gpu").unwrap();
    let g0 = t.walk_one(gpu, "0").unwrap();
    let vendor = t.walk_one(g0, "vendor").unwrap();
    let vram = t.walk_one(g0, "vram_total_mb").unwrap();
    let in_use = t.walk_one(g0, "in_use").unwrap();

    assert_eq!(t.read(vendor, 0, 100).unwrap(), b"0x10de\n");
    assert_eq!(t.read(vram, 0, 100).unwrap(), b"81920\n");
    // No caps held: in_use is "0\n".
    assert_eq!(t.read(in_use, 0, 100).unwrap(), b"0\n");
}

fn in_use_of(t: &SyntheticTree, gpu: &str) -> String {
    let dev = t.walk_one(ROOT_NODE, "dev").unwrap();
    let dir = t.walk_one(dev, "gpu").unwrap();
    let g = t.walk_one(dir, gpu).unwrap();
    let in_use = t.walk_one(g, "in_use").unwrap();
    String::from_utf8(t.read(in_use, 0, 100).unwrap()).unwrap()
}

#[test]
fn in_use_reflects_cap_broker_state() {
    let mut caps = CapBroker::new();
    caps.acquire(MboxId(42), &[DeviceKind::GpuMinor(0)], true).unwrap();
    let t = SyntheticTree::new(NodeView::new(nid(1), ad_with_gpu(1), caps));
    let s = in_use_of(&t, "0");
    assert!(s.starts_with("1 mbox=42"), "got {s:?}");
}

#[test]
fn svc_symlink_target_encodes_net_ids() {
    let mut view = view_with_gpus(0);
    view.services.push(Service {
        name: "registry".into(),
        net_ids: vec![NetId { node: nid(5), mbox: MboxId(7) }],
    });
    let t = SyntheticTree::new(view);
    let svc = t.walk_one(ROOT_NODE, "svc").unwrap();
    let link = t.walk_one(svc, "registry").unwrap();
    let target = t.readlink(link).unwrap();
    assert!(target.contains("node="));
    assert!(target.contains("mbox=7"));
}

#[test]
fn lookup_unknown_path_returns_none() {
    let t = SyntheticTree::new(view_with_gpus(0));
    assert!(t.walk_one(ROOT_NODE, "bogus").is_none());
    let dev = t.walk_one(ROOT_NODE, "dev").unwrap();
    assert!(t.walk_one(dev, "bogus").is_none());
}

#[test]
fn stat_modes_match_plan() {
    let mut view = view_with_gpus(1);
    view.services.push(Service {
        name: "alpha".into(),
        net_ids: vec![NetId { node: nid(2), mbox: MboxId(1) }],
    });
    let t = SyntheticTree::new(view);
    // /node is a file
    assert_eq!(t.stat(path::NODE_FILE).unwrap().mode, 0o100444);
    // /dev is a directory
    assert_eq!(t.stat(path::DEV_DIR).unwrap().mode, 0o040555);
    // /svc/alpha is a symlink
    let svc = t.walk_one(ROOT_NODE, "svc").unwrap();
    let alpha = t.walk_one(svc, "alpha").unwrap();
    assert_eq!(t.stat(alpha).unwrap().mode, 0o120777);
}

#[test]
fn what_is_listed_can_be_walked_to() {
    let t = SyntheticTree::new(view_with_gpus(2));
    let g1 = t.walk_one(path::DEV_GPU_DIR, "1").unwrap();
    for dir in [ROOT_NODE, path::DEV_DIR, path::DEV_GPU_DIR, g1] {
        assert!(t.is_dir(dir));
        for e in t.readdir(dir, 0).unwrap() {
            let n = t.walk_one(dir, &e.name).unwrap();
            assert_eq!(t.qid(n), Some(e.qid));
        }
    }
}

#[test]
fn a_listing_resumes_after_the_cookie() {
    let t = SyntheticTree::new(view_with_gpus(12));
    for dir in [ROOT_NODE, path::DEV_DIR, path::DEV_GPU_DIR] {
        let all = t.readdir(dir, 0).unwrap();
        for (k, e) in all.iter().enumerate() {
            assert_eq!(e.offset, k as u64 + 1);
            assert_eq!(t.readdir(dir, e.offset).unwrap(), all[k + 1..].to_vec());
        }
        assert!(t.readdir(dir, 1000).unwrap().is_empty());
        assert!(t.readdir(dir, u64::MAX).unwrap().is_empty());
    }
    // Past the start of a file there is nothing, rather than an error.
    assert_eq!(t.readdir(path::NODE_FILE, 0), Err(ENOTDIR));
    assert_eq!(t.readdir(path::NODE_FILE, 1), Ok(vec![]));
}

#[test]
fn a_listing_ascends_by_name() {
    let t = SyntheticTree::new(view_with_gpus(12));
    let got = names(&t, path::DEV_GPU_DIR);
    assert_eq!(got[..4], ["0", "1", "10", "11"]);
    assert_eq!(got[4], "2");
    assert!(got.windows(2).all(|w| w[0] < w[1]));
}

#[test]
fn nothing_lies_under_a_file() {
    let t = SyntheticTree::new(view_with_gpus(1));
    let gpu = t.walk_one(path::DEV_GPU_DIR, "0").unwrap();
    let vendor = t.walk_one(gpu, "vendor").unwrap();
    assert_eq!(vendor, path::GPU_BASE);
    assert!(!t.is_dir(vendor));
    for name in ["vendor", "device", "vram_total_mb", "vram_free_mb", "in_use", "node", "gpu", "0"] {
        assert_eq!(t.walk_one(vendor, name), None);
        assert_eq!(t.walk_one(path::NODE_FILE, name), None);
    }
}

#[test]
fn directories_are_not_read_and_files_not_listed() {
    let t = SyntheticTree::new(view_with_gpus(0));
    assert_eq!(t.read(ROOT_NODE, 0, 10), Err(EISDIR));
    assert_eq!(t.readdir(path::NODE_FILE, 0), Err(ENOTDIR));
    // No GPU has a field under this number.
    assert_eq!(t.read(path::GPU_BASE, 0, 10), Err(ENOENT));
}

fn net(n: u8, m: u64) -> NetId {
    NetId { node: nid(n), mbox: MboxId(m) }
}

#[test]
fn live_services_are_grouped_by_name() {
    let mut dir = Directory::new();
    let now = Duration::from_secs(1);
    apply_local_declare(&mut dir, 1, "web", net(1, 10), now).unwrap();
    apply_local_declare(&mut dir, 1, "db", net(1, 11), now).unwrap();
    apply_remote_ad(&mut dir, "web", net(2, 20), 9, now);
    apply_local_declare(&mut dir, 1, "gone", net(1, 12), now).unwrap();
    apply_local_forget(&mut dir, 1, "gone", net(1, 12), now).unwrap();
    let services = group(&snapshot(&dir));
    assert_eq!(
        services,
        vec![
            Service { name: "db".into(), net_ids: vec![net(1, 11)] },
            Service { name: "web".into(), net_ids: vec![net(1, 10), net(2, 20)] },
        ]
    );
    let t = SyntheticTree::new(view_with_gpus(0).with_services(&snapshot(&dir)));
    assert_eq!(names(&t, path::SVC_DIR), vec!["db", "web"]);
}

#[test]
fn reading_on_gives_what_one_read_gives() {
    let content = b"0123456789".to_vec();
    let mut got = read_window(&content, 2, 3);
    got.extend(read_window(&content, 5, 4));
    assert_eq!(got, read_window(&content, 2, 7));
    assert_eq!(got, b"2345678".to_vec());
    assert_eq!(read_window(&content, 8, 100), b"89".to_vec());
    assert!(read_window(&content, 10, 1).is_empty());
    assert!(read_window(&content, u64::MAX, u32::MAX).is_empty());
}

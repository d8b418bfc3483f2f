//! Probing a node: configuration, `/proc` and `/sys` texts, and the refresh of
//! the own ad.
use classic::ad::config::{AdConfig, AdConfigError};
use classic::ad::discovery::cpu;
use classic::ad::discovery::gpu::{enumerate_one, refresh_dynamic, GpuDynamic, GpuReading, MB};
use classic::ad::discovery::load::{
    delta_pct, is_steady, parse_loadavg, parse_stat, stat_fits, LoadProbe, LoadReading,
};
use classic::ad::discovery::mem;
use classic::ad::discovery::numa::{node_ids, parse_cpulist, topology, NumaReading};
use classic::ad::discovery::pci::{devices, probe_order, PciReading};
use classic::ad::refresh::{Discovery, DynamicProbes, Identity, Probes, StaticProbes};
use classic::ad::schema::{GpuInfo, MemInfo, NumaNode, PciDevice};
use classic::ident::NodeId;
use classic::time::Duration;

#[test]
fn default_passes_validation() {
    AdConfig::default().validate().unwrap();
}

#[test]
fn fast_tick_below_minimum_rejected() {
    let mut cfg = AdConfig::default();
    cfg.fast_tick = Duration::from_millis(100);
    let err = cfg.validate().unwrap_err();
    assert!(matches!(err, AdConfigError::FastTickTooLow(_, _)));
}

#[test]
fn slow_tick_below_minimum_rejected() {
    let mut cfg = AdConfig::default();
    cfg.slow_tick = Duration::from_secs(1);
    let err = cfg.validate().unwrap_err();
    assert!(matches!(err, AdConfigError::SlowTickTooLow(_, _)));
}

#[test]
fn config_errors_name_the_tick_and_the_minimum() {
    let mut cfg = AdConfig::default();
    cfg.fast_tick = Duration::from_millis(249);
    cfg.slow_tick = Duration::from_millis(4999);
    assert_eq!(
        cfg.validate(),
        Err(AdConfigError::FastTickTooLow(Duration::from_millis(249), Duration::from_millis(250)))
    );
    cfg.fast_tick = Duration::from_millis(250);
    assert_eq!(
        cfg.validate(),
        Err(AdConfigError::SlowTickTooLow(Duration::from_millis(4999), Duration::from_secs(5)))
    );
    cfg.slow_tick = Duration::from_secs(5);
    assert_eq!(cfg.validate(), Ok(()));
}

#[test]
fn a_missing_gossip_period_means_ten_seconds() {
    let mut cfg = AdConfig::default();
    cfg.gossip_period = Duration::from_secs(0);
    assert_eq!(cfg.broadcast_period(), Duration::from_secs(10));
    cfg.gossip_period = Duration::from_secs(3);
    assert_eq!(cfg.broadcast_period(), Duration::from_secs(3));
}

/// Two-socket Xeon-like fixture: 8 logical cores per package, 2 packages.
/// Each package has 4 physical cores with 2 SMT threads each.
fn xeon_fixture() -> String {
    let mut buf = String::new();
    for cpu in 0..16 {
        let phys = (cpu / 8) as u32;
        let core = ((cpu % 8) / 2) as u32;
        buf.push_str(&format!(
            "processor\t: {cpu}\n\
             vendor_id\t: GenuineIntel\n\
             model name\t: Intel(R) Xeon(R) Platinum 8480+\n\
             physical id\t: {phys}\n\
             core id\t: {core}\n\
             cpu MHz\t\t: 2700.000\n\n"
        ));
    }
    buf
}

/// Single-socket Ryzen 9 7950X (16 cores, 32 threads).
fn ryzen_fixture() -> String {
    let mut buf = String::new();
    for cpu in 0..32 {
        let core = (cpu / 2) as u32;
        buf.push_str(&format!(
            "processor\t: {cpu}\n\
             vendor_id\t: AuthenticAMD\n\
             model name\t: AMD Ryzen 9 7950X 16-Core Processor\n\
             physical id\t: 0\n\
             core id\t: {core}\n\
             cpu MHz\t\t: 4500.123\n\n"
        ));
    }
    buf
}

#[test]
fn parses_dual_socket_xeon() {
    let info = cpu::probe(xeon_fixture().as_bytes(), 16, "x86_64").unwrap();
    assert_eq!(info.vendor, "GenuineIntel");
    assert_eq!(info.cores_online, 16);
    assert_eq!(info.cores_physical, 8); // 4 cores per package x 2 sockets
    assert_eq!(info.sockets, 2);
    assert_eq!(info.mhz, 2700);
    assert!(info.model.contains("8480"));
}

#[test]
fn parses_single_socket_ryzen() {
    let info = cpu::probe(ryzen_fixture().as_bytes(), 32, "x86_64").unwrap();
    assert_eq!(info.vendor, "AuthenticAMD");
    assert_eq!(info.cores_online, 32);
    assert_eq!(info.cores_physical, 16);
    assert_eq!(info.sockets, 1);
    assert_eq!(info.mhz, 4500);
}

#[test]
fn missing_phys_core_ids_falls_back_to_online() {
    // QEMU and some VMs omit physical id / core id.
    let raw = "processor\t: 0\nvendor_id\t: GenuineIntel\nmodel name\t: Generic\ncpu MHz\t: 2000.0\n\n";
    let info = cpu::probe(raw.as_bytes(), 4, "x86_64").unwrap();
    assert_eq!(info.cores_physical, 4);
    assert_eq!(info.sockets, 1);
}

#[test]
fn cpu_text_that_is_not_utf8_is_refused() {
    assert!(cpu::probe(&[0x70, 0xff, 0x0a], 4, "x86_64").is_none());
}

#[test]
fn cpu_arch_is_passed_through() {
    let info = cpu::probe(b"", 3, "riscv64").unwrap();
    assert_eq!(info.arch, "riscv64");
    assert_eq!(info.model, "");
    assert_eq!(info.mhz, 0);
}

/// A load average as the loop reports it: times 1000, rounded.
fn scale_thousand(field: Option<String>) -> u32 {
    match field {
        Some(s) => (s.parse::<f64>().unwrap_or(0.0) * 1000.0).round() as u32,
        None => 0,
    }
}

fn loadavg(raw: &str) -> (u32, u32, u32) {
    let (a, b, c) = parse_loadavg(raw);
    (scale_thousand(a), scale_thousand(b), scale_thousand(c))
}

#[test]
fn loadavg_scaled_thousand() {
    let (a, b, c) = loadavg("0.42 0.81 1.10 2/734 1234");
    assert_eq!(a, 420);
    assert_eq!(b, 810);
    assert_eq!(c, 1100);
}

#[test]
fn loadavg_fields_are_the_first_three_words() {
    let (a, b, c) = parse_loadavg(" 1.5\t2\n");
    assert_eq!(a.as_deref(), Some("1.5"));
    assert_eq!(b.as_deref(), Some("2"));
    assert_eq!(c, None);
}

fn reading(loadavg_raw: &str, stat: &str) -> LoadReading {
    assert!(stat_fits(stat));
    LoadReading { loadavg: loadavg(loadavg_raw), times: parse_stat(stat) }
}

#[test]
fn cpu_pct_delta_between_snapshots() {
    let mut probe = LoadProbe::new();
    // First snapshot: 90 idle + 0 iowait, 100 total.
    let s1 = probe.sample(
        reading("0.10 0.20 0.30 1/100 1\n", "cpu  10 0 0 90 0 0 0 0 0 0\n"),
        0,
        0,
    );
    assert_eq!(s1.cpu_pct, 0); // first sample has no baseline
    assert_eq!((s1.loadavg_1m, s1.loadavg_5m, s1.loadavg_15m), (100, 200, 300));

    // Cumulative counters: then (idle=90, total=100), now (idle=160, total=300):
    // total delta 200, idle delta 70, so busy 130 / 200 = 65%.
    let s2 = probe.sample(
        reading("0.10 0.20 0.30 1/100 1\n", "cpu  140 0 0 160 0 0 0 0 0 0\n"),
        0,
        0,
    );
    assert_eq!(s2.cpu_pct, 65);
}

#[test]
fn cpu_pct_clamps_to_100_when_total_zero() {
    let mut probe = LoadProbe::new();
    let s1 = probe.sample(reading("0 0 0 1/1 1\n", "cpu  0 0 0 0 0 0 0 0 0 0\n"), 0, 0);
    let s2 = probe.sample(reading("0 0 0 1/1 1\n", "cpu  0 0 0 0 0 0 0 0 0 0\n"), 0, 0);
    assert_eq!(s1.cpu_pct, 0);
    assert_eq!(s2.cpu_pct, 0);
}

#[test]
fn busy_share_of_the_interval() {
    assert!(is_steady((0, 0), (25, 100)));
    assert_eq!(delta_pct((0, 0), (25, 100)), 75);
    assert_eq!(delta_pct((100, 200), (100, 300)), 100);
    assert_eq!(delta_pct((100, 200), (50, 100)), 0);
    assert!(!is_steady((0, 0), (5, 4)));
}

#[test]
fn stat_counts_idle_and_iowait() {
    assert_eq!(parse_stat("intr 5\ncpu  1 2 3 4 5 6\ncpu0 9 9 9 9 9 9\n"), (9, 21));
    assert_eq!(parse_stat("no such line"), (0, 0));
    assert!(!stat_fits("cpu 18446744073709551615 1"));
}

#[test]
fn parses_modern_meminfo_with_memavailable() {
    let raw = "\
        MemTotal:       16385020 kB\n\
        MemFree:         8000000 kB\n\
        MemAvailable:   12000000 kB\n\
        Buffers:          200000 kB\n\
        Cached:          3000000 kB\n";
    assert!(mem::probe_fits(raw.as_bytes()));
    let info = mem::probe(raw.as_bytes()).unwrap();
    assert_eq!(info.total_mb, 16385020 / 1024);
    assert_eq!(info.available_mb, 12000000 / 1024);
}

#[test]
fn falls_back_when_memavailable_absent() {
    let raw = "\
        MemTotal:       16385020 kB\n\
        MemFree:         8000000 kB\n\
        Buffers:          200000 kB\n\
        Cached:          3000000 kB\n";
    assert!(mem::probe_fits(raw.as_bytes()));
    let info = mem::probe(raw.as_bytes()).unwrap();
    assert_eq!(info.available_mb, (8000000 + 200000 + 3000000) / 1024);
}

#[test]
fn used_share_of_memory() {
    assert_eq!(mem::mem_pct(&MemInfo { total_mb: 1000, available_mb: 250 }), 75);
    assert_eq!(mem::mem_pct(&MemInfo { total_mb: 0, available_mb: 0 }), 0);
    assert_eq!(mem::mem_pct(&MemInfo { total_mb: 10, available_mb: 20 }), 0);
    assert_eq!(mem::mem_pct(&MemInfo { total_mb: u64::MAX, available_mb: 0 }), 100);
}

#[test]
fn cpulist_parsing_flattens_ranges() {
    assert_eq!(parse_cpulist("0-3"), vec![0, 1, 2, 3]);
    assert_eq!(parse_cpulist("0-3,7,9-10"), vec![0, 1, 2, 3, 7, 9, 10]);
    assert_eq!(parse_cpulist(""), Vec::<u32>::new());
    assert_eq!(parse_cpulist("0,2,4"), vec![0, 2, 4]);
}

#[test]
fn cpulist_skips_what_it_cannot_read() {
    assert_eq!(parse_cpulist("5, x,7-6,3-4,4"), vec![3, 4, 5]);
}

fn node(id: u32, cpulist: &str, meminfo: &str) -> NumaReading {
    NumaReading {
        id,
        cpulist: Some(cpulist.as_bytes().to_vec()),
        meminfo: Some(meminfo.as_bytes().to_vec()),
    }
}

#[test]
fn enumerates_two_node_topology() {
    let entries: Vec<String> =
        ["node1", "cpulist", "node0", "nodex"].iter().map(|s| s.to_string()).collect();
    assert_eq!(node_ids(&entries), vec![0, 1]);
    let nodes = topology(&vec![
        node(0, "0-7,16-23\n", "Node 0 MemTotal:       131072000 kB\n"),
        node(1, "8-15,24-31\n", "Node 1 MemTotal:       131072000 kB\n"),
    ]);
    assert_eq!(nodes.len(), 2);
    assert_eq!(nodes[0].id, 0);
    assert_eq!(nodes[0].cpus.len(), 16);
    assert_eq!(nodes[0].cpus.first(), Some(&0));
    assert_eq!(nodes[1].id, 1);
    assert_eq!(nodes[1].cpus.len(), 16);
    assert_eq!(nodes[0].mem_total_mb, 131072000 / 1024);
}

#[test]
fn each_cpu_appears_in_exactly_one_node() {
    // Deliberate overlap: CPU 7 listed in both nodes; first occurrence wins.
    let nodes = topology(&vec![
        node(0, "0-7\n", "Node 0 MemTotal:       1000 kB\n"),
        node(1, "7-15\n", "Node 1 MemTotal:       1000 kB\n"),
    ]);
    let mut seen = std::collections::HashSet::new();
    for n in &nodes {
        for c in &n.cpus {
            assert!(seen.insert(*c), "cpu {} appeared twice", c);
        }
    }
    assert!(nodes[0].cpus.contains(&7));
    assert_eq!(seen.len(), 16);
}

#[test]
fn missing_node_dir_yields_empty_topology() {
    assert!(node_ids(&Vec::new()).is_empty());
    assert!(topology(&Vec::new()).is_empty());
}

fn pci_dev(
    addr: &str,
    vendor: u16,
    device: u16,
    class: u32,
    numa: i32,
    iommu: Option<u32>,
) -> PciReading {
    PciReading {
        addr: addr.to_string(),
        vendor: Some(format!("0x{:04x}\n", vendor).into_bytes()),
        device: Some(format!("0x{:04x}\n", device).into_bytes()),
        class: Some(format!("0x{:06x}\n", class).into_bytes()),
        numa_node: Some(format!("{numa}\n").into_bytes()),
        // The basename of the link's target is the group id.
        iommu_group: iommu.map(|g| g.to_string()),
    }
}

#[test]
fn enumerates_devices_in_lexical_addr_order() {
    let found = vec![
        pci_dev("0000:01:00.0", 0x10DE, 0x2330, 0x030200, 0, Some(42)),
        pci_dev("0000:00:00.0", 0x8086, 0x3E1F, 0x060000, -1, None),
        pci_dev("0000:1b:00.0", 0x10DE, 0x2330, 0x030200, 1, Some(17)),
    ];
    let order = probe_order(found.iter().map(|r| r.addr.clone()).collect());
    let mut readings: Vec<PciReading> = found;
    readings.sort_by_key(|r| order.iter().position(|a| *a == r.addr));
    let devs = devices(&readings);
    assert_eq!(devs.len(), 3);
    assert_eq!(devs[0].addr, "0000:00:00.0");
    assert_eq!(devs[1].addr, "0000:01:00.0");
    assert_eq!(devs[2].addr, "0000:1b:00.0");
}

#[test]
fn parses_full_fields_and_iommu_symlink() {
    let devs = devices(&vec![pci_dev("0000:1b:00.0", 0x10DE, 0x2330, 0x030200, 1, Some(17))]);
    let d = &devs[0];
    assert_eq!(d.addr, "0000:1b:00.0");
    assert_eq!(d.vendor, 0x10DE);
    assert_eq!(d.device, 0x2330);
    assert_eq!(d.class, 0x030200);
    assert_eq!(d.numa_node, 1);
    assert_eq!(d.iommu_group, Some(17));
}

#[test]
fn missing_iommu_group_yields_none() {
    let devs = devices(&vec![pci_dev("0000:00:00.0", 0x8086, 0x3E1F, 0x060000, -1, None)]);
    assert_eq!(devs[0].iommu_group, None);
    assert_eq!(devs[0].numa_node, -1);
}

fn gpu_reading() -> GpuReading {
    GpuReading {
        index: 3,
        uuid: Some("GPU-1".to_string()),
        name: None,
        pci_device_id: 0x2330_10DE,
        bus_id: "0000:1b:00.0".to_string(),
        mem_total: 81_920 * MB,
        mem_free: 100 * MB + 5,
        compute_capability: Some((9, 0)),
        utilization: None,
    }
}

#[test]
fn no_nvml_yields_empty_enumeration_without_panic() {
    let gpus: Vec<GpuInfo> = Vec::new();
    assert!(refresh_dynamic(&gpus, &Vec::new()).is_empty());
}

#[test]
fn gpu_fields_in_megabytes() {
    let g = enumerate_one(gpu_reading());
    assert_eq!(g.index, 3);
    assert_eq!(g.uuid, "GPU-1");
    assert_eq!(g.name, "");
    assert_eq!(g.pci_vendor, 0x2330);
    assert_eq!(g.pci_device, 0x10DE);
    assert_eq!(g.vram_total_mb, 81_920);
    assert_eq!(g.vram_free_mb, 100);
    assert_eq!(g.compute_capability, (9, 0));
    assert_eq!(g.utilization_pct, 0);
    assert!(g.nvlink_peers.is_empty());
}

#[test]
fn gpu_refresh_keeps_what_cannot_be_read() {
    let gpus = vec![enumerate_one(gpu_reading()), enumerate_one(gpu_reading())];
    let fresh = refresh_dynamic(
        &gpus,
        &vec![
            GpuDynamic { memory: Some((7 * MB, 80 * MB)), utilization: Some(55) },
            GpuDynamic { memory: None, utilization: None },
        ],
    );
    assert_eq!(fresh[0].vram_free_mb, 7);
    assert_eq!(fresh[0].vram_total_mb, 80);
    assert_eq!(fresh[0].utilization_pct, 55);
    assert_eq!(fresh[1], gpus[1]);
}

fn id(n: u8) -> NodeId {
    NodeId::from_bytes([n; 16])
}

fn who(n: u8, hostname: &str) -> Identity {
    Identity {
        self_id: id(n),
        hostname: hostname.to_string(),
        proto_version: 1,
        boot_time: 1_700_000_000,
        cores_online: 2,
        arch: "x86_64".to_string(),
    }
}

const CPUINFO: &[u8] = b"processor\t: 0\nvendor_id\t: GenuineIntel\nmodel name\t: Test CPU\nphysical id\t: 0\ncore id\t: 0\ncpu MHz\t: 2400.0\n\n";
const MEMINFO: &[u8] = b"MemTotal:       16385020 kB\nMemAvailable:   12000000 kB\nMemFree: 8000000 kB\nBuffers: 200000 kB\nCached: 3000000 kB\n";

fn fixture_load() -> LoadReading {
    reading("0.10 0.20 0.30 1/100 1\n", "cpu  10 0 0 90 0 0 0 0 0 0\n")
}

fn fixture(task_count: u32) -> Probes {
    Probes {
        cpu: cpu::probe(CPUINFO, 2, "x86_64"),
        mem: mem::probe(MEMINFO),
        pci: Some(Vec::new()),
        numa: Some(Vec::new()),
        gpus: Vec::new(),
        load: Some(fixture_load()),
        task_count,
    }
}

fn static_fixture(pci: Vec<PciDevice>) -> StaticProbes {
    StaticProbes {
        cpu: cpu::probe(CPUINFO, 2, "x86_64"),
        pci: Some(pci),
        numa: Some(Vec::new()),
        gpus: Vec::new(),
    }
}

fn dynamic_fixture(task_count: u32) -> DynamicProbes {
    DynamicProbes {
        mem: mem::probe(MEMINFO),
        load: Some(fixture_load()),
        gpus: Vec::new(),
        task_count,
    }
}

#[test]
fn bootstrap_populates_self_ad_quickly() {
    let start = std::time::Instant::now();
    let disc = Discovery::bootstrap(who(1, "host-a"), fixture(0), AdConfig::default()).unwrap();
    let elapsed = start.elapsed();
    assert!(elapsed < std::time::Duration::from_millis(500));
    let ad = disc.store.self_ad();
    assert_eq!(ad.node_id, id(1));
    assert_eq!(ad.hostname, "host-a");
    assert!(ad.cpu.cores_online >= 1);
    assert!(ad.mem.total_mb > 0);
}

#[test]
fn slow_tick_no_change_keeps_generation() {
    let mut disc = Discovery::bootstrap(who(1, "h"), fixture(0), AdConfig::default()).unwrap();
    let g0 = disc.store.self_ad().generation;
    let changed = disc.refresh_static(static_fixture(Vec::new()));
    assert!(!changed, "no fixture change should not bump generation");
    assert_eq!(disc.store.self_ad().generation, g0);
}

#[test]
fn slow_tick_pci_change_bumps_generation() {
    let disc = Discovery::bootstrap(who(1, "h"), fixture(0), AdConfig::default()).unwrap();
    let g0 = disc.store.self_ad().generation;
    let mut disc2 = Discovery::bootstrap(who(2, "h"), fixture(0), AdConfig::default()).unwrap();
    let g0_2 = disc2.store.self_ad().generation;
    let found = devices(&vec![pci_dev("0000:00:00.0", 0x8086, 0x3E1F, 0x060000, -1, None)]);
    let changed = disc2.refresh_static(static_fixture(found));
    assert!(changed, "PCI change should bump generation");
    assert!(disc2.store.self_ad().generation > g0_2);
    // The other one is unchanged.
    assert_eq!(disc.store.self_ad().generation, g0);
}

#[test]
fn fast_tick_invokes_task_count_callback() {
    let mut disc = Discovery::bootstrap(who(1, "h"), fixture(7), AdConfig::default()).unwrap();
    let _ = disc.refresh_dynamic(dynamic_fixture(7));
    assert_eq!(disc.store.self_ad().load.task_count, 7);
    let _ = disc.refresh_dynamic(dynamic_fixture(11));
    assert_eq!(disc.store.self_ad().load.task_count, 11);
}

#[test]
fn invalid_config_rejected() {
    let cfg = AdConfig { fast_tick: Duration::from_millis(50), ..AdConfig::default() };
    assert!(Discovery::bootstrap(who(1, "h"), fixture(0), cfg).is_err());
}

#[test]
fn a_refresh_that_finds_nothing_new_is_quiet_the_second_time() {
    let mut disc = Discovery::bootstrap(who(1, "h"), fixture(0), AdConfig::default()).unwrap();
    disc.refresh_dynamic(dynamic_fixture(3));
    let once = disc.store.self_ad();
    assert!(!disc.refresh_dynamic(dynamic_fixture(3)));
    assert_eq!(disc.store.self_ad(), once);
}

#[test]
fn unreadable_probes_leave_defaults() {
    let nothing = Probes {
        cpu: None,
        mem: None,
        pci: None,
        numa: None,
        gpus: Vec::new(),
        load: None,
        task_count: 4,
    };
    let disc = Discovery::bootstrap(who(1, "h"), nothing, AdConfig::default()).unwrap();
    let ad = disc.store.self_ad();
    assert_eq!(ad.cpu.cores_physical, 2);
    assert_eq!(ad.cpu.sockets, 1);
    assert_eq!(ad.mem, MemInfo { total_mb: 0, available_mb: 0 });
    assert_eq!(ad.numa, Vec::<NumaNode>::new());
    assert_eq!(ad.load.task_count, 4);
    assert_eq!(ad.load.loadavg_1m, 0);
}

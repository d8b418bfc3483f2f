//! Discovery: the own ad, from the first pass of probes on.
//!
//! Fast tick: load, GPU dynamic fields, memory, task count. Slow tick: PCI,
//! NUMA, CPU and GPU lists.
//!
//! `generation` only increments when the assembled `NodeAd` actually differs
//! from the one currently in the store, so an unchanged refresh costs a
//! comparison and nothing more: watchers stay quiet.
use crate::ad::config::{AdConfig, AdConfigError};
use crate::ad::discovery::gpu::{refresh_dynamic, refreshed, GpuDynamic};
use crate::ad::discovery::load::{load_sample, steady, LoadProbe, LoadReading};
use crate::ad::discovery::mem::{mem_pct, mem_pct_of};
use crate::ad::schema::{
    CpuInfo, CpuInfoView, GpuInfo, LoadSample, LoadSampleView, MemInfo, MemInfoView, NodeAd,
    NodeAdView, NumaNode, PciDevice,
};
use crate::ad::store::{AdStore, AdStoreView};
use crate::ident::NodeId;
use crate::packed::{models, same, Packed};
use vstd::prelude::*;

verus! {

/// What the probes of a first pass found. What could not be probed is missing.
pub struct Probes {
    pub cpu: Option<CpuInfo>,
    pub mem: Option<MemInfo>,
    pub pci: Option<Vec<PciDevice>>,
    pub numa: Option<Vec<NumaNode>>,
    pub gpus: Vec<GpuInfo>,
    pub load: Option<LoadReading>,
    pub task_count: u32,
}

/// What a fast tick read anew.
pub struct DynamicProbes {
    pub mem: Option<MemInfo>,
    pub load: Option<LoadReading>,
    pub gpus: Vec<GpuDynamic>,
    pub task_count: u32,
}

/// What a slow tick read anew.
pub struct StaticProbes {
    pub cpu: Option<CpuInfo>,
    pub pci: Option<Vec<PciDevice>>,
    pub numa: Option<Vec<NumaNode>>,
    pub gpus: Vec<GpuInfo>,
}

/// Who the node is.
pub struct Identity {
    pub self_id: NodeId,
    pub hostname: String,
    pub proto_version: u32,
    /// Seconds since the Unix epoch at daemon start.
    pub boot_time: u64,
    pub cores_online: u32,
    pub arch: String,
}

/// The CPU entry where `/proc/cpuinfo` could not be read.
pub open spec fn empty_cpu_info(cores_online: u32, arch: Seq<char>) -> CpuInfoView {
    CpuInfoView {
        cores_online,
        cores_physical: cores_online,
        sockets: 1,
        model: Seq::empty(),
        vendor: Seq::empty(),
        arch,
        mhz: 0,
    }
}

fn empty_cpu(cores_online: u32, arch: &str) -> (c: CpuInfo)
    ensures
        c@ == empty_cpu_info(cores_online, arch@),
{
    CpuInfo {
        cores_online,
        cores_physical: cores_online,
        sockets: 1,
        model: String::new(),
        vendor: String::new(),
        arch: arch.to_owned(),
        mhz: 0,
    }
}

/// The load where it could not be read.
pub open spec fn zero_load_sample(task_count: u32) -> LoadSampleView {
    LoadSampleView {
        loadavg_1m: 0,
        loadavg_5m: 0,
        loadavg_15m: 0,
        cpu_pct: 0,
        mem_pct: 0,
        task_count,
    }
}

fn zero_load(task_count: u32) -> (l: LoadSample)
    ensures
        l@ == zero_load_sample(task_count),
{
    LoadSample {
        loadavg_1m: 0,
        loadavg_5m: 0,
        loadavg_15m: 0,
        cpu_pct: 0,
        mem_pct: 0,
        task_count,
    }
}

/// The load that was read, or none.
pub open spec fn load_of(
    last: Option<(u64, u64)>,
    load: Option<LoadReading>,
    mem: MemInfoView,
    task_count: u32,
) -> LoadSampleView {
    match load {
        Some(r) => load_sample(last, r, mem_pct_of(mem), task_count),
        None => zero_load_sample(task_count),
    }
}

/// The first ad of a node.
pub open spec fn first_ad(who: Identity, p: Probes, generation: u64) -> NodeAdView {
    let mem = match p.mem {
        Some(m) => m@,
        None => MemInfoView { total_mb: 0, available_mb: 0 },
    };
    NodeAdView {
        node_id: who.self_id,
        hostname: who.hostname@,
        proto_version: who.proto_version,
        generation,
        boot_time: who.boot_time,
        cpu: match p.cpu {
            Some(c) => c@,
            None => empty_cpu_info(who.cores_online, who.arch@),
        },
        mem,
        gpus: models(p.gpus@),
        pci: match p.pci {
            Some(v) => models(v@),
            None => Seq::empty(),
        },
        numa: match p.numa {
            Some(v) => models(v@),
            None => Seq::empty(),
        },
        load: load_of(None, p.load, mem, p.task_count),
    }
}

/// Assembles the first ad of a node.
pub fn build_ad(who: &Identity, probes: Probes, generation: u64) -> (ad: NodeAd)
    ensures
        ad@ == first_ad(*who, probes, generation),
{
    let cpu = match probes.cpu {
        Some(c) => c,
        None => empty_cpu(who.cores_online, who.arch.as_str()),
    };
    let mem = match probes.mem {
        Some(m) => m,
        None => MemInfo { total_mb: 0, available_mb: 0 },
    };
    let pci = match probes.pci {
        Some(v) => v,
        None => Vec::new(),
    };
    let numa = match probes.numa {
        Some(v) => v,
        None => Vec::new(),
    };
    let load = match probes.load {
        Some(r) => {
            let mut fresh = LoadProbe::new();
            fresh.sample(r, mem_pct(&mem), probes.task_count)
        },
        None => zero_load(probes.task_count),
    };
    let ad = NodeAd {
        node_id: who.self_id,
        hostname: who.hostname.clone(),
        proto_version: who.proto_version,
        generation,
        boot_time: who.boot_time,
        cpu,
        mem,
        gpus: probes.gpus,
        pci,
        numa,
        load,
    };
    assert(ad@.pci =~= first_ad(*who, probes, generation).pci);
    assert(ad@.numa =~= first_ad(*who, probes, generation).numa);
    ad
}

/// The ad with another generation.
pub open spec fn with_generation(ad: NodeAdView, generation: u64) -> NodeAdView {
    NodeAdView { generation, ..ad }
}

/// The generation after `g`; the last one stays.
pub open spec fn next_generation(g: u64) -> u64 {
    if g < u64::MAX {
        (g + 1) as u64
    } else {
        g
    }
}

/// Whether the ads differ in more than their generation.
pub open spec fn differs(a: NodeAdView, b: NodeAdView) -> bool {
    with_generation(a, 0) != with_generation(b, 0)
}

/// The store after a refresh found `next`: unchanged where `next` says nothing
/// new, else with `next` under the next generation.
pub open spec fn committed(s: AdStoreView, next: NodeAdView) -> AdStoreView {
    if differs(s.own, next) {
        s.self_updated(with_generation(next, next_generation(s.own.generation)))
    } else {
        s
    }
}

/// Compare `next` against the current own ad ignoring the `generation` field.
/// If anything else changed, bump generation and write; return true. Otherwise
/// leave the store alone and return false.
pub fn commit_if_changed(store: &mut AdStore, next: NodeAd) -> (changed: bool)
    requires
        next@.node_id == old(store)@.own.node_id,
    ensures
        changed == differs(old(store)@.own, next@),
        final(store)@ == committed(old(store)@, next@),
        old(store)@.wf() ==> final(store)@.wf(),
{
    let mut next = next;
    let generation: u64 = store.own.generation;
    let mut prev = store.self_ad();
    prev.generation = 0;
    let ghost wanted = next@;
    next.generation = 0;
    assert(prev@ == with_generation(old(store)@.own, 0));
    assert(next@ == with_generation(wanted, 0));
    if same(&prev, &next) {
        return false;
    }
    next.generation = generation.saturating_add(1);
    assert(next@ == with_generation(wanted, next_generation(generation)));
    store.update_self(next);
    true
}

/// The own ad's keeper.
pub struct Discovery {
    pub load_probe: LoadProbe,
    pub store: AdStore,
    pub who: Identity,
    pub config: AdConfig,
}

/// The ad that a fast tick finds.
pub open spec fn with_dynamic(
    ad: NodeAdView,
    last: Option<(u64, u64)>,
    p: DynamicProbes,
) -> NodeAdView {
    let mem = match p.mem {
        Some(m) => m@,
        None => ad.mem,
    };
    NodeAdView {
        mem,
        load: load_of(last, p.load, mem, p.task_count),
        gpus: Seq::new(
            ad.gpus.len(),
            |i: int|
                if i < p.gpus@.len() {
                    refreshed(ad.gpus[i], p.gpus@[i])
                } else {
                    ad.gpus[i]
                },
        ),
        ..ad
    }
}

/// The ad that a slow tick finds.
pub open spec fn with_static(ad: NodeAdView, p: StaticProbes) -> NodeAdView {
    NodeAdView {
        cpu: match p.cpu {
            Some(c) => c@,
            None => ad.cpu,
        },
        pci: match p.pci {
            Some(v) => models(v@),
            None => ad.pci,
        },
        numa: match p.numa {
            Some(v) => models(v@),
            None => ad.numa,
        },
        gpus: models(p.gpus@),
        ..ad
    }
}

impl Discovery {
    /// Build the store from a first pass of probes, with generation 1. Split
    /// from the ticking so that the store is populated before any peer can
    /// connect.
    pub fn bootstrap(who: Identity, probes: Probes, config: AdConfig) -> (r: Result<
        Self,
        AdConfigError,
    >)
        ensures
            match config.fault() {
                Some(e) => r == Err::<Discovery, AdConfigError>(e),
                None => {
                    &&& r is Ok
                    &&& r->Ok_0.store@.own == first_ad(who, probes, 1)
                    &&& r->Ok_0.store@.peers.dom().is_empty()
                    &&& r->Ok_0.store@.wf()
                    &&& r->Ok_0.load_probe.last is None
                    &&& r->Ok_0.who == who
                    &&& r->Ok_0.config == config
                },
            },
    {
        match config.validate() {
            Err(e) => Err(e),
            Ok(()) => {
                let initial = build_ad(&who, probes, 1);
                let store = AdStore::new(initial);
                Ok(Discovery { load_probe: LoadProbe::new(), store, who, config })
            },
        }
    }

    /// Single fast-tick pass: whether anything changed.
    pub fn refresh_dynamic(&mut self, probes: DynamicProbes) -> (changed: bool)
        requires
            old(self).load_probe.last matches Some(prev) ==> (probes.load matches Some(r)
                ==> steady(prev, r.times)),
        ensures
            changed == differs(
                old(self).store@.own,
                with_dynamic(old(self).store@.own, old(self).load_probe.last, probes),
            ),
            final(self).store@ == committed(
                old(self).store@,
                with_dynamic(old(self).store@.own, old(self).load_probe.last, probes),
            ),
            final(self).load_probe.last == match probes.load {
                Some(r) => Some(r.times),
                None => old(self).load_probe.last,
            },
            final(self).who == old(self).who,
            final(self).config == old(self).config,
            old(self).store@.wf() ==> final(self).store@.wf(),
    {
        let ghost before = self.store@.own;
        let ghost last = self.load_probe.last;
        let mut next = self.store.self_ad();
        if let Some(m) = probes.mem {
            next.mem = m;
        }
        next.load = match probes.load {
            Some(r) => self.load_probe.sample(r, mem_pct(&next.mem), probes.task_count),
            None => zero_load(probes.task_count),
        };
        let ghost gpus = next.gpus@;
        next.gpus = refresh_dynamic(&next.gpus, &probes.gpus);
        proof {
            assert(next@.gpus =~= with_dynamic(before, last, probes).gpus) by {
                assert forall|i: int| 0 <= i < gpus.len() implies #[trigger] before.gpus[i]
                    == gpus[i]@ by {
                    assert(models(gpus)[i] == gpus[i].model());
                }
            }
            assert(next@ == with_dynamic(before, last, probes));
        }
        commit_if_changed(&mut self.store, next)
    }

    /// Single slow-tick pass: whether anything changed.
    pub fn refresh_static(&mut self, probes: StaticProbes) -> (changed: bool)
        ensures
            changed == differs(
                old(self).store@.own,
                with_static(old(self).store@.own, probes),
            ),
            final(self).store@ == committed(
                old(self).store@,
                with_static(old(self).store@.own, probes),
            ),
            final(self).load_probe == old(self).load_probe,
            final(self).who == old(self).who,
            final(self).config == old(self).config,
            old(self).store@.wf() ==> final(self).store@.wf(),
    {
        let ghost before = self.store@.own;
        let mut next = self.store.self_ad();
        if let Some(c) = probes.cpu {
            next.cpu = c;
        }
        if let Some(v) = probes.pci {
            next.pci = v;
        }
        if let Some(v) = probes.numa {
            next.numa = v;
        }
        next.gpus = probes.gpus;
        assert(next@ == with_static(before, probes));
        commit_if_changed(&mut self.store, next)
    }
}

/// A refresh that finds nothing new leaves the store as it is: no new
/// generation, no event.
pub proof fn law_quiet_refresh(s: AdStoreView, next: NodeAdView)
    requires
        !differs(s.own, next),
    ensures
        committed(s, next) == s,
{
}

/// A refresh that finds something new publishes it under a higher generation,
/// as long as there is one, and tells the watchers.
pub proof fn law_refresh_published(s: AdStoreView, next: NodeAdView)
    requires
        differs(s.own, next),
        s.own.generation < u64::MAX,
    ensures
        committed(s, next).own.generation == s.own.generation + 1,
        !differs(committed(s, next).own, next),
        committed(s, next).events.len() == s.events.len() + 1,
        crate::ad::store::newer(committed(s, next).own, s.own),
{
}

/// After a refresh the same findings are nothing new.
pub proof fn law_refresh_idempotent(s: AdStoreView, next: NodeAdView)
    ensures
        committed(committed(s, next), next) == committed(s, next),
{
}

} // verus!

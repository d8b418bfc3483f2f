//! What a node's own ad says after each tick, told by what the probes read.
use crate::ad::discovery::gpu::{gpu_info, refreshed, GpuDynamic, GpuReading};
use crate::ad::discovery::load::{busy_pct, load_sample, steady, LoadReading};
use crate::ad::discovery::mem::mem_pct_of;
use crate::ad::refresh::{
    committed, first_ad, with_dynamic, with_static, DynamicProbes, Identity, Probes, StaticProbes,
};
use crate::ad::schema::{AdUpdateView, GpuInfoView, LoadSampleView, MemInfoView, NodeAdView};
use crate::ad::store::AdStoreView;
use crate::packed::models;
use vstd::prelude::*;

verus! {

/// Whether `pct` is the share of `part` in `whole`, in percent and rounded down.
pub open spec fn whole_percent(pct: int, part: int, whole: int) -> bool {
    pct * whole <= part * 100 < (pct + 1) * whole
}

proof fn lemma_percent(part: int, whole: int)
    requires
        0 <= part <= whole,
        0 < whole,
    ensures
        whole_percent(part * 100 / whole, part, whole),
        0 <= part * 100 / whole <= 100,
{
    let q = part * 100 / whole;
    vstd::arithmetic::div_mod::lemma_fundamental_div_mod(part * 100, whole);
    let r = (part * 100) % whole;
    assert(part * 100 == whole * q + r);
    assert(0 <= r < whole);
    assert(q * whole == whole * q) by (nonlinear_arith);
    assert((q + 1) * whole == whole * q + whole) by (nonlinear_arith);
    assert(q <= 100) by (nonlinear_arith)
        requires
            whole * q <= part * 100,
            part <= whole,
            0 < whole,
    ;
    assert(q >= 0) by (nonlinear_arith)
        requires
            part * 100 == whole * q + r,
            0 <= part,
            r < whole,
            0 < whole,
    ;
}

/// The share of the memory that is in use: what is not available, of the total,
/// in whole percent; none where more is available than there is.
pub proof fn law_mem_pct(m: MemInfoView)
    ensures
        mem_pct_of(m) <= 100,
        m.available_mb < m.total_mb ==> whole_percent(
            mem_pct_of(m) as int,
            m.total_mb - m.available_mb,
            m.total_mb as int,
        ),
        m.available_mb >= m.total_mb ==> mem_pct_of(m) == 0,
{
    if m.available_mb < m.total_mb {
        lemma_percent(m.total_mb - m.available_mb, m.total_mb as int);
    }
}

/// How busy the processors were: the time that was not idle, of the time that
/// went by, in whole percent; not at all where no time went by.
pub proof fn law_cpu_pct(prev: (u64, u64), now: (u64, u64))
    requires
        steady(prev, now),
    ensures
        busy_pct(prev, now) <= 100,
        prev.1 < now.1 && prev.0 <= now.0 ==> whole_percent(
            busy_pct(prev, now) as int,
            (now.1 - prev.1) - (now.0 - prev.0),
            now.1 - prev.1,
        ),
        prev.1 < now.1 && now.0 <= prev.0 ==> busy_pct(prev, now) == 100,
        now.1 <= prev.1 ==> busy_pct(prev, now) == 0,
{
    if prev.1 < now.1 {
        let total = now.1 - prev.1;
        let idle = if now.0 >= prev.0 {
            now.0 - prev.0
        } else {
            0
        };
        lemma_percent(total - idle, total);
        if idle == 0 {
            assert((total - idle) * 100 / total == 100) by (nonlinear_arith)
                requires
                    idle == 0,
                    total > 0,
            ;
        }
    }
}

/// Two readings are steady unless more idle time than time went by.
pub proof fn law_steady(prev: (u64, u64), now: (u64, u64))
    ensures
        prev.1 < now.1 && prev.0 <= now.0 ==> (steady(prev, now) <==> now.0 - prev.0 <= now.1
            - prev.1),
        now.1 <= prev.1 ==> steady(prev, now),
        now.0 <= prev.0 ==> steady(prev, now),
{
}

/// The load that an ad shows after a reading: the averages as they were read, the
/// share of the ad's own memory, how busy the processors were since the reading
/// before, and the tasks that were counted.
pub open spec fn shows_load(
    l: LoadSampleView,
    last: Option<(u64, u64)>,
    r: LoadReading,
    mem: MemInfoView,
    task_count: u32,
) -> bool {
    &&& l.loadavg_1m == r.loadavg.0
    &&& l.loadavg_5m == r.loadavg.1
    &&& l.loadavg_15m == r.loadavg.2
    &&& l.task_count == task_count
    &&& mem.available_mb < mem.total_mb ==> whole_percent(
        l.mem_pct as int,
        mem.total_mb - mem.available_mb,
        mem.total_mb as int,
    )
    &&& mem.available_mb >= mem.total_mb ==> l.mem_pct == 0
    &&& last is None ==> l.cpu_pct == 0
    &&& last matches Some(prev) ==> (prev.1 < r.times.1 && prev.0 <= r.times.0 ==> whole_percent(
        l.cpu_pct as int,
        (r.times.1 - prev.1) - (r.times.0 - prev.0),
        r.times.1 - prev.1,
    )) && (r.times.1 <= prev.1 ==> l.cpu_pct == 0)
}

/// The load that an ad shows where it could not be read: the tasks only.
pub open spec fn shows_no_load(l: LoadSampleView, task_count: u32) -> bool {
    &&& l.loadavg_1m == 0
    &&& l.loadavg_5m == 0
    &&& l.loadavg_15m == 0
    &&& l.cpu_pct == 0
    &&& l.mem_pct == 0
    &&& l.task_count == task_count
}

/// Whether a number of bytes makes so many whole megabytes.
pub open spec fn whole_mb(mb: u64, bytes: u64) -> bool {
    mb * 1_048_576 <= bytes < (mb + 1) * 1_048_576
}

/// Whether `now` is the GPU's entry `was` with what could be read anew: the
/// memory, free and in all, and how busy it is.
pub open spec fn shows_gpu(now: GpuInfoView, was: GpuInfoView, d: GpuDynamic) -> bool {
    &&& match d.memory {
        Some((free, total)) => whole_mb(now.vram_free_mb, free) && whole_mb(
            now.vram_total_mb,
            total,
        ),
        None => now.vram_free_mb == was.vram_free_mb && now.vram_total_mb == was.vram_total_mb,
    }
    &&& match d.utilization {
        Some(u) => now.utilization_pct == u,
        None => now.utilization_pct == was.utilization_pct,
    }
    &&& same_device(now, was)
}

/// Whether two entries are for the same GPU, whatever its state.
pub open spec fn same_device(a: GpuInfoView, b: GpuInfoView) -> bool {
    &&& a.index == b.index
    &&& a.uuid == b.uuid
    &&& a.name == b.name
    &&& a.pci_vendor == b.pci_vendor
    &&& a.pci_device == b.pci_device
    &&& a.pci_addr == b.pci_addr
    &&& a.compute_capability == b.compute_capability
    &&& a.nvlink_peers == b.nvlink_peers
}

/// A GPU's entry anew.
pub proof fn law_gpu_refreshed(g: GpuInfoView, d: GpuDynamic)
    ensures
        shows_gpu(refreshed(g, d), g, d),
{
    if let Some((free, total)) = d.memory {
        lemma_whole_mb(free);
        lemma_whole_mb(total);
    }
}

proof fn lemma_whole_mb(bytes: u64)
    ensures
        whole_mb((bytes / 1_048_576) as u64, bytes),
{
}

/// A GPU's first entry: what was read under the same name, sizes in whole
/// megabytes, and the two halves of the PCI id.
pub proof fn law_gpu_read(r: GpuReading)
    ensures
        ({
            let g = gpu_info(r);
            &&& g.index == r.index
            &&& r.uuid matches Some(t) ==> g.uuid == t@
            &&& r.uuid is None ==> g.uuid.len() == 0
            &&& r.name matches Some(t) ==> g.name == t@
            &&& r.name is None ==> g.name.len() == 0
            &&& g.pci_vendor * 0x1_0000 + g.pci_device == r.pci_device_id
            &&& g.pci_addr == r.bus_id@
            &&& whole_mb(g.vram_total_mb, r.mem_total)
            &&& whole_mb(g.vram_free_mb, r.mem_free)
            &&& g.compute_capability == if r.compute_capability is Some {
                r.compute_capability->Some_0
            } else {
                (0u32, 0u32)
            }
            &&& g.utilization_pct == if r.utilization is Some {
                r.utilization->Some_0
            } else {
                0u32
            }
            &&& g.nvlink_peers.len() == 0
        }),
{
    lemma_whole_mb(r.mem_total);
    lemma_whole_mb(r.mem_free);
}

/// Whether two ads name the same node, as it was booted.
pub open spec fn same_node(a: NodeAdView, b: NodeAdView) -> bool {
    &&& a.node_id == b.node_id
    &&& a.hostname == b.hostname
    &&& a.proto_version == b.proto_version
    &&& a.boot_time == b.boot_time
}

/// After a fast tick the own ad shows the memory that was read, or the one from
/// before where it could not be read; the load that was read, with the share of
/// that memory; each GPU as it was read; and the rest as before.
pub proof fn law_fast_tick(s: AdStoreView, last: Option<(u64, u64)>, p: DynamicProbes)
    requires
        last matches Some(prev) ==> (p.load matches Some(r) ==> steady(prev, r.times)),
    ensures
        ({
            let own = committed(s, with_dynamic(s.own, last, p)).own;
            &&& p.mem matches Some(m) ==> own.mem == m@
            &&& p.mem is None ==> own.mem == s.own.mem
            &&& match p.load {
                Some(r) => shows_load(own.load, last, r, own.mem, p.task_count),
                None => shows_no_load(own.load, p.task_count),
            }
            &&& own.gpus.len() == s.own.gpus.len()
            &&& forall|i: int|
                0 <= i < own.gpus.len() && i < p.gpus@.len() ==> shows_gpu(
                    #[trigger] own.gpus[i],
                    s.own.gpus[i],
                    p.gpus@[i],
                )
            &&& forall|i: int|
                p.gpus@.len() <= i < own.gpus.len() ==> #[trigger] own.gpus[i] == s.own.gpus[i]
            &&& same_node(own, s.own)
            &&& own.cpu == s.own.cpu
            &&& own.pci == s.own.pci
            &&& own.numa == s.own.numa
        }),
{
    let next = with_dynamic(s.own, last, p);
    let own = committed(s, next).own;
    assert(own.mem == next.mem && own.load == next.load && own.gpus == next.gpus);
    law_mem_pct(own.mem);
    if let Some(prev) = last {
        if let Some(r) = p.load {
            law_cpu_pct(prev, r.times);
        }
    }
    assert forall|i: int| 0 <= i < own.gpus.len() && i < p.gpus@.len() implies shows_gpu(
        #[trigger] own.gpus[i],
        s.own.gpus[i],
        p.gpus@[i],
    ) by {
        law_gpu_refreshed(s.own.gpus[i], p.gpus@[i]);
    }
}

/// After a slow tick the own ad shows the CPU, the PCI devices and the NUMA nodes
/// that were read, each as before where it could not be read; the GPUs that were
/// found; and the rest as before.
pub proof fn law_slow_tick(s: AdStoreView, p: StaticProbes)
    ensures
        ({
            let own = committed(s, with_static(s.own, p)).own;
            &&& own.cpu == if p.cpu is Some {
                p.cpu->Some_0@
            } else {
                s.own.cpu
            }
            &&& own.pci == if p.pci is Some {
                models(p.pci->Some_0@)
            } else {
                s.own.pci
            }
            &&& own.numa == if p.numa is Some {
                models(p.numa->Some_0@)
            } else {
                s.own.numa
            }
            &&& own.gpus.len() == p.gpus@.len()
            &&& forall|i: int| 0 <= i < own.gpus.len() ==> #[trigger] own.gpus[i] == p.gpus@[i]@
            &&& own.mem == s.own.mem
            &&& own.load == s.own.load
            &&& same_node(own, s.own)
        }),
{
}

/// A refresh touches the own ad only: the peers and their deadlines stay, and the
/// watchers hear of nothing but the own ad, under its new generation.
pub proof fn law_refresh_keeps_peers(s: AdStoreView, next: NodeAdView)
    ensures
        committed(s, next).peers == s.peers,
        committed(s, next).pending == s.pending,
        committed(s, next).own.generation >= s.own.generation,
        committed(s, next).own.generation <= s.own.generation + 1,
        committed(s, next).events == s.events || (committed(s, next).events.len() == s.events.len()
            + 1 && committed(s, next).events.drop_last() == s.events
            && committed(s, next).events.last() == AdUpdateView::Updated(
            committed(s, next).own,
        )),
{
    let c = committed(s, next);
    if c.events.len() == s.events.len() + 1 {
        assert(c.events.drop_last() =~= s.events);
    }
}

/// A node's first ad says who the node is and shows what was read: where the CPU
/// could not be read, all online cores, each a core of one socket; where the
/// memory or the load could not be read, none; where the devices could not be
/// read, no devices.
pub proof fn law_first_ad(who: Identity, p: Probes, generation: u64)
    ensures
        ({
            let ad = first_ad(who, p, generation);
            &&& ad.node_id == who.self_id
            &&& ad.hostname == who.hostname@
            &&& ad.proto_version == who.proto_version
            &&& ad.boot_time == who.boot_time
            &&& ad.generation == generation
            &&& p.cpu matches Some(c) ==> ad.cpu == c@
            &&& p.cpu is None ==> {
                &&& ad.cpu.cores_online == who.cores_online
                &&& ad.cpu.cores_physical == who.cores_online
                &&& ad.cpu.sockets == 1
                &&& ad.cpu.model.len() == 0
                &&& ad.cpu.vendor.len() == 0
                &&& ad.cpu.arch == who.arch@
                &&& ad.cpu.mhz == 0
            }
            &&& p.mem matches Some(m) ==> ad.mem == m@
            &&& p.mem is None ==> ad.mem.total_mb == 0 && ad.mem.available_mb == 0
            &&& p.pci matches Some(v) ==> ad.pci == models(v@)
            &&& p.pci is None ==> ad.pci.len() == 0
            &&& p.numa matches Some(v) ==> ad.numa == models(v@)
            &&& p.numa is None ==> ad.numa.len() == 0
            &&& ad.gpus.len() == p.gpus@.len()
            &&& forall|i: int| 0 <= i < ad.gpus.len() ==> #[trigger] ad.gpus[i] == p.gpus@[i]@
            &&& match p.load {
                Some(r) => shows_load(ad.load, None, r, ad.mem, p.task_count),
                None => shows_no_load(ad.load, p.task_count),
            }
        }),
{
    law_mem_pct(first_ad(who, p, generation).mem);
}

/// A sample shows the share of memory that it was handed.
pub proof fn law_load_sample(
    last: Option<(u64, u64)>,
    r: LoadReading,
    mem_pct: u32,
    task_count: u32,
)
    ensures
        ({
            let l = load_sample(last, r, mem_pct, task_count);
            &&& (l.loadavg_1m, l.loadavg_5m, l.loadavg_15m) == r.loadavg
            &&& l.mem_pct == mem_pct
            &&& l.task_count == task_count
            &&& last is None ==> l.cpu_pct == 0
        }),
{
}

} // verus!

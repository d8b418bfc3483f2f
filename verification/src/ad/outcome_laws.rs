//! What the functions that read, keep and spread ads return and leave behind, told
//! of the functions themselves: whatever one did, it was this.
use crate::ad::config::{AdConfig, AdConfigError};
use crate::ad::discovery::gpu::{enumerate_one, GpuDynamic, GpuReading};
use crate::ad::discovery::load::{delta_pct, parse_loadavg, parse_stat, LoadProbe, LoadReading};
use crate::ad::discovery::numa::{node_ids, node_number, parse_cpulist, topology, NumaReading};
use crate::ad::discovery::proc_laws::{
    counters_text, gives, kb_as_mb, law_jiffies, law_loadavg, law_meminfo, told_at,
};
use crate::ad::discovery::sysfs_laws::{law_cpulist, range_texts};
use crate::ad::discovery::{cpu, gpu, mem};
use crate::ad::frames::AdInboundView;
use crate::ad::gossip::{Gossip, Outgoing};
use crate::ad::refresh::{
    build_ad, commit_if_changed, Discovery, DynamicProbes, Identity, Probes, StaticProbes,
};
use crate::ad::refresh_laws::{
    law_cpu_pct, law_fast_tick, law_first_ad, law_gpu_read, law_gpu_refreshed, law_mem_pct,
    law_refresh_keeps_peers, law_slow_tick, same_node, shows_gpu, shows_load, shows_no_load,
    whole_mb, whole_percent,
};
use crate::ad::schema::{AdUpdate, AdUpdateView, GpuInfo, LoadSample, MemInfo, NodeAd, NumaNode};
use crate::ad::store::{events_view, AdStore, UpsertOutcome};
use crate::ad::store_laws::{law_upsert_kept, law_upsert_outcome, older_than, version};
use crate::ident::{Frame, NodeId};
use crate::order::{ascending, increasing};
use crate::packed::models;
use crate::scan::{is_space, lines, starts_with};
use crate::scan_laws::{between, solid};
use crate::time::Duration;
use vstd::prelude::*;

verus! {

/// A configuration is valid from a fast tick of 250 milliseconds and a slow one of
/// five seconds on. The tick that is too low is named, the fast one first.
pub proof fn law_config_valid(c: &AdConfig, r: Result<(), AdConfigError>)
    requires
        call_ensures(AdConfig::validate, (c,), r),
    ensures
        r is Ok <==> c.fast_tick.nanos >= 250_000_000 && c.slow_tick.nanos >= 5_000_000_000,
        c.fast_tick.nanos < 250_000_000 ==> (r matches Err(AdConfigError::FastTickTooLow(was, least))
            && was == c.fast_tick && least.nanos == 250_000_000),
        c.fast_tick.nanos >= 250_000_000 && c.slow_tick.nanos < 5_000_000_000 ==> (r matches Err(
            AdConfigError::SlowTickTooLow(was, least),
        ) && was == c.slow_tick && least.nanos == 5_000_000_000),
{
}

/// The own ad goes out once in a gossip period, or in ten seconds.
pub proof fn law_broadcast_period(c: &AdConfig, d: Duration)
    requires
        call_ensures(AdConfig::broadcast_period, (c,), d),
    ensures
        c.gossip_period.nanos > 0 ==> d.nanos == c.gossip_period.nanos,
        c.gossip_period.nanos == 0 ==> d.nanos == 10_000_000_000,
{
}

/// After a fast tick the own ad shows what the probes read: the memory and its
/// share in the load, the load itself and each GPU; what could not be read stays,
/// and so does all that a fast tick does not look at.
pub proof fn law_refresh_dynamic(d: &mut Discovery, p: DynamicProbes, changed: bool)
    requires
        old(d).load_probe.last matches Some(prev) ==> (p.load matches Some(r)
            ==> crate::ad::discovery::load::steady(prev, r.times)),
        call_ensures(Discovery::refresh_dynamic, (d, p), changed),
    ensures
        ({
            let was = old(d).store@.own;
            let own = final(d).store@.own;
            &&& p.mem matches Some(m) ==> own.mem == m@
            &&& p.mem is None ==> own.mem == was.mem
            &&& match p.load {
                Some(r) => shows_load(own.load, old(d).load_probe.last, r, own.mem, p.task_count),
                None => shows_no_load(own.load, p.task_count),
            }
            &&& own.gpus.len() == was.gpus.len()
            &&& forall|i: int|
                0 <= i < own.gpus.len() && i < p.gpus@.len() ==> shows_gpu(
                    #[trigger] own.gpus[i],
                    was.gpus[i],
                    p.gpus@[i],
                )
            &&& same_node(own, was)
            &&& own.cpu == was.cpu
            &&& own.pci == was.pci
            &&& own.numa == was.numa
            &&& own.generation == was.generation || own.generation == was.generation + 1
            &&& !changed ==> own == was
            &&& changed && was.generation < u64::MAX ==> own.generation == was.generation + 1
        }),
        final(d).store@.peers == old(d).store@.peers,
        p.load matches Some(r) ==> final(d).load_probe.last == Some(r.times),
        p.load is None ==> final(d).load_probe.last == old(d).load_probe.last,
{
    law_fast_tick(old(d).store@, old(d).load_probe.last, p);
    law_refresh_keeps_peers(
        old(d).store@,
        crate::ad::refresh::with_dynamic(old(d).store@.own, old(d).load_probe.last, p),
    );
}

/// After a slow tick the own ad shows the hardware that was found.
pub proof fn law_refresh_static(d: &mut Discovery, p: StaticProbes, changed: bool)
    requires
        call_ensures(Discovery::refresh_static, (d, p), changed),
    ensures
        ({
            let was = old(d).store@.own;
            let own = final(d).store@.own;
            &&& p.cpu matches Some(c) ==> own.cpu == c@
            &&& p.cpu is None ==> own.cpu == was.cpu
            &&& p.pci matches Some(v) ==> own.pci == models(v@)
            &&& p.pci is None ==> own.pci == was.pci
            &&& p.numa matches Some(v) ==> own.numa == models(v@)
            &&& p.numa is None ==> own.numa == was.numa
            &&& own.gpus == models(p.gpus@)
            &&& own.mem == was.mem
            &&& own.load == was.load
            &&& same_node(own, was)
            &&& !changed ==> own == was
            &&& changed && was.generation < u64::MAX ==> own.generation == was.generation + 1
        }),
        final(d).store@.peers == old(d).store@.peers,
        final(d).load_probe.last == old(d).load_probe.last,
{
    law_slow_tick(old(d).store@, p);
    assert(final(d).store@.own.gpus =~= models(p.gpus@));
    law_refresh_keeps_peers(
        old(d).store@,
        crate::ad::refresh::with_static(old(d).store@.own, p),
    );
}

/// A finding is published where it differs from the own ad in more than the
/// generation: under the next one, and told of; else nothing changes.
pub proof fn law_committed(s: &mut AdStore, next: NodeAd, changed: bool)
    requires
        next@.node_id == old(s)@.own.node_id,
        call_ensures(commit_if_changed, (s, next), changed),
    ensures
        !changed ==> final(s)@ == old(s)@,
        changed <==> !(next@.hostname == old(s)@.own.hostname && next@.proto_version
            == old(s)@.own.proto_version && next@.boot_time == old(s)@.own.boot_time && next@.cpu
            == old(s)@.own.cpu && next@.mem == old(s)@.own.mem && next@.gpus == old(s)@.own.gpus
            && next@.pci == old(s)@.own.pci && next@.numa == old(s)@.own.numa && next@.load
            == old(s)@.own.load),
        changed && old(s)@.own.generation < u64::MAX ==> {
            &&& final(s)@.own.generation == old(s)@.own.generation + 1
            &&& final(s)@.own.load == next@.load
            &&& final(s)@.own.mem == next@.mem
            &&& final(s)@.own.gpus == next@.gpus
            &&& final(s)@.events == old(s)@.events.push(AdUpdateView::Updated(final(s)@.own))
        },
{
}

/// The first ad of a node is built from who it is and what was read.
pub proof fn law_ad_built(who: &Identity, p: Probes, generation: u64, ad: NodeAd)
    requires
        call_ensures(build_ad, (who, p, generation), ad),
    ensures
        ad@.node_id == who.self_id,
        ad@.hostname == who.hostname@,
        ad@.generation == generation,
        p.mem matches Some(m) ==> ad@.mem == m@,
        p.cpu matches Some(c) ==> ad@.cpu == c@,
        p.pci matches Some(v) ==> ad@.pci == models(v@),
        p.numa matches Some(v) ==> ad@.numa == models(v@),
        p.load matches Some(r) ==> shows_load(ad@.load, None, r, ad@.mem, p.task_count),
        p.load is None ==> shows_no_load(ad@.load, p.task_count),
{
    law_first_ad(*who, p, generation);
}

/// A node starts with generation one, without peers, and with what was read of its
/// hardware; a bad configuration stops it.
pub proof fn law_bootstrap(
    who: Identity,
    p: Probes,
    c: AdConfig,
    r: Result<Discovery, AdConfigError>,
)
    requires
        call_ensures(Discovery::bootstrap, (who, p, c), r),
    ensures
        r is Ok <==> c.fast_tick.nanos >= 250_000_000 && c.slow_tick.nanos >= 5_000_000_000,
        r matches Ok(d) ==> {
            let own = d.store@.own;
            &&& own.generation == 1
            &&& own.node_id == who.self_id
            &&& own.hostname == who.hostname@
            &&& own.boot_time == who.boot_time
            &&& own.proto_version == who.proto_version
            &&& p.mem matches Some(m) ==> own.mem == m@
            &&& p.cpu matches Some(x) ==> own.cpu == x@
            &&& own.gpus == models(p.gpus@)
            &&& d.store@.peers.dom().is_empty()
            &&& d.load_probe.last is None
        },
{
    law_first_ad(who, p, 1);
    if let Ok(d) = r {
        assert(d.store@.own.gpus =~= models(p.gpus@));
    }
}

/// The memory that a probe reads is what the file's lines say.
pub proof fn law_mem_probe(raw: &Vec<char>, r: MemInfo, total: u64, i: int, available: u64)
    requires
        call_ensures(mem::parse, (raw,), r),
        gives(lines(raw@), "MemTotal"@, total),
        told_at(lines(raw@), "MemAvailable"@, i, available),
    ensures
        kb_as_mb(r.total_mb, total as int),
        kb_as_mb(r.available_mb, available as int),
{
    law_meminfo(raw@, total, i, available);
}

/// The share of memory in use.
pub proof fn law_mem_share(m: &MemInfo, r: u32)
    requires
        call_ensures(mem::mem_pct, (m,), r),
    ensures
        m.available_mb < m.total_mb ==> whole_percent(
            r as int,
            m.total_mb - m.available_mb,
            m.total_mb as int,
        ),
        m.available_mb >= m.total_mb ==> r == 0,
{
    law_mem_pct(m@);
}

/// How busy the processors were between two readings.
pub proof fn law_busy_share(prev: (u64, u64), now: (u64, u64), r: u32)
    requires
        crate::ad::discovery::load::steady(prev, now),
        call_ensures(delta_pct, (prev, now), r),
    ensures
        prev.1 < now.1 && prev.0 <= now.0 ==> whole_percent(
            r as int,
            (now.1 - prev.1) - (now.0 - prev.0),
            now.1 - prev.1,
        ),
        now.1 <= prev.1 ==> r == 0,
{
    law_cpu_pct(prev, now);
}

/// The times of `/proc/stat`: idle and waiting for I/O, and all in all.
pub proof fn law_stat_parsed(raw: &str, r: (u64, u64), i: int, ns: Seq<u64>)
    requires
        call_ensures(parse_stat, (raw,), r),
        0 <= i < lines(raw@).len(),
        lines(raw@)[i] == seq!['c', 'p', 'u'] + counters_text(ns),
        ns.len() > 4,
        forall|j: int| 0 <= j < i ==> !starts_with(#[trigger] lines(raw@)[j], "cpu "@),
    ensures
        r.0 == ns[3] + ns[4],
        r.1 == crate::ad::discovery::load::sum(ns),
{
    law_jiffies(raw@, i, ns);
}

/// The averages of `/proc/loadavg` are its first three words.
pub proof fn law_loadavg_parsed(
    raw: &str,
    r: (Option<String>, Option<String>, Option<String>),
    a: Seq<char>,
    b: Seq<char>,
    c: Seq<char>,
    rest: Seq<char>,
)
    requires
        call_ensures(parse_loadavg, (raw,), r),
        raw@ == a + seq![' '] + b + seq![' '] + c + rest,
        solid(a),
        solid(b),
        solid(c),
        rest.len() > 0 ==> is_space(rest[0]),
    ensures
        r.0 matches Some(t) && t@ == a,
        r.1 matches Some(t) && t@ == b,
        r.2 matches Some(t) && t@ == c,
{
    law_loadavg(a, b, c, rest);
}

/// A sample shows what was read, and is what the next one is held against.
pub proof fn law_sampled(
    p: &mut LoadProbe,
    r: LoadReading,
    mem_pct: u32,
    task_count: u32,
    s: LoadSample,
)
    requires
        old(p).last matches Some(prev) ==> crate::ad::discovery::load::steady(prev, r.times),
        call_ensures(LoadProbe::sample, (p, r, mem_pct, task_count), s),
    ensures
        final(p).last == Some(r.times),
        s.loadavg_1m == r.loadavg.0,
        s.loadavg_5m == r.loadavg.1,
        s.loadavg_15m == r.loadavg.2,
        s.mem_pct == mem_pct,
        s.task_count == task_count,
        old(p).last is None ==> s.cpu_pct == 0,
        old(p).last matches Some(prev) ==> (prev.1 < r.times.1 && prev.0 <= r.times.0
            ==> whole_percent(
            s.cpu_pct as int,
            (r.times.1 - prev.1) - (r.times.0 - prev.0),
            r.times.1 - prev.1,
        )),
{
    assert(s@.loadavg_1m == s.loadavg_1m);
    if let Some(prev) = old(p).last {
        law_cpu_pct(prev, r.times);
    }
}

/// A GPU as it was found.
pub proof fn law_gpu_found(r: GpuReading, g: GpuInfo)
    requires
        call_ensures(enumerate_one, (r,), g),
    ensures
        g@.index == r.index,
        g@.pci_vendor * 0x1_0000 + g@.pci_device == r.pci_device_id,
        g@.pci_addr == r.bus_id@,
        whole_mb(g@.vram_total_mb, r.mem_total),
        whole_mb(g@.vram_free_mb, r.mem_free),
        r.name matches Some(t) ==> g@.name == t@,
        r.uuid matches Some(t) ==> g@.uuid == t@,
{
    law_gpu_read(r);
}

/// Each GPU with what was read of it anew; those without a reading stay.
pub proof fn law_gpus_refreshed(
    gpus: &Vec<GpuInfo>,
    readings: &Vec<GpuDynamic>,
    r: Vec<GpuInfo>,
    i: int,
)
    requires
        call_ensures(gpu::refresh_dynamic, (gpus, readings), r),
        0 <= i < gpus@.len(),
    ensures
        r@.len() == gpus@.len(),
        i < readings@.len() ==> shows_gpu(r@[i]@, gpus@[i]@, readings@[i]),
        i >= readings@.len() ==> r@[i]@ == gpus@[i]@,
{
    if i < readings@.len() {
        law_gpu_refreshed(gpus@[i]@, readings@[i]);
    }
    assert(r@[i]@ == r@[i]@);
}

/// A cpulist has the CPUs of its ranges, each once, in ascending order.
pub proof fn law_cpulist_parsed(raw: &str, r: Vec<u32>, rs: Seq<(u32, u32)>, c: u32)
    requires
        call_ensures(parse_cpulist, (raw,), r),
        rs.len() > 0,
        raw@ == between(range_texts(rs), ','),
    ensures
        increasing(r@),
        r@.contains(c) <==> exists|i: int|
            0 <= i < rs.len() && (#[trigger] rs[i]).0 <= c <= rs[i].1,
{
    law_cpulist(rs, c);
}

/// The numbers of the nodes, in ascending order: each entry for a node gives its
/// own.
pub proof fn law_node_ids(entries: &Vec<String>, r: Vec<u32>, i: int, n: u32)
    requires
        call_ensures(node_ids, (entries,), r),
        0 <= i < entries@.len(),
        node_number(entries@[i]@) == Some(n),
    ensures
        ascending(r@),
        r@.contains(n),
{
    broadcast use vstd::seq_lib::group_to_multiset_ensures;

    lemma_number_in(entries@, i, n);
    let ns = crate::ad::discovery::numa::node_numbers(entries@);
    assert(ns.to_multiset().contains(n));
    assert(r@.to_multiset().contains(n));
}

proof fn lemma_number_in(entries: Seq<String>, i: int, n: u32)
    requires
        0 <= i < entries.len(),
        node_number(entries[i]@) == Some(n),
    ensures
        crate::ad::discovery::numa::node_numbers(entries).contains(n),
    decreases entries.len(),
{
    let init = entries.drop_last();
    let all = crate::ad::discovery::numa::node_numbers(entries);
    let ns = crate::ad::discovery::numa::node_numbers(init);
    if i == entries.len() - 1 {
        assert(all[ns.len() as int] == n);
    } else {
        assert(init[i] == entries[i]);
        lemma_number_in(init, i, n);
        let k = choose|k: int| 0 <= k < ns.len() && ns[k] == n;
        assert(all[k] == n);
    }
}

/// Each node with its number, and each CPU that it lists and no earlier one does.
pub proof fn law_topology(readings: &Vec<NumaReading>, r: Vec<NumaNode>, i: int, c: u32)
    requires
        call_ensures(topology, (readings,), r),
        0 <= i < readings@.len(),
    ensures
        r@.len() == readings@.len(),
        r@[i].id == readings@[i].id,
        increasing(r@[i].cpus@),
        r@[i].cpus@.contains(c) <==> crate::ad::discovery::numa::claims(readings@[i], c) && forall|
            j: int,
        |
            0 <= j < i ==> !crate::ad::discovery::numa::claims(#[trigger] readings@[j], c),
{
    assert(r@[i].cpus@.contains(c) <==> crate::ad::discovery::numa::belongs(readings@, i, c));
}

/// What becomes of an ad that arrives, and what is kept of it.
pub proof fn law_upsert(s: &mut AdStore, ad: NodeAd, r: UpsertOutcome)
    requires
        call_ensures(AdStore::upsert, (s, ad), r),
    ensures
        ({
            let k = ad@.node_id.0;
            let own = k == old(s)@.own.node_id.0;
            let known = old(s)@.peers.contains_key(k);
            &&& r is IgnoredSelf <==> own
            &&& r is Inserted <==> !own && !known
            &&& r is Updated <==> !own && known && older_than(
                version(old(s)@.peers[k]),
                version(ad@),
            )
            &&& r is Stale <==> !own && known && older_than(
                version(ad@),
                version(old(s)@.peers[k]),
            )
            &&& r is Inserted || r is Updated || r is Unchanged ==> final(s)@.peers.contains_key(k)
                && final(s)@.peers[k] == ad@
            &&& r is Stale ==> final(s)@.peers == old(s)@.peers
            &&& r is IgnoredSelf ==> final(s)@ == old(s)@
            &&& !own ==> !final(s)@.pending.contains_key(k)
            &&& r is Inserted ==> final(s)@.events == old(s)@.events.push(
                AdUpdateView::Inserted(ad@),
            )
            &&& r is Updated ==> final(s)@.events == old(s)@.events.push(AdUpdateView::Updated(ad@))
            &&& r is Unchanged || r is Stale ==> final(s)@.events == old(s)@.events
            &&& final(s)@.own == old(s)@.own
        }),
{
    law_upsert_outcome(old(s)@, ad@);
    if ad@.node_id.0 != old(s)@.own.node_id.0 {
        law_upsert_kept(old(s)@, ad@);
    }
}

/// A peer that is evicted is gone, and told of where it was there.
pub proof fn law_evict(s: &mut AdStore, peer: NodeId)
    requires
        call_ensures(AdStore::evict, (s, peer), ()),
    ensures
        !final(s)@.peers.contains_key(peer.0),
        !final(s)@.pending.contains_key(peer.0),
        final(s)@.own == old(s)@.own,
        forall|k: u128|
            k != peer.0 ==> #[trigger] final(s)@.peers.contains_key(k)
                == old(s)@.peers.contains_key(k),
        old(s)@.peers.contains_key(peer.0) ==> final(s)@.events == old(s)@.events.push(
            AdUpdateView::Removed(peer),
        ),
        !old(s)@.peers.contains_key(peer.0) ==> final(s)@.events == old(s)@.events,
{
}

/// A peer that went away is given its time, and is evicted when that is over and
/// not before.
pub proof fn law_peer_down(g: &mut Gossip, peer: NodeId, now: Duration)
    requires
        call_ensures(Gossip::on_peer_down, (g, peer, now), ()),
    ensures
        final(g).store@.peers == old(g).store@.peers,
        final(g).store@.own == old(g).store@.own,
        peer.0 == old(g).store@.own.node_id.0 ==> final(g).store@ == old(g).store@,
        peer.0 != old(g).store@.own.node_id.0 && now.nanos + old(g).peer_grace.nanos <= u128::MAX
            ==> final(g).store@.pending.contains_key(peer.0) && final(g).store@.pending[peer.0]
            == now.nanos + old(g).peer_grace.nanos,
{
}

/// A look at a peer's deadline.
pub proof fn law_expire(s: &mut AdStore, peer: NodeId, now: Duration)
    requires
        call_ensures(AdStore::expire, (s, peer, now), ()),
    ensures
        old(s)@.pending.contains_key(peer.0) && old(s)@.pending[peer.0] <= now.nanos
            ==> !final(s)@.peers.contains_key(peer.0),
        old(s)@.pending.contains_key(peer.0) && now.nanos < old(s)@.pending[peer.0] ==> final(s)@
            == old(s)@,
        !old(s)@.pending.contains_key(peer.0) ==> final(s)@ == old(s)@,
{
}

/// The own ad is replaced.
pub proof fn law_update_self(s: &mut AdStore, ad: NodeAd)
    requires
        call_ensures(AdStore::update_self, (s, ad), ()),
    ensures
        final(s)@.own == ad@,
        final(s)@.peers == old(s)@.peers,
        ad@.generation != old(s)@.own.generation ==> final(s)@.events == old(s)@.events.push(
            AdUpdateView::Updated(ad@),
        ),
        ad@.generation == old(s)@.own.generation ==> final(s)@.events == old(s)@.events,
{
}

/// Events are handed out once, in order.
pub proof fn law_events_taken(s: &mut AdStore, r: Vec<AdUpdate>)
    requires
        call_ensures(AdStore::take_events, (s,), r),
    ensures
        events_view(r@) == old(s)@.events,
        final(s)@.events.len() == 0,
        final(s)@.peers == old(s)@.peers,
        final(s)@.own == old(s)@.own,
{
}

/// All ads: the own one first, then each peer's once, in the order of the nodes.
pub proof fn law_all_ads(s: &AdStore, r: Vec<NodeAd>, k: u128, i: int, j: int)
    requires
        s@.wf(),
        call_ensures(AdStore::all_ads, (s,), r),
    ensures
        r@.len() == 1 + s@.peers.dom().len(),
        r@[0]@ == s@.own,
        s@.peers.contains_key(k) ==> exists|i: int|
            1 <= i < r@.len() && #[trigger] r@[i]@ == s@.peers[k],
        1 <= i < j < r@.len() ==> r@[i]@.node_id.0 < r@[j]@.node_id.0,
{
    assert(crate::ad::store::ads_list(r@)[0] == r@[0]@);
    if s@.peers.contains_key(k) {
        let p = s@.peers[k];
        assert(exists|i: int| 1 <= i < r@.len() && #[trigger] r@[i]@ == s@.peers[k]);
    }
    if 1 <= i < j < r@.len() {
        assert(r@[i]@.node_id.0 < r@[j]@.node_id.0);
    }
}

/// A peer's ad is the one that is kept, or none.
pub proof fn law_peer(s: &AdStore, id: NodeId, r: Option<NodeAd>)
    requires
        call_ensures(AdStore::peer, (s, id), r),
    ensures
        r is Some <==> s@.peers.contains_key(id.0),
        r matches Some(ad) ==> ad@ == s@.peers[id.0],
{
}

/// The own ad is sent to every live node, once each and in order.
pub proof fn law_broadcast(g: &Gossip, live: &Vec<NodeId>, r: Vec<Outgoing>, i: int)
    requires
        call_ensures(Gossip::broadcast_self, (g, live), r),
        0 <= i < live@.len(),
    ensures
        r@.len() == live@.len(),
        r@[i].to == live@[i],
        r@[i].frame.kind == 0x0100,
        r@[i].frame@ == crate::ad::frames::node_ad_frame(g.store@.own),
{
    let all = crate::ad::gossip::outgoing_view(r@);
    assert(all.len() == live@.len());
    assert(all[i] == r@[i]@);
}

/// A frame that arrives: an ad is merged, a request is answered with the own ad to
/// the node that asks, and nothing else does anything.
pub proof fn law_frame_taken(g: &mut Gossip, peer: NodeId, frame: &Frame, r: Option<Outgoing>)
    requires
        call_ensures(Gossip::on_frame, (g, peer, frame), r),
    ensures
        ({
            let said = crate::ad::frames::inbound(frame@);
            &&& said matches Ok(AdInboundView::Ad(ad)) ==> r is None && final(g).store@
                == old(g).store@.upserted(ad)
            &&& said matches Ok(AdInboundView::Request(q)) ==> final(g).store@ == old(g).store@ && (
            r matches Some(o) && o.to == q.from && o.frame@ == crate::ad::frames::node_ad_frame(
                old(g).store@.own,
            ))
            &&& said matches Ok(AdInboundView::Delta { .. }) ==> r is None && final(g).store@
                == old(g).store@
            &&& said is Err ==> r is None && final(g).store@ == old(g).store@
        }),
{
}

} // verus!

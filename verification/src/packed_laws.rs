//! Where each part of a payload stands. Numbers are little-endian, a text or a list
//! has its length in eight bytes before it, and the fields of a value stand in
//! their order with nothing between them.
use crate::ad::schema::{
    AdGossip, AdGossipView, AdRequest, AdRequestView, CpuInfo, CpuInfoView, GpuInfo, GpuInfoView,
    LoadSample, LoadSampleView, MemInfo, MemInfoView, NodeAd, NodeAdView, NumaNode, NumaNodeView,
    PciDevice, PciDeviceView,
};
use crate::bytes::{le_bytes, lemma_le_bytes_len};
use crate::fs::layout_laws::{number_at, range_of};
use crate::ident::{MboxId, NetId, NodeId};
use crate::mbox::frames::{
    DeliveryFailureReason, MailDeliveryFailure, MailDeliveryFailureView, MailSend, MailSendView,
    ServiceAd, ServiceAdView, ServiceForget, ServiceForgetView, ServiceSyncEntry,
    ServiceSyncEntryView, ServiceSyncResponse, ServiceSyncResponseView,
};
use crate::packed::{put_items, unpacked, Blob, CodecError, Packed};
use vstd::prelude::*;
use vstd::utf8::encode_utf8;

verus! {

broadcast use lemma_le_bytes_len;

proof fn lemma_number_front(v: nat, w: nat, rest: Seq<u8>)
    requires
        v < range_of(w),
    ensures
        number_at(le_bytes(v, w) + rest, 0, w) == v,
    decreases w,
{
    lemma_number_within(le_bytes(v, w) + rest, 0, v, w);
}

proof fn lemma_number_within(b: Seq<u8>, i: int, v: nat, w: nat)
    requires
        0 <= i,
        i + w <= b.len(),
        v < range_of(w),
        b.subrange(i, i + w) =~= le_bytes(v, w),
    ensures
        number_at(b, i, w) == v,
    decreases w,
{
    if w > 0 {
        let u = (w - 1) as nat;
        let s = b.subrange(i, i + w);
        assert(s[0] == b[i]);
        assert(le_bytes(v, w)[0] == (v % 256) as u8);
        assert(s.skip(1) =~= b.subrange(i + 1, i + 1 + u));
        assert(le_bytes(v, w).skip(1) =~= le_bytes(v / 256, u));
        assert(v / 256 < range_of(u));
        lemma_number_within(b, i + 1, v / 256, u);
    }
}

proof fn lemma_ranges()
    ensures
        range_of(2) == 0x1_0000,
        range_of(4) == 0x1_0000_0000,
        range_of(8) == 0x1_0000_0000_0000_0000,
        range_of(16) == 0x1_0000_0000_0000_0000_0000_0000_0000_0000,
{
    reveal_with_fuel(range_of, 17);
}

/// Numbers and truth values.
pub proof fn law_packed_numbers(a: u16, b: u32, c: u64, d: i32, e: bool)
    ensures
        u16::put(a).len() == 2 && number_at(u16::put(a), 0, 2) == a,
        u32::put(b).len() == 4 && number_at(u32::put(b), 0, 4) == b,
        u64::put(c).len() == 8 && number_at(u64::put(c), 0, 8) == c,
        i32::put(d).len() == 4,
        d >= 0 ==> number_at(i32::put(d), 0, 4) == d,
        d < 0 ==> number_at(i32::put(d), 0, 4) == d + 0x1_0000_0000,
        bool::put(e) == if e {
            seq![1u8]
        } else {
            seq![0u8]
        },
{
    lemma_ranges();
    let none = Seq::<u8>::empty();
    lemma_number_front(a as nat, 2, none);
    assert(u16::put(a) + none =~= u16::put(a));
    lemma_number_front(b as nat, 4, none);
    assert(u32::put(b) + none =~= u32::put(b));
    lemma_number_front(c as nat, 8, none);
    assert(u64::put(c) + none =~= u64::put(c));
    let n = if d >= 0 {
        d as nat
    } else {
        (d + 0x1_0000_0000) as nat
    };
    lemma_number_front(n, 4, none);
    assert(i32::put(d) + none =~= i32::put(d));
}

/// Texts and byte strings: the length, then the bytes.
pub proof fn law_packed_texts(t: Seq<char>, d: Seq<u8>)
    ensures
        encode_utf8(t).len() <= u64::MAX ==> number_at(String::put(t), 0, 8) == encode_utf8(
            t,
        ).len(),
        String::put(t).skip(8) == encode_utf8(t),
        d.len() <= u64::MAX ==> number_at(Blob::put(d), 0, 8) == d.len(),
        Blob::put(d).skip(8) == d,
{
    lemma_ranges();
    if encode_utf8(t).len() <= u64::MAX {
        lemma_number_front(encode_utf8(t).len(), 8, encode_utf8(t));
    }
    if d.len() <= u64::MAX {
        lemma_number_front(d.len(), 8, d);
    }
    assert(String::put(t).skip(8) =~= encode_utf8(t));
    assert(Blob::put(d).skip(8) =~= d);
}

/// Lists: how many items, then the items in order.
pub proof fn law_packed_lists<T: Packed>(ms: Seq<T::M>, m: T::M)
    ensures
        ms.len() <= u64::MAX ==> number_at(Vec::<T>::put(ms), 0, 8) == ms.len(),
        Vec::<T>::put(ms).skip(8) == put_items::<T>(ms),
        put_items::<T>(Seq::empty()).len() == 0,
        put_items::<T>(ms.push(m)) == put_items::<T>(ms) + T::put(m),
{
    lemma_ranges();
    if ms.len() <= u64::MAX {
        lemma_number_front(ms.len(), 8, put_items::<T>(ms));
    }
    assert(Vec::<T>::put(ms).skip(8) =~= put_items::<T>(ms));
    assert(ms.push(m).drop_last() =~= ms);
}

/// What may be missing: a byte that tells, then the value where there is one.
pub proof fn law_packed_options<T: Packed>(m: T::M)
    ensures
        Option::<T>::put(None) == seq![0u8],
        Option::<T>::put(Some(m)) == seq![1u8] + T::put(m),
{
}

/// A node's id is sixteen bytes, the highest first; a mailbox's address is its
/// node's id and its number.
pub proof fn law_packed_ids(n: NodeId, m: MboxId)
    ensures
        NodeId::put(n).len() == 16,
        number_at(NodeId::put(n).reverse(), 0, 16) == n.0,
        NetId::put(NetId { node: n, mbox: m }).len() == 24,
        NetId::put(NetId { node: n, mbox: m }).take(16) == NodeId::put(n),
        number_at(NetId::put(NetId { node: n, mbox: m }), 16, 8) == m.0,
{
    lemma_ranges();
    let none = Seq::<u8>::empty();
    let b = NodeId::put(n);
    assert(b.reverse() =~= le_bytes(n.0 as nat, 16));
    lemma_number_front(n.0 as nat, 16, none);
    assert(le_bytes(n.0 as nat, 16) + none =~= le_bytes(n.0 as nat, 16));
    let a = NetId::put(NetId { node: n, mbox: m });
    assert(a.take(16) =~= b);
    assert(a.subrange(16, 24) =~= le_bytes(m.0 as nat, 8));
    lemma_number_within(a, 16, m.0 as nat, 8);
}

/// An ad: its fields in their order.
pub proof fn law_packed_ad(ad: NodeAdView)
    ensures
        NodeAd::put(ad) == NodeId::put(ad.node_id) + String::put(ad.hostname) + u32::put(
            ad.proto_version,
        ) + u64::put(ad.generation) + u64::put(ad.boot_time) + CpuInfo::put(ad.cpu) + MemInfo::put(
            ad.mem,
        ) + Vec::<GpuInfo>::put(ad.gpus) + Vec::<PciDevice>::put(ad.pci) + Vec::<NumaNode>::put(
            ad.numa,
        ) + LoadSample::put(ad.load),
{
    reveal(crate::ad::schema::node_ad_bytes);
    lemma_eleven(
        NodeId::put(ad.node_id),
        String::put(ad.hostname),
        u32::put(ad.proto_version),
        u64::put(ad.generation),
        u64::put(ad.boot_time),
        CpuInfo::put(ad.cpu),
        MemInfo::put(ad.mem),
        Vec::<GpuInfo>::put(ad.gpus),
        Vec::<PciDevice>::put(ad.pci),
        Vec::<NumaNode>::put(ad.numa),
        LoadSample::put(ad.load),
    );
}

proof fn lemma_eleven(
    a: Seq<u8>,
    b: Seq<u8>,
    c: Seq<u8>,
    d: Seq<u8>,
    e: Seq<u8>,
    f: Seq<u8>,
    g: Seq<u8>,
    h: Seq<u8>,
    i: Seq<u8>,
    j: Seq<u8>,
    k: Seq<u8>,
)
    ensures
        a + (b + (c + (d + (e + (f + (g + (h + (i + (j + k))))))))) == a + b + c + d + e + f + g + h
            + i + j + k,
{
    lemma_six(f, g, h, i, j, k);
    let t = f + g + h + i + j + k;
    lemma_six(a, b, c, d, e, t);
    let s = a + b + c + d + e;
    assert(s + t =~= s + f + g + h + i + j + k);
}

proof fn lemma_six(a: Seq<u8>, b: Seq<u8>, c: Seq<u8>, d: Seq<u8>, e: Seq<u8>, f: Seq<u8>)
    ensures
        a + (b + (c + (d + (e + f)))) == a + b + c + d + e + f,
{
    assert(a + (b + (c + (d + (e + f)))) =~= a + b + c + d + e + f);
}

/// The parts of an ad: their fields in their order.
pub proof fn law_packed_hardware(
    c: CpuInfoView,
    m: MemInfoView,
    g: GpuInfoView,
    p: PciDeviceView,
    n: NumaNodeView,
    l: LoadSampleView,
)
    ensures
        CpuInfo::put(c) == u32::put(c.cores_online) + u32::put(c.cores_physical) + u32::put(
            c.sockets,
        ) + String::put(c.model) + String::put(c.vendor) + String::put(c.arch) + u32::put(c.mhz),
        MemInfo::put(m) == u64::put(m.total_mb) + u64::put(m.available_mb),
        GpuInfo::put(g) == u32::put(g.index) + String::put(g.uuid) + String::put(g.name) + u16::put(
            g.pci_vendor,
        ) + u16::put(g.pci_device) + String::put(g.pci_addr) + u64::put(g.vram_total_mb) + u64::put(
            g.vram_free_mb,
        ) + (u32::put(g.compute_capability.0) + u32::put(g.compute_capability.1)) + Vec::<
            String,
        >::put(g.nvlink_peers) + u32::put(g.utilization_pct),
        PciDevice::put(p) == String::put(p.addr) + u16::put(p.vendor) + u16::put(p.device)
            + u32::put(p.class) + i32::put(p.numa_node) + Option::<u32>::put(p.iommu_group),
        NumaNode::put(n) == u32::put(n.id) + Vec::<u32>::put(n.cpus) + u64::put(n.mem_total_mb),
        LoadSample::put(l) == u32::put(l.loadavg_1m) + u32::put(l.loadavg_5m) + u32::put(
            l.loadavg_15m,
        ) + u32::put(l.cpu_pct) + u32::put(l.mem_pct) + u32::put(l.task_count),
{
    lemma_six(
        u32::put(c.cores_online),
        u32::put(c.cores_physical),
        u32::put(c.sockets),
        String::put(c.model),
        String::put(c.vendor),
        String::put(c.arch) + u32::put(c.mhz),
    );
    let s = u32::put(c.cores_online) + u32::put(c.cores_physical) + u32::put(c.sockets)
        + String::put(c.model) + String::put(c.vendor);
    assert(s + (String::put(c.arch) + u32::put(c.mhz)) =~= s + String::put(c.arch) + u32::put(
        c.mhz,
    ));
    lemma_eleven(
        u32::put(g.index),
        String::put(g.uuid),
        String::put(g.name),
        u16::put(g.pci_vendor),
        u16::put(g.pci_device),
        String::put(g.pci_addr),
        u64::put(g.vram_total_mb),
        u64::put(g.vram_free_mb),
        u32::put(g.compute_capability.0) + u32::put(g.compute_capability.1),
        Vec::<String>::put(g.nvlink_peers),
        u32::put(g.utilization_pct),
    );
    lemma_six(
        String::put(p.addr),
        u16::put(p.vendor),
        u16::put(p.device),
        u32::put(p.class),
        i32::put(p.numa_node),
        Option::<u32>::put(p.iommu_group),
    );
    let x = u32::put(n.id);
    let y = Vec::<u32>::put(n.cpus);
    let z = u64::put(n.mem_total_mb);
    assert(x + (y + z) =~= x + y + z);
    lemma_six(
        u32::put(l.loadavg_1m),
        u32::put(l.loadavg_5m),
        u32::put(l.loadavg_15m),
        u32::put(l.cpu_pct),
        u32::put(l.mem_pct),
        u32::put(l.task_count),
    );
}

/// The messages about ads: a number for the variant, then what it carries.
pub proof fn law_packed_ad_messages(
    ad: NodeAdView,
    node_id: NodeId,
    generation: u64,
    r: AdRequestView,
)
    ensures
        AdGossip::put(AdGossipView::Full(ad)) == u32::put(0) + NodeAd::put(ad),
        AdGossip::put(AdGossipView::Delta { node_id, generation }) == u32::put(1) + NodeId::put(
            node_id,
        ) + u64::put(generation),
        AdRequest::put(r) == NodeId::put(r.from),
{
    let a = u32::put(1);
    let b = NodeId::put(node_id);
    let c = u64::put(generation);
    assert(a + (b + c) =~= a + b + c);
}

/// The messages of mail and services: their fields in their order.
pub proof fn law_packed_messages(
    m: MailSendView,
    f: MailDeliveryFailureView,
    a: ServiceAdView,
    g: ServiceForgetView,
    e: ServiceSyncEntryView,
    r: ServiceSyncResponseView,
)
    ensures
        MailSend::put(m) == NetId::put(m.from) + NetId::put(m.to) + Blob::put(m.payload),
        MailDeliveryFailure::put(f) == NetId::put(f.to) + u32::put(
            match f.reason {
                DeliveryFailureReason::UnknownMbox => 0,
                DeliveryFailureReason::MboxFull => 1,
                DeliveryFailureReason::NodeUnreachable => 2,
            },
        ),
        ServiceAd::put(a) == String::put(a.name) + NetId::put(a.net_id) + u64::put(a.lamport),
        ServiceForget::put(g) == String::put(g.name) + NetId::put(g.net_id) + u64::put(g.lamport),
        ServiceSyncEntry::put(e) == String::put(e.name) + NetId::put(e.net_id) + u64::put(
            e.lamport,
        ) + bool::put(e.tombstone),
        ServiceSyncResponse::put(r) == Vec::<ServiceSyncEntry>::put(r.entries),
{
    assert(NetId::put(m.from) + (NetId::put(m.to) + Blob::put(m.payload)) =~= NetId::put(m.from)
        + NetId::put(m.to) + Blob::put(m.payload));
    assert(String::put(a.name) + (NetId::put(a.net_id) + u64::put(a.lamport)) =~= String::put(
        a.name,
    ) + NetId::put(a.net_id) + u64::put(a.lamport));
    assert(String::put(g.name) + (NetId::put(g.net_id) + u64::put(g.lamport)) =~= String::put(
        g.name,
    ) + NetId::put(g.net_id) + u64::put(g.lamport));
    let x = String::put(e.name);
    let y = NetId::put(e.net_id);
    let z = u64::put(e.lamport);
    let w = bool::put(e.tombstone);
    assert(x + (y + (z + w)) =~= x + y + z + w);
}

/// A payload with bytes left over is refused, and told how many.
pub proof fn law_nothing_left_over<T: Packed>(s: Seq<u8>)
    ensures
        T::take(s) is None ==> unpacked::<T>(s) == Err::<T::M, CodecError>(CodecError::Malformed),
        T::take(s) matches Some((m, rest)) ==> (rest.len() == 0 ==> unpacked::<T>(s) == Ok::<
            T::M,
            CodecError,
        >(m)),
        T::take(s) matches Some((m, rest)) ==> (rest.len() > 0 ==> unpacked::<T>(s) == Err::<
            T::M,
            CodecError,
        >(CodecError::Trailing(rest.len() as usize))),
{
}

} // verus!

//! On-wire schema for `NodeAd` and the gossip envelope.
use crate::ident::NodeId;
use crate::packed::{Input, Packed};
use vstd::prelude::*;

verus! {

/// What a node says of its processors.
#[derive(Debug, PartialEq, Eq)]
pub struct CpuInfo {
    pub cores_online: u32,
    pub cores_physical: u32,
    pub sockets: u32,
    pub model: String,
    pub vendor: String,
    pub arch: String,
    pub mhz: u32,
}

/// What a [`CpuInfo`] says.
pub struct CpuInfoView {
    pub cores_online: u32,
    pub cores_physical: u32,
    pub sockets: u32,
    pub model: Seq<char>,
    pub vendor: Seq<char>,
    pub arch: Seq<char>,
    pub mhz: u32,
}

impl View for CpuInfo {
    type V = CpuInfoView;

    open spec fn view(&self) -> CpuInfoView {
        CpuInfoView {
            cores_online: self.cores_online,
            cores_physical: self.cores_physical,
            sockets: self.sockets,
            model: self.model@,
            vendor: self.vendor@,
            arch: self.arch@,
            mhz: self.mhz,
        }
    }
}

impl Clone for CpuInfo {
    fn clone(&self) -> (r: Self)
        ensures
            r@ == self@,
    {
        self.copy()
    }
}

/// The fields of a [`CpuInfo`] in order.
pub type CpuInfoFields = (u32, (u32, (u32, (String, (String, (String, u32))))));

impl Packed for CpuInfo {
    type M = CpuInfoView;

    open spec fn model(&self) -> CpuInfoView {
        self@
    }

    open spec fn fits(m: CpuInfoView) -> bool {
        <CpuInfoFields as Packed>::fits((m.cores_online, (m.cores_physical, (m.sockets, (m.model, (m.vendor, (m.arch, m.mhz)))))))
    }

    open spec fn put(m: CpuInfoView) -> Seq<u8> {
        <CpuInfoFields as Packed>::put((m.cores_online, (m.cores_physical, (m.sockets, (m.model, (m.vendor, (m.arch, m.mhz)))))))
    }

    open spec fn take(s: Seq<u8>) -> Option<(CpuInfoView, Seq<u8>)> {
        match <CpuInfoFields as Packed>::take(s) {
            None => None,
            Some(((cores_online, (cores_physical, (sockets, (model, (vendor, (arch, mhz)))))), s)) => Some((CpuInfoView { cores_online, cores_physical, sockets, model, vendor, arch, mhz }, s)),
        }
    }

    proof fn roundtrip(m: CpuInfoView, rest: Seq<u8>) {
        <CpuInfoFields as Packed>::roundtrip((m.cores_online, (m.cores_physical, (m.sockets, (m.model, (m.vendor, (m.arch, m.mhz)))))), rest);
    }

    proof fn canonical(s: Seq<u8>) {
        <CpuInfoFields as Packed>::canonical(s);
    }

    fn write(&self, out: &mut Vec<u8>) {
        let ghost before = out@;
        self.cores_online.write(out);
        self.cores_physical.write(out);
        self.sockets.write(out);
        self.model.write(out);
        self.vendor.write(out);
        self.arch.write(out);
        self.mhz.write(out);
        assert(out@ =~= before + Self::put(self@));
    }

    fn copy(&self) -> (x: Self) {
        CpuInfo {
            cores_online: self.cores_online.copy(),
            cores_physical: self.cores_physical.copy(),
            sockets: self.sockets.copy(),
            model: self.model.copy(),
            vendor: self.vendor.copy(),
            arch: self.arch.copy(),
            mhz: self.mhz.copy(),
        }
    }

    fn read(r: &mut Input<'_>) -> (x: Option<Self>) {
        match <CpuInfoFields as Packed>::read(r) {
            None => None,
            Some((cores_online, (cores_physical, (sockets, (model, (vendor, (arch, mhz))))))) => Some(CpuInfo { cores_online, cores_physical, sockets, model, vendor, arch, mhz }),
        }
    }
}

/// What a node says of its memory.
#[derive(Debug, PartialEq, Eq)]
pub struct MemInfo {
    pub total_mb: u64,
    pub available_mb: u64,
}

/// What a [`MemInfo`] says.
pub struct MemInfoView {
    pub total_mb: u64,
    pub available_mb: u64,
}

impl View for MemInfo {
    type V = MemInfoView;

    open spec fn view(&self) -> MemInfoView {
        MemInfoView {
            total_mb: self.total_mb,
            available_mb: self.available_mb,
        }
    }
}

impl Clone for MemInfo {
    fn clone(&self) -> (r: Self)
        ensures
            r@ == self@,
    {
        self.copy()
    }
}

/// The fields of a [`MemInfo`] in order.
pub type MemInfoFields = (u64, u64);

impl Packed for MemInfo {
    type M = MemInfoView;

    open spec fn model(&self) -> MemInfoView {
        self@
    }

    open spec fn fits(m: MemInfoView) -> bool {
        <MemInfoFields as Packed>::fits((m.total_mb, m.available_mb))
    }

    open spec fn put(m: MemInfoView) -> Seq<u8> {
        <MemInfoFields as Packed>::put((m.total_mb, m.available_mb))
    }

    open spec fn take(s: Seq<u8>) -> Option<(MemInfoView, Seq<u8>)> {
        match <MemInfoFields as Packed>::take(s) {
            None => None,
            Some(((total_mb, available_mb), s)) => Some((MemInfoView { total_mb, available_mb }, s)),
        }
    }

    proof fn roundtrip(m: MemInfoView, rest: Seq<u8>) {
        <MemInfoFields as Packed>::roundtrip((m.total_mb, m.available_mb), rest);
    }

    proof fn canonical(s: Seq<u8>) {
        <MemInfoFields as Packed>::canonical(s);
    }

    fn write(&self, out: &mut Vec<u8>) {
        let ghost before = out@;
        self.total_mb.write(out);
        self.available_mb.write(out);
        assert(out@ =~= before + Self::put(self@));
    }

    fn copy(&self) -> (x: Self) {
        MemInfo {
            total_mb: self.total_mb.copy(),
            available_mb: self.available_mb.copy(),
        }
    }

    fn read(r: &mut Input<'_>) -> (x: Option<Self>) {
        match <MemInfoFields as Packed>::read(r) {
            None => None,
            Some((total_mb, available_mb)) => Some(MemInfo { total_mb, available_mb }),
        }
    }
}

/// What a node says of one GPU.
#[derive(Debug, PartialEq, Eq)]
pub struct GpuInfo {
    pub index: u32,
    pub uuid: String,
    pub name: String,
    pub pci_vendor: u16,
    pub pci_device: u16,
    pub pci_addr: String,
    pub vram_total_mb: u64,
    pub vram_free_mb: u64,
    pub compute_capability: (u32, u32),
    pub nvlink_peers: Vec<String>,
    pub utilization_pct: u32,
}

/// What a [`GpuInfo`] says.
pub struct GpuInfoView {
    pub index: u32,
    pub uuid: Seq<char>,
    pub name: Seq<char>,
    pub pci_vendor: u16,
    pub pci_device: u16,
    pub pci_addr: Seq<char>,
    pub vram_total_mb: u64,
    pub vram_free_mb: u64,
    pub compute_capability: (u32, u32),
    pub nvlink_peers: Seq<Seq<char>>,
    pub utilization_pct: u32,
}

impl View for GpuInfo {
    type V = GpuInfoView;

    open spec fn view(&self) -> GpuInfoView {
        GpuInfoView {
            index: self.index,
            uuid: self.uuid@,
            name: self.name@,
            pci_vendor: self.pci_vendor,
            pci_device: self.pci_device,
            pci_addr: self.pci_addr@,
            vram_total_mb: self.vram_total_mb,
            vram_free_mb: self.vram_free_mb,
            compute_capability: self.compute_capability,
            nvlink_peers: self.nvlink_peers.model(),
            utilization_pct: self.utilization_pct,
        }
    }
}

impl Clone for GpuInfo {
    fn clone(&self) -> (r: Self)
        ensures
            r@ == self@,
    {
        self.copy()
    }
}

/// The fields of a [`GpuInfo`] in order.
pub type GpuInfoFields = (u32, (String, (String, (u16, (u16, (String, (u64, (u64, ((u32, u32), (Vec<String>, u32))))))))));

impl Packed for GpuInfo {
    type M = GpuInfoView;

    open spec fn model(&self) -> GpuInfoView {
        self@
    }

    open spec fn fits(m: GpuInfoView) -> bool {
        <GpuInfoFields as Packed>::fits((m.index, (m.uuid, (m.name, (m.pci_vendor, (m.pci_device, (m.pci_addr, (m.vram_total_mb, (m.vram_free_mb, (m.compute_capability, (m.nvlink_peers, m.utilization_pct)))))))))))
    }

    open spec fn put(m: GpuInfoView) -> Seq<u8> {
        <GpuInfoFields as Packed>::put((m.index, (m.uuid, (m.name, (m.pci_vendor, (m.pci_device, (m.pci_addr, (m.vram_total_mb, (m.vram_free_mb, (m.compute_capability, (m.nvlink_peers, m.utilization_pct)))))))))))
    }

    open spec fn take(s: Seq<u8>) -> Option<(GpuInfoView, Seq<u8>)> {
        match <GpuInfoFields as Packed>::take(s) {
            None => None,
            Some(((index, (uuid, (name, (pci_vendor, (pci_device, (pci_addr, (vram_total_mb, (vram_free_mb, (compute_capability, (nvlink_peers, utilization_pct)))))))))), s)) => Some((GpuInfoView { index, uuid, name, pci_vendor, pci_device, pci_addr, vram_total_mb, vram_free_mb, compute_capability, nvlink_peers, utilization_pct }, s)),
        }
    }

    proof fn roundtrip(m: GpuInfoView, rest: Seq<u8>) {
        <GpuInfoFields as Packed>::roundtrip((m.index, (m.uuid, (m.name, (m.pci_vendor, (m.pci_device, (m.pci_addr, (m.vram_total_mb, (m.vram_free_mb, (m.compute_capability, (m.nvlink_peers, m.utilization_pct)))))))))), rest);
    }

    proof fn canonical(s: Seq<u8>) {
        <GpuInfoFields as Packed>::canonical(s);
    }

    fn write(&self, out: &mut Vec<u8>) {
        let ghost before = out@;
        self.index.write(out);
        self.uuid.write(out);
        self.name.write(out);
        self.pci_vendor.write(out);
        self.pci_device.write(out);
        self.pci_addr.write(out);
        self.vram_total_mb.write(out);
        self.vram_free_mb.write(out);
        self.compute_capability.write(out);
        self.nvlink_peers.write(out);
        self.utilization_pct.write(out);
        assert(out@ =~= before + Self::put(self@));
    }

    fn copy(&self) -> (x: Self) {
        GpuInfo {
            index: self.index.copy(),
            uuid: self.uuid.copy(),
            name: self.name.copy(),
            pci_vendor: self.pci_vendor.copy(),
            pci_device: self.pci_device.copy(),
            pci_addr: self.pci_addr.copy(),
            vram_total_mb: self.vram_total_mb.copy(),
            vram_free_mb: self.vram_free_mb.copy(),
            compute_capability: self.compute_capability.copy(),
            nvlink_peers: self.nvlink_peers.copy(),
            utilization_pct: self.utilization_pct.copy(),
        }
    }

    fn read(r: &mut Input<'_>) -> (x: Option<Self>) {
        match <GpuInfoFields as Packed>::read(r) {
            None => None,
            Some((index, (uuid, (name, (pci_vendor, (pci_device, (pci_addr, (vram_total_mb, (vram_free_mb, (compute_capability, (nvlink_peers, utilization_pct))))))))))) => Some(GpuInfo { index, uuid, name, pci_vendor, pci_device, pci_addr, vram_total_mb, vram_free_mb, compute_capability, nvlink_peers, utilization_pct }),
        }
    }
}

/// What a node says of one PCI device.
#[derive(Debug, PartialEq, Eq)]
pub struct PciDevice {
    pub addr: String,
    pub vendor: u16,
    pub device: u16,
    pub class: u32,
    /// `-1` means "no NUMA association" (single-socket boxes; some PCI
    /// switches expose this as `-1` in sysfs).
    pub numa_node: i32,
    pub iommu_group: Option<u32>,
}

/// What a [`PciDevice`] says.
pub struct PciDeviceView {
    pub addr: Seq<char>,
    pub vendor: u16,
    pub device: u16,
    pub class: u32,
    pub numa_node: i32,
    pub iommu_group: Option<u32>,
}

impl View for PciDevice {
    type V = PciDeviceView;

    open spec fn view(&self) -> PciDeviceView {
        PciDeviceView {
            addr: self.addr@,
            vendor: self.vendor,
            device: self.device,
            class: self.class,
            numa_node: self.numa_node,
            iommu_group: self.iommu_group,
        }
    }
}

impl Clone for PciDevice {
    fn clone(&self) -> (r: Self)
        ensures
            r@ == self@,
    {
        self.copy()
    }
}

/// The fields of a [`PciDevice`] in order.
pub type PciDeviceFields = (String, (u16, (u16, (u32, (i32, Option<u32>)))));

impl Packed for PciDevice {
    type M = PciDeviceView;

    open spec fn model(&self) -> PciDeviceView {
        self@
    }

    open spec fn fits(m: PciDeviceView) -> bool {
        <PciDeviceFields as Packed>::fits((m.addr, (m.vendor, (m.device, (m.class, (m.numa_node, m.iommu_group))))))
    }

    open spec fn put(m: PciDeviceView) -> Seq<u8> {
        <PciDeviceFields as Packed>::put((m.addr, (m.vendor, (m.device, (m.class, (m.numa_node, m.iommu_group))))))
    }

    open spec fn take(s: Seq<u8>) -> Option<(PciDeviceView, Seq<u8>)> {
        match <PciDeviceFields as Packed>::take(s) {
            None => None,
            Some(((addr, (vendor, (device, (class, (numa_node, iommu_group))))), s)) => Some((PciDeviceView { addr, vendor, device, class, numa_node, iommu_group }, s)),
        }
    }

    proof fn roundtrip(m: PciDeviceView, rest: Seq<u8>) {
        <PciDeviceFields as Packed>::roundtrip((m.addr, (m.vendor, (m.device, (m.class, (m.numa_node, m.iommu_group))))), rest);
    }

    proof fn canonical(s: Seq<u8>) {
        <PciDeviceFields as Packed>::canonical(s);
    }

    fn write(&self, out: &mut Vec<u8>) {
        let ghost before = out@;
        self.addr.write(out);
        self.vendor.write(out);
        self.device.write(out);
        self.class.write(out);
        self.numa_node.write(out);
        self.iommu_group.write(out);
        assert(out@ =~= before + Self::put(self@));
    }

    fn copy(&self) -> (x: Self) {
        PciDevice {
            addr: self.addr.copy(),
            vendor: self.vendor.copy(),
            device: self.device.copy(),
            class: self.class.copy(),
            numa_node: self.numa_node.copy(),
            iommu_group: self.iommu_group.copy(),
        }
    }

    fn read(r: &mut Input<'_>) -> (x: Option<Self>) {
        match <PciDeviceFields as Packed>::read(r) {
            None => None,
            Some((addr, (vendor, (device, (class, (numa_node, iommu_group)))))) => Some(PciDevice { addr, vendor, device, class, numa_node, iommu_group }),
        }
    }
}

/// What a node says of one NUMA node.
#[derive(Debug, PartialEq, Eq)]
pub struct NumaNode {
    pub id: u32,
    pub cpus: Vec<u32>,
    pub mem_total_mb: u64,
}

/// What a [`NumaNode`] says.
pub struct NumaNodeView {
    pub id: u32,
    pub cpus: Seq<u32>,
    pub mem_total_mb: u64,
}

impl View for NumaNode {
    type V = NumaNodeView;

    open spec fn view(&self) -> NumaNodeView {
        NumaNodeView {
            id: self.id,
            cpus: self.cpus.model(),
            mem_total_mb: self.mem_total_mb,
        }
    }
}

impl Clone for NumaNode {
    fn clone(&self) -> (r: Self)
        ensures
            r@ == self@,
    {
        self.copy()
    }
}

/// The fields of a [`NumaNode`] in order.
pub type NumaNodeFields = (u32, (Vec<u32>, u64));

impl Packed for NumaNode {
    type M = NumaNodeView;

    open spec fn model(&self) -> NumaNodeView {
        self@
    }

    open spec fn fits(m: NumaNodeView) -> bool {
        <NumaNodeFields as Packed>::fits((m.id, (m.cpus, m.mem_total_mb)))
    }

    open spec fn put(m: NumaNodeView) -> Seq<u8> {
        <NumaNodeFields as Packed>::put((m.id, (m.cpus, m.mem_total_mb)))
    }

    open spec fn take(s: Seq<u8>) -> Option<(NumaNodeView, Seq<u8>)> {
        match <NumaNodeFields as Packed>::take(s) {
            None => None,
            Some(((id, (cpus, mem_total_mb)), s)) => Some((NumaNodeView { id, cpus, mem_total_mb }, s)),
        }
    }

    proof fn roundtrip(m: NumaNodeView, rest: Seq<u8>) {
        <NumaNodeFields as Packed>::roundtrip((m.id, (m.cpus, m.mem_total_mb)), rest);
    }

    proof fn canonical(s: Seq<u8>) {
        <NumaNodeFields as Packed>::canonical(s);
    }

    fn write(&self, out: &mut Vec<u8>) {
        let ghost before = out@;
        self.id.write(out);
        self.cpus.write(out);
        self.mem_total_mb.write(out);
        assert(out@ =~= before + Self::put(self@));
    }

    fn copy(&self) -> (x: Self) {
        NumaNode {
            id: self.id.copy(),
            cpus: self.cpus.copy(),
            mem_total_mb: self.mem_total_mb.copy(),
        }
    }

    fn read(r: &mut Input<'_>) -> (x: Option<Self>) {
        match <NumaNodeFields as Packed>::read(r) {
            None => None,
            Some((id, (cpus, mem_total_mb))) => Some(NumaNode { id, cpus, mem_total_mb }),
        }
    }
}

/// How busy a node is.
#[derive(Debug, PartialEq, Eq)]
pub struct LoadSample {
    /// Load average times 1000 (so 1.5 is 1500). Three fixed decimals avoid
    /// floats on the wire.
    pub loadavg_1m: u32,
    pub loadavg_5m: u32,
    pub loadavg_15m: u32,
    pub cpu_pct: u32,
    pub mem_pct: u32,
    pub task_count: u32,
}

/// What a [`LoadSample`] says.
pub struct LoadSampleView {
    pub loadavg_1m: u32,
    pub loadavg_5m: u32,
    pub loadavg_15m: u32,
    pub cpu_pct: u32,
    pub mem_pct: u32,
    pub task_count: u32,
}

impl View for LoadSample {
    type V = LoadSampleView;

    open spec fn view(&self) -> LoadSampleView {
        LoadSampleView {
            loadavg_1m: self.loadavg_1m,
            loadavg_5m: self.loadavg_5m,
            loadavg_15m: self.loadavg_15m,
            cpu_pct: self.cpu_pct,
            mem_pct: self.mem_pct,
            task_count: self.task_count,
        }
    }
}

impl Clone for LoadSample {
    fn clone(&self) -> (r: Self)
        ensures
            r@ == self@,
    {
        self.copy()
    }
}

/// The fields of a [`LoadSample`] in order.
pub type LoadSampleFields = (u32, (u32, (u32, (u32, (u32, u32)))));

impl Packed for LoadSample {
    type M = LoadSampleView;

    open spec fn model(&self) -> LoadSampleView {
        self@
    }

    open spec fn fits(m: LoadSampleView) -> bool {
        <LoadSampleFields as Packed>::fits((m.loadavg_1m, (m.loadavg_5m, (m.loadavg_15m, (m.cpu_pct, (m.mem_pct, m.task_count))))))
    }

    open spec fn put(m: LoadSampleView) -> Seq<u8> {
        <LoadSampleFields as Packed>::put((m.loadavg_1m, (m.loadavg_5m, (m.loadavg_15m, (m.cpu_pct, (m.mem_pct, m.task_count))))))
    }

    open spec fn take(s: Seq<u8>) -> Option<(LoadSampleView, Seq<u8>)> {
        match <LoadSampleFields as Packed>::take(s) {
            None => None,
            Some(((loadavg_1m, (loadavg_5m, (loadavg_15m, (cpu_pct, (mem_pct, task_count))))), s)) => Some((LoadSampleView { loadavg_1m, loadavg_5m, loadavg_15m, cpu_pct, mem_pct, task_count }, s)),
        }
    }

    proof fn roundtrip(m: LoadSampleView, rest: Seq<u8>) {
        <LoadSampleFields as Packed>::roundtrip((m.loadavg_1m, (m.loadavg_5m, (m.loadavg_15m, (m.cpu_pct, (m.mem_pct, m.task_count))))), rest);
    }

    proof fn canonical(s: Seq<u8>) {
        <LoadSampleFields as Packed>::canonical(s);
    }

    fn write(&self, out: &mut Vec<u8>) {
        let ghost before = out@;
        self.loadavg_1m.write(out);
        self.loadavg_5m.write(out);
        self.loadavg_15m.write(out);
        self.cpu_pct.write(out);
        self.mem_pct.write(out);
        self.task_count.write(out);
        assert(out@ =~= before + Self::put(self@));
    }

    fn copy(&self) -> (x: Self) {
        LoadSample {
            loadavg_1m: self.loadavg_1m.copy(),
            loadavg_5m: self.loadavg_5m.copy(),
            loadavg_15m: self.loadavg_15m.copy(),
            cpu_pct: self.cpu_pct.copy(),
            mem_pct: self.mem_pct.copy(),
            task_count: self.task_count.copy(),
        }
    }

    fn read(r: &mut Input<'_>) -> (x: Option<Self>) {
        match <LoadSampleFields as Packed>::read(r) {
            None => None,
            Some((loadavg_1m, (loadavg_5m, (loadavg_15m, (cpu_pct, (mem_pct, task_count)))))) => Some(LoadSample { loadavg_1m, loadavg_5m, loadavg_15m, cpu_pct, mem_pct, task_count }),
        }
    }
}

/// What a node says of itself.
#[derive(Debug, PartialEq, Eq)]
pub struct NodeAd {
    pub node_id: NodeId,
    pub hostname: String,
    pub proto_version: u32,
    /// Monotonic per-(node_id, boot_time) version counter. Bumped on any
    /// substantive change to the own ad.
    pub generation: u64,
    /// Seconds since the Unix epoch at daemon start. Combined with
    /// `generation` to break ties so a daemon restart cannot "reset" its
    /// ad to an older state.
    pub boot_time: u64,
    pub cpu: CpuInfo,
    pub mem: MemInfo,
    pub gpus: Vec<GpuInfo>,
    pub pci: Vec<PciDevice>,
    pub numa: Vec<NumaNode>,
    pub load: LoadSample,
}

/// What a [`NodeAd`] says.
pub struct NodeAdView {
    pub node_id: NodeId,
    pub hostname: Seq<char>,
    pub proto_version: u32,
    pub generation: u64,
    pub boot_time: u64,
    pub cpu: CpuInfoView,
    pub mem: MemInfoView,
    pub gpus: Seq<GpuInfoView>,
    pub pci: Seq<PciDeviceView>,
    pub numa: Seq<NumaNodeView>,
    pub load: LoadSampleView,
}

impl View for NodeAd {
    type V = NodeAdView;

    open spec fn view(&self) -> NodeAdView {
        NodeAdView {
            node_id: self.node_id,
            hostname: self.hostname@,
            proto_version: self.proto_version,
            generation: self.generation,
            boot_time: self.boot_time,
            cpu: self.cpu.model(),
            mem: self.mem.model(),
            gpus: self.gpus.model(),
            pci: self.pci.model(),
            numa: self.numa.model(),
            load: self.load.model(),
        }
    }
}

impl Clone for NodeAd {
    fn clone(&self) -> (r: Self)
        ensures
            r@ == self@,
    {
        self.copy()
    }
}

/// The fields of a [`NodeAd`] in order.
pub type NodeAdFields = (NodeId, (String, (u32, (u64, (u64, (CpuInfo, (MemInfo, (Vec<GpuInfo>, (Vec<PciDevice>, (Vec<NumaNode>, LoadSample))))))))));

/// The encoding of a [`NodeAd`]: its fields in order.
#[verifier::opaque]
pub open spec fn node_ad_bytes(m: NodeAdView) -> Seq<u8> {
    <NodeAdFields as Packed>::put((m.node_id, (m.hostname, (m.proto_version, (m.generation, (m.boot_time, (m.cpu, (m.mem, (m.gpus, (m.pci, (m.numa, m.load)))))))))))
}

/// The [`NodeAd`] at the front of the bytes.
#[verifier::opaque]
pub open spec fn take_node_ad(s: Seq<u8>) -> Option<(NodeAdView, Seq<u8>)> {
    match <NodeAdFields as Packed>::take(s) {
        None => None,
        Some(((node_id, (hostname, (proto_version, (generation, (boot_time, (cpu, (mem, (gpus, (pci, (numa, load)))))))))), s)) => Some((NodeAdView { node_id, hostname, proto_version, generation, boot_time, cpu, mem, gpus, pci, numa, load }, s)),
    }
}

proof fn lemma_regroup(b: Seq<u8>, p: Seq<Seq<u8>>)
    requires
        p.len() == 11,
    ensures
        b + p[0] + p[1] + p[2] + p[3] + p[4] + p[5] + p[6] + p[7] + p[8] + p[9] + p[10] == b + (
        p[0] + (p[1] + (p[2] + (p[3] + (p[4] + (p[5] + (p[6] + (p[7] + (p[8] + (p[9]
            + p[10])))))))))),
{
    assert(b + p[0] + p[1] + p[2] + p[3] + p[4] + p[5] + p[6] + p[7] + p[8] + p[9] + p[10] =~= b + (
    p[0] + (p[1] + (p[2] + (p[3] + (p[4] + (p[5] + (p[6] + (p[7] + (p[8] + (p[9]
        + p[10])))))))))));
}

#[verifier::spinoff_prover]
#[verifier::rlimit(60)]
proof fn lemma_written(b: Seq<u8>, m: NodeAdView)
    ensures
        b + <NodeId as Packed>::put(m.node_id) + <String as Packed>::put(m.hostname) + <u32 as Packed>::put(m.proto_version) + <u64 as Packed>::put(m.generation) + <u64 as Packed>::put(m.boot_time) + <CpuInfo as Packed>::put(m.cpu) + <MemInfo as Packed>::put(m.mem) + <Vec<GpuInfo> as Packed>::put(m.gpus) + <Vec<PciDevice> as Packed>::put(m.pci) + <Vec<NumaNode> as Packed>::put(m.numa) + <LoadSample as Packed>::put(m.load) == b + node_ad_bytes(m),
{
    reveal(node_ad_bytes);
    lemma_regroup(
        b,
        seq![
            <NodeId as Packed>::put(m.node_id),
            <String as Packed>::put(m.hostname),
            <u32 as Packed>::put(m.proto_version),
            <u64 as Packed>::put(m.generation),
            <u64 as Packed>::put(m.boot_time),
            <CpuInfo as Packed>::put(m.cpu),
            <MemInfo as Packed>::put(m.mem),
            <Vec<GpuInfo> as Packed>::put(m.gpus),
            <Vec<PciDevice> as Packed>::put(m.pci),
            <Vec<NumaNode> as Packed>::put(m.numa),
            <LoadSample as Packed>::put(m.load),
        ],
    );
}

impl Packed for NodeAd {
    type M = NodeAdView;

    open spec fn model(&self) -> NodeAdView {
        self@
    }

    open spec fn fits(m: NodeAdView) -> bool {
        <NodeAdFields as Packed>::fits((m.node_id, (m.hostname, (m.proto_version, (m.generation, (m.boot_time, (m.cpu, (m.mem, (m.gpus, (m.pci, (m.numa, m.load)))))))))))
    }

    open spec fn put(m: NodeAdView) -> Seq<u8> {
        node_ad_bytes(m)
    }

    open spec fn take(s: Seq<u8>) -> Option<(NodeAdView, Seq<u8>)> {
        take_node_ad(s)
    }

    proof fn roundtrip(m: NodeAdView, rest: Seq<u8>) {
        reveal(node_ad_bytes);
        reveal(take_node_ad);
        <NodeAdFields as Packed>::roundtrip((m.node_id, (m.hostname, (m.proto_version, (m.generation, (m.boot_time, (m.cpu, (m.mem, (m.gpus, (m.pci, (m.numa, m.load)))))))))), rest);
    }

    proof fn canonical(s: Seq<u8>) {
        reveal(node_ad_bytes);
        reveal(take_node_ad);
        <NodeAdFields as Packed>::canonical(s);
    }

    fn write(&self, out: &mut Vec<u8>) {
        let ghost before = out@;
        self.node_id.write(out);
        self.hostname.write(out);
        self.proto_version.write(out);
        self.generation.write(out);
        self.boot_time.write(out);
        self.cpu.write(out);
        self.mem.write(out);
        self.gpus.write(out);
        self.pci.write(out);
        self.numa.write(out);
        self.load.write(out);
        proof {
            lemma_written(before, self@);
        }
    }

    fn copy(&self) -> (x: Self) {
        NodeAd {
            node_id: self.node_id.copy(),
            hostname: self.hostname.copy(),
            proto_version: self.proto_version.copy(),
            generation: self.generation.copy(),
            boot_time: self.boot_time.copy(),
            cpu: self.cpu.copy(),
            mem: self.mem.copy(),
            gpus: self.gpus.copy(),
            pci: self.pci.copy(),
            numa: self.numa.copy(),
            load: self.load.copy(),
        }
    }

    fn read(r: &mut Input<'_>) -> (x: Option<Self>) {
        proof {
            reveal(take_node_ad);
        }
        match <NodeAdFields as Packed>::read(r) {
            None => None,
            Some((node_id, (hostname, (proto_version, (generation, (boot_time, (cpu, (mem, (gpus, (pci, (numa, load))))))))))) => Some(NodeAd { node_id, hostname, proto_version, generation, boot_time, cpu, mem, gpus, pci, numa, load }),
        }
    }
}

/// A node asks its peers for their ads.
#[derive(Debug, PartialEq, Eq)]
pub struct AdRequest {
    pub from: NodeId,
}

/// What a [`AdRequest`] says.
pub struct AdRequestView {
    pub from: NodeId,
}

impl View for AdRequest {
    type V = AdRequestView;

    open spec fn view(&self) -> AdRequestView {
        AdRequestView {
            from: self.from,
        }
    }
}

impl Clone for AdRequest {
    fn clone(&self) -> (r: Self)
        ensures
            r@ == self@,
    {
        self.copy()
    }
}

/// The fields of a [`AdRequest`] in order.
pub type AdRequestFields = NodeId;

impl Packed for AdRequest {
    type M = AdRequestView;

    open spec fn model(&self) -> AdRequestView {
        self@
    }

    open spec fn fits(m: AdRequestView) -> bool {
        <AdRequestFields as Packed>::fits(m.from)
    }

    open spec fn put(m: AdRequestView) -> Seq<u8> {
        <AdRequestFields as Packed>::put(m.from)
    }

    open spec fn take(s: Seq<u8>) -> Option<(AdRequestView, Seq<u8>)> {
        match <AdRequestFields as Packed>::take(s) {
            None => None,
            Some((from, s)) => Some((AdRequestView { from }, s)),
        }
    }

    proof fn roundtrip(m: AdRequestView, rest: Seq<u8>) {
        <AdRequestFields as Packed>::roundtrip(m.from, rest);
    }

    proof fn canonical(s: Seq<u8>) {
        <AdRequestFields as Packed>::canonical(s);
    }

    fn write(&self, out: &mut Vec<u8>) {
        let ghost before = out@;
        self.from.write(out);
        assert(out@ =~= before + Self::put(self@));
    }

    fn copy(&self) -> (x: Self) {
        AdRequest {
            from: self.from.copy(),
        }
    }

    fn read(r: &mut Input<'_>) -> (x: Option<Self>) {
        match <AdRequestFields as Packed>::read(r) {
            None => None,
            Some(from) => Some(AdRequest { from }),
        }
    }
}

/// Gossip envelope. Senders always send `Full`; receivers accept both variants,
/// so that deltas can come later.
#[derive(Debug, PartialEq, Eq)]
pub enum AdGossip {
    Full(NodeAd),
    Delta { node_id: NodeId, generation: u64 },
}

/// What an [`AdGossip`] says.
pub enum AdGossipView {
    Full(NodeAdView),
    Delta { node_id: NodeId, generation: u64 },
}

impl View for AdGossip {
    type V = AdGossipView;

    open spec fn view(&self) -> AdGossipView {
        match *self {
            AdGossip::Full(ad) => AdGossipView::Full(ad@),
            AdGossip::Delta { node_id, generation } => AdGossipView::Delta { node_id, generation },
        }
    }
}

impl Clone for AdGossip {
    fn clone(&self) -> (r: Self)
        ensures
            r@ == self@,
    {
        self.copy()
    }
}

impl Packed for AdGossip {
    type M = AdGossipView;

    open spec fn model(&self) -> AdGossipView {
        self@
    }

    open spec fn fits(m: AdGossipView) -> bool {
        m matches AdGossipView::Full(ad) ==> NodeAd::fits(ad)
    }

    open spec fn put(m: AdGossipView) -> Seq<u8> {
        match m {
            AdGossipView::Full(ad) => u32::put(0) + NodeAd::put(ad),
            AdGossipView::Delta { node_id, generation } => u32::put(1) + <(
                NodeId,
                u64,
            ) as Packed>::put((node_id, generation)),
        }
    }

    open spec fn take(s: Seq<u8>) -> Option<(AdGossipView, Seq<u8>)> {
        match u32::take(s) {
            None => None,
            Some((n, s)) => if n == 0 {
                match NodeAd::take(s) {
                    None => None,
                    Some((ad, s)) => Some((AdGossipView::Full(ad), s)),
                }
            } else if n == 1 {
                match <(NodeId, u64) as Packed>::take(s) {
                    None => None,
                    Some(((node_id, generation), s)) => Some(
                        (AdGossipView::Delta { node_id, generation }, s),
                    ),
                }
            } else {
                None
            },
        }
    }

    proof fn roundtrip(m: AdGossipView, rest: Seq<u8>) {
        match m {
            AdGossipView::Full(ad) => {
                assert(Self::put(m) + rest =~= u32::put(0) + (NodeAd::put(ad) + rest));
                u32::roundtrip(0, NodeAd::put(ad) + rest);
                NodeAd::roundtrip(ad, rest);
            },
            AdGossipView::Delta { node_id, generation } => {
                let body = <(NodeId, u64) as Packed>::put((node_id, generation));
                assert(Self::put(m) + rest =~= u32::put(1) + (body + rest));
                u32::roundtrip(1, body + rest);
                <(NodeId, u64) as Packed>::roundtrip((node_id, generation), rest);
            },
        }
    }

    proof fn canonical(s: Seq<u8>) {
        if Self::take(s) is Some {
            u32::canonical(s);
            let (n, s1) = u32::take(s)->Some_0;
            if n == 0 {
                NodeAd::canonical(s1);
            } else {
                <(NodeId, u64) as Packed>::canonical(s1);
            }
            let (m, rest) = Self::take(s)->Some_0;
            assert(s =~= Self::put(m) + rest);
        }
    }

    fn write(&self, out: &mut Vec<u8>) {
        let ghost before = out@;
        match self {
            AdGossip::Full(ad) => {
                0u32.write(out);
                ad.write(out);
            },
            AdGossip::Delta { node_id, generation } => {
                1u32.write(out);
                node_id.write(out);
                generation.write(out);
            },
        }
        assert(out@ =~= before + Self::put(self@));
    }

    fn copy(&self) -> (x: Self) {
        match self {
            AdGossip::Full(ad) => AdGossip::Full(ad.copy()),
            AdGossip::Delta { node_id, generation } => AdGossip::Delta {
                node_id: *node_id,
                generation: *generation,
            },
        }
    }

    fn read(r: &mut Input<'_>) -> (x: Option<Self>) {
        let n: u32 = match u32::read(r) {
            Some(n) => n,
            None => {
                return None;
            },
        };
        if n == 0 {
            match NodeAd::read(r) {
                None => None,
                Some(ad) => Some(AdGossip::Full(ad)),
            }
        } else if n == 1 {
            match <(NodeId, u64) as Packed>::read(r) {
                None => None,
                Some((node_id, generation)) => Some(AdGossip::Delta { node_id, generation }),
            }
        } else {
            None
        }
    }
}

/// Local-only update stream. Never on the wire.
#[derive(Debug, PartialEq, Eq)]
pub enum AdUpdate {
    Inserted(NodeAd),
    Updated(NodeAd),
    Removed(NodeId),
}

/// What an [`AdUpdate`] says.
pub enum AdUpdateView {
    Inserted(NodeAdView),
    Updated(NodeAdView),
    Removed(NodeId),
}

impl View for AdUpdate {
    type V = AdUpdateView;

    open spec fn view(&self) -> AdUpdateView {
        match *self {
            AdUpdate::Inserted(ad) => AdUpdateView::Inserted(ad@),
            AdUpdate::Updated(ad) => AdUpdateView::Updated(ad@),
            AdUpdate::Removed(id) => AdUpdateView::Removed(id),
        }
    }
}

impl Clone for AdUpdate {
    fn clone(&self) -> (r: Self)
        ensures
            r@ == self@,
    {
        match self {
            AdUpdate::Inserted(ad) => AdUpdate::Inserted(ad.clone()),
            AdUpdate::Updated(ad) => AdUpdate::Updated(ad.clone()),
            AdUpdate::Removed(id) => AdUpdate::Removed(*id),
        }
    }
}

} // verus!

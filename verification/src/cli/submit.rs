//! `classic submit`: what a node's ad tells the placement, and the assignment
//! as it is printed.
use crate::ad::schema::{GpuInfo, NodeAd};
use crate::cli::group_toml::{group_error_text, GroupTomlError, GroupTomlErrorView};
use crate::ident::NodeId;
use crate::render::{hex, hex_text};
use crate::text::{chars_of, chars_range, text_of};
use vstd::prelude::*;
use vstd::string::StringExecFns;

verus! {

/// The arguments of `classic submit`.
#[derive(Debug)]
pub struct SubmitArgs {
    /// Path to the group's file.
    pub path: String,
}

/// Why a submission failed.
#[derive(Debug, PartialEq, Eq)]
pub enum SubmitError {
    /// The group's file is not in order.
    Toml(GroupTomlError),
    /// The ads could not be had.
    AdFetch(String),
    /// No placement: the planner's words.
    Place(String),
}

/// What a [`SubmitError`] says.
pub enum SubmitErrorView {
    Toml(GroupTomlErrorView),
    AdFetch(Seq<char>),
    Place(Seq<char>),
}

impl View for SubmitError {
    type V = SubmitErrorView;

    open spec fn view(&self) -> SubmitErrorView {
        match *self {
            SubmitError::Toml(e) => SubmitErrorView::Toml(e@),
            SubmitError::AdFetch(s) => SubmitErrorView::AdFetch(s@),
            SubmitError::Place(s) => SubmitErrorView::Place(s@),
        }
    }
}

/// The error in words.
pub open spec fn submit_error_text(e: SubmitErrorView) -> Seq<char> {
    match e {
        SubmitErrorView::Toml(e) => "submit: "@ + group_error_text(e),
        SubmitErrorView::AdFetch(s) => "submit: ad fetch: "@ + s,
        SubmitErrorView::Place(s) => "submit: placement: "@ + s,
    }
}

impl SubmitError {
    /// The error in words.
    pub fn to_string(&self) -> (t: String)
        ensures
            t@ == submit_error_text(self@),
    {
        match self {
            SubmitError::Toml(e) => {
                let mut t = "submit: ".to_owned();
                t.append(e.to_string().as_str());
                t
            },
            SubmitError::AdFetch(s) => {
                let mut t = "submit: ad fetch: ".to_owned();
                t.append(s.as_str());
                t
            },
            SubmitError::Place(s) => {
                let mut t = "submit: placement: ".to_owned();
                t.append(s.as_str());
                t
            },
        }
    }
}

/// A GPU as the placement sees it.
#[derive(Debug)]
pub struct PlaceGpu {
    pub index: u32,
    pub vendor: u32,
    pub device: u32,
    pub model: String,
    pub vram_mb: u64,
    pub vram_free_mb: u64,
    pub sm_count: u32,
    pub in_use: bool,
    pub mig: bool,
}

/// A node as the placement sees it. The load average is in thousandths.
#[derive(Debug)]
pub struct PlaceAd {
    pub node_id: NodeId,
    pub hostname: String,
    pub gen: u64,
    pub cores: u32,
    pub threads: u32,
    pub arch: String,
    pub model: String,
    pub total_mb: u64,
    pub free_mb: u64,
    pub cpu_pct: u32,
    pub mem_pct: u32,
    pub load_1m_milli: u32,
    pub gpu: Vec<PlaceGpu>,
}

/// A GPU busy at half or more counts as in use.
pub const BUSY_PCT: u32 = 50;

/// Whether this is the GPU as the placement sees it.
pub open spec fn gpu_adapted(p: PlaceGpu, g: GpuInfo) -> bool {
    &&& p.index == g.index
    &&& p.vendor == g.pci_vendor
    &&& p.device == g.pci_device
    &&& p.model@ == g.name@
    &&& p.vram_mb == g.vram_total_mb
    &&& p.vram_free_mb == g.vram_free_mb
    &&& p.sm_count == 0
    &&& p.in_use == (g.utilization_pct >= BUSY_PCT)
    &&& !p.mig
}

fn adapt_gpu(g: &GpuInfo) -> (p: PlaceGpu)
    ensures
        gpu_adapted(p, *g),
{
    PlaceGpu {
        index: g.index,
        vendor: g.pci_vendor as u32,
        device: g.pci_device as u32,
        model: g.name.clone(),
        vram_mb: g.vram_total_mb,
        vram_free_mb: g.vram_free_mb,
        sm_count: 0,
        in_use: g.utilization_pct >= BUSY_PCT,
        mig: false,
    }
}

/// What the ad of a node tells the placement.
pub fn adapt_ad(ad: &NodeAd) -> (out: PlaceAd)
    ensures
        out.node_id == ad.node_id,
        out.hostname@ == ad.hostname@,
        out.gen == ad.generation,
        out.cores == ad.cpu.cores_online,
        out.threads == ad.cpu.cores_online,
        out.arch@ == ad.cpu.arch@,
        out.model@ == ad.cpu.model@,
        out.total_mb == ad.mem.total_mb,
        out.free_mb == ad.mem.available_mb,
        out.cpu_pct == ad.load.cpu_pct,
        out.mem_pct == ad.load.mem_pct,
        out.load_1m_milli == ad.load.loadavg_1m,
        out.gpu@.len() == ad.gpus@.len(),
        forall|i: int|
            0 <= i < ad.gpus@.len() ==> gpu_adapted(#[trigger] out.gpu@[i], ad.gpus@[i]),
{
    let mut gpu: Vec<PlaceGpu> = Vec::new();
    let mut i: usize = 0;
    while i < ad.gpus.len()
        invariant
            i <= ad.gpus@.len(),
            gpu@.len() == i,
            forall|k: int| 0 <= k < i ==> gpu_adapted(#[trigger] gpu@[k], ad.gpus@[k]),
        decreases ad.gpus@.len() - i,
    {
        gpu.push(adapt_gpu(&ad.gpus[i]));
        i = i + 1;
    }
    PlaceAd {
        node_id: ad.node_id,
        hostname: ad.hostname.clone(),
        gen: ad.generation,
        cores: ad.cpu.cores_online,
        threads: ad.cpu.cores_online,
        arch: ad.cpu.arch.clone(),
        model: ad.cpu.model.clone(),
        total_mb: ad.mem.total_mb,
        free_mb: ad.mem.available_mb,
        cpu_pct: ad.load.cpu_pct,
        mem_pct: ad.load.mem_pct,
        load_1m_milli: ad.load.loadavg_1m,
        gpu,
    }
}

/// The first twelve hexadecimal digits of the node's bytes.
pub open spec fn short_id(n: NodeId) -> Seq<char> {
    hex(n.0 as nat, 32).take(12)
}

proof fn lemma_hex_len(n: nat, w: nat)
    ensures
        hex(n, w).len() == w,
    decreases w,
{
    if w > 0 {
        lemma_hex_len(n / 16, (w - 1) as nat);
    }
}

/// The node, shortened: enough to tell nodes apart at a glance.
pub fn format_node_id(n: &NodeId) -> (s: String)
    ensures
        s@ == short_id(*n),
{
    let v = chars_of(hex_text(n.0, 32).as_str());
    proof {
        lemma_hex_len(n.0 as nat, 32);
    }
    text_of(&chars_range(&v, 0, 12))
}

/// The line of the assignment for one member.
pub fn assignment_line(label: &str, node: &NodeId) -> (s: String)
    ensures
        s@ == label@ + "  -> "@ + short_id(*node),
{
    let mut s = label.to_owned();
    s.append("  -> ");
    s.append(format_node_id(node).as_str());
    s
}

/// The lines of the assignment, one for each member in order.
pub fn assignment_lines(placement: &Vec<(String, NodeId)>) -> (lines: Vec<String>)
    ensures
        lines@.len() == placement@.len(),
        forall|i: int|
            0 <= i < placement@.len() ==> (#[trigger] lines@[i])@ == placement@[i].0@ + "  -> "@
                + short_id(placement@[i].1),
{
    let mut lines: Vec<String> = Vec::new();
    let mut i: usize = 0;
    while i < placement.len()
        invariant
            i <= placement@.len(),
            lines@.len() == i,
            forall|k: int|
                0 <= k < i ==> (#[trigger] lines@[k])@ == placement@[k].0@ + "  -> "@ + short_id(
                    placement@[k].1,
                ),
        decreases placement@.len() - i,
    {
        let p = &placement[i];
        lines.push(assignment_line(p.0.as_str(), &p.1));
        i = i + 1;
    }
    lines
}

} // verus!

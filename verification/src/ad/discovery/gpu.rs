//! GPU probe: what the driver library reports of a device, as an ad shows it.
use crate::ad::schema::{GpuInfo, GpuInfoView};
use vstd::prelude::*;

verus! {

/// Bytes in a megabyte.
pub const MB: u64 = 1_048_576;

/// What the driver library says of one GPU. Values that it could not give are
/// missing.
pub struct GpuReading {
    pub index: u32,
    pub uuid: Option<String>,
    pub name: Option<String>,
    /// The PCI id: its high half is shown as the vendor, its low half as the
    /// device.
    pub pci_device_id: u32,
    pub bus_id: String,
    pub mem_total: u64,
    pub mem_free: u64,
    pub compute_capability: Option<(u32, u32)>,
    pub utilization: Option<u32>,
}

/// A text, or the empty one.
pub open spec fn text_or_empty(t: Option<String>) -> Seq<char> {
    match t {
        Some(s) => s@,
        None => Seq::empty(),
    }
}

/// The entry for a GPU. Sizes are in whole megabytes.
pub open spec fn gpu_info(r: GpuReading) -> GpuInfoView {
    GpuInfoView {
        index: r.index,
        uuid: text_or_empty(r.uuid),
        name: text_or_empty(r.name),
        pci_vendor: (r.pci_device_id / 0x1_0000) as u16,
        pci_device: (r.pci_device_id % 0x1_0000) as u16,
        pci_addr: r.bus_id@,
        vram_total_mb: (r.mem_total / MB) as u64,
        vram_free_mb: (r.mem_free / MB) as u64,
        compute_capability: match r.compute_capability {
            Some(c) => c,
            None => (0, 0),
        },
        nvlink_peers: Seq::empty(),
        utilization_pct: match r.utilization {
            Some(u) => u,
            None => 0,
        },
    }
}

/// The entry for a GPU.
pub fn enumerate_one(r: GpuReading) -> (g: GpuInfo)
    ensures
        g@ == gpu_info(r),
{
    let g = GpuInfo {
        index: r.index,
        uuid: match r.uuid {
            Some(s) => s,
            None => String::new(),
        },
        name: match r.name {
            Some(s) => s,
            None => String::new(),
        },
        pci_vendor: (r.pci_device_id / 0x1_0000) as u16,
        pci_device: (r.pci_device_id % 0x1_0000) as u16,
        pci_addr: r.bus_id,
        vram_total_mb: r.mem_total / MB,
        vram_free_mb: r.mem_free / MB,
        compute_capability: match r.compute_capability {
            Some(c) => c,
            None => (0, 0),
        },
        nvlink_peers: Vec::new(),
        utilization_pct: match r.utilization {
            Some(u) => u,
            None => 0,
        },
    };
    assert(g@.nvlink_peers =~= Seq::empty());
    g
}

/// What changes of a GPU: free and total memory in bytes, and how busy it is.
#[derive(Copy, Clone, Debug, PartialEq, Eq)]
pub struct GpuDynamic {
    pub memory: Option<(u64, u64)>,
    pub utilization: Option<u32>,
}

/// A GPU's entry with what could be read anew.
pub open spec fn refreshed(g: GpuInfoView, d: GpuDynamic) -> GpuInfoView {
    GpuInfoView {
        vram_free_mb: match d.memory {
            Some((free, _)) => (free / MB) as u64,
            None => g.vram_free_mb,
        },
        vram_total_mb: match d.memory {
            Some((_, total)) => (total / MB) as u64,
            None => g.vram_total_mb,
        },
        utilization_pct: match d.utilization {
            Some(u) => u,
            None => g.utilization_pct,
        },
        ..g
    }
}

/// Refreshes the dynamic fields: the i-th reading is for the i-th GPU. A GPU
/// without a reading keeps its entry.
pub fn refresh_dynamic(gpus: &Vec<GpuInfo>, readings: &Vec<GpuDynamic>) -> (r: Vec<GpuInfo>)
    ensures
        r@.len() == gpus@.len(),
        forall|i: int|
            0 <= i < r@.len() ==> #[trigger] r@[i]@ == if i < readings@.len() {
                refreshed(gpus@[i]@, readings@[i])
            } else {
                gpus@[i]@
            },
{
    let mut out: Vec<GpuInfo> = Vec::new();
    let mut i: usize = 0;
    while i < gpus.len()
        invariant
            i <= gpus@.len(),
            out@.len() == i,
            forall|k: int|
                0 <= k < i ==> #[trigger] out@[k]@ == if k < readings@.len() {
                    refreshed(gpus@[k]@, readings@[k])
                } else {
                    gpus@[k]@
                },
        decreases gpus@.len() - i,
    {
        let mut g = gpus[i].clone();
        if i < readings.len() {
            let d = readings[i];
            if let Some((free, total)) = d.memory {
                g.vram_free_mb = free / MB;
                g.vram_total_mb = total / MB;
            }
            if let Some(u) = d.utilization {
                g.utilization_pct = u;
            }
        }
        out.push(g);
        i = i + 1;
    }
    out
}

} // verus!

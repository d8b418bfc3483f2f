//! PCI devices as `/sys/bus/pci/devices/` shows them. Each subdirectory is a
//! device named after its `DDDD:BB:DD.F` address; the files that count are
//! `vendor`, `device`, `class` and `numa_node`, and the `iommu_group` symlink,
//! whose last path element is the group id.
use crate::ad::discovery::{file_text, read_string};
use crate::ad::schema::{PciDevice, PciDeviceView};
use crate::order::{sort_named, sorted, views};
use crate::scan::{
    dec_i32, dec_u32, parse_i32, parse_u32, parse_uint, strip_all, strip_all_prefixes, trim,
    trimmed, uint,
};
use crate::text::chars_of;
use vstd::prelude::*;

verus! {

/// The hexadecimal number of a text such as `0x10de`, or zero where it is none
/// or larger than `max`.
pub open spec fn hex_number(t: Seq<char>, max: nat) -> nat {
    match uint(strip_all(trimmed(t), "0x"@), 16, max) {
        Some(n) => n,
        None => 0,
    }
}

fn parse_hex(t: &Vec<char>, max: u64) -> (n: u64)
    ensures
        n as nat == hex_number(t@, max as nat),
        n <= max,
{
    let prefix = chars_of("0x");
    proof {
        reveal_strlit("0x");
    }
    match parse_uint(&strip_all_prefixes(&trim(t), &prefix), 16, max) {
        Some(n) => n,
        None => 0,
    }
}

/// What was read of one device: the contents of its files, and the last path
/// element of its IOMMU group link, where they could be read.
pub struct PciReading {
    pub addr: String,
    pub vendor: Option<Vec<u8>>,
    pub device: Option<Vec<u8>>,
    pub class: Option<Vec<u8>>,
    pub numa_node: Option<Vec<u8>>,
    pub iommu_group: Option<String>,
}

/// The text of a file that may be missing.
pub open spec fn text_in(content: Option<Vec<u8>>) -> Option<Seq<char>> {
    match content {
        Some(c) => file_text(c@),
        None => None,
    }
}

fn chars_in(content: &Option<Vec<u8>>) -> (r: Option<Vec<char>>)
    ensures
        match text_in(*content) {
            None => r is None,
            Some(t) => r is Some && r->Some_0@ == t,
        },
{
    match content {
        Some(c) => read_string(c.as_slice()),
        None => None,
    }
}

/// The device that a reading shows, if its four files could be read. A file
/// that does not hold a number counts as zero, `numa_node` as -1.
pub open spec fn device_of(r: PciReading) -> Option<PciDeviceView> {
    match (text_in(r.vendor), text_in(r.device), text_in(r.class), text_in(r.numa_node)) {
        (Some(vendor), Some(device), Some(class), Some(numa)) => Some(
            PciDeviceView {
                addr: r.addr@,
                vendor: hex_number(vendor, 0xffff) as u16,
                device: hex_number(device, 0xffff) as u16,
                class: hex_number(class, 0xffff_ffff) as u32,
                numa_node: match dec_i32(numa) {
                    Some(n) => n,
                    None => (0 - 1) as i32,
                },
                iommu_group: match r.iommu_group {
                    Some(g) => dec_u32(g@),
                    None => None,
                },
            },
        ),
        _ => None,
    }
}

/// The devices that the readings show, in their order. A device that could not
/// be read is left out: it may have been unplugged meanwhile.
pub open spec fn devices_of(rs: Seq<PciReading>) -> Seq<PciDeviceView>
    decreases rs.len(),
{
    if rs.len() == 0 {
        Seq::empty()
    } else {
        match device_of(rs.last()) {
            Some(d) => devices_of(rs.drop_last()).push(d),
            None => devices_of(rs.drop_last()),
        }
    }
}

/// What a list of devices says.
pub open spec fn devices_view(v: Seq<PciDevice>) -> Seq<PciDeviceView> {
    Seq::new(v.len(), |i: int| v[i]@)
}

/// The addresses in the order in which they are probed.
pub fn probe_order(entries: Vec<String>) -> (r: Vec<String>)
    ensures
        views(r@) == sorted::<String>(views(entries@)),
{
    sort_named(entries)
}

fn read_one(r: &PciReading) -> (d: Option<PciDevice>)
    ensures
        match device_of(*r) {
            None => d is None,
            Some(v) => d is Some && d->Some_0@ == v,
        },
{
    let vendor = chars_in(&r.vendor);
    let device = chars_in(&r.device);
    let class = chars_in(&r.class);
    let numa = chars_in(&r.numa_node);
    match (vendor, device, class, numa) {
        (Some(vendor), Some(device), Some(class), Some(numa)) => {
            let numa_node: i32 = match parse_i32(&numa) {
                Some(n) => n,
                None => -1,
            };
            let iommu_group = match &r.iommu_group {
                Some(g) => parse_u32(&chars_of(g.as_str())),
                None => None,
            };
            let d = PciDevice {
                addr: r.addr.clone(),
                vendor: parse_hex(&vendor, 0xffff) as u16,
                device: parse_hex(&device, 0xffff) as u16,
                class: parse_hex(&class, 0xffff_ffff) as u32,
                numa_node,
                iommu_group,
            };
            Some(d)
        },
        _ => None,
    }
}

/// The devices that the readings show.
pub fn devices(readings: &Vec<PciReading>) -> (r: Vec<PciDevice>)
    ensures
        devices_view(r@) == devices_of(readings@),
{
    let mut out: Vec<PciDevice> = Vec::new();
    let mut i: usize = 0;
    assert(readings@.take(0) =~= Seq::empty());
    assert(devices_view(out@) =~= Seq::empty());
    while i < readings.len()
        invariant
            i <= readings@.len(),
            devices_view(out@) == devices_of(readings@.take(i as int)),
        decreases readings@.len() - i,
    {
        let ghost was = out@;
        assert(readings@.take(i + 1).drop_last() =~= readings@.take(i as int));
        assert(readings@.take(i + 1).last() == readings@[i as int]);
        if let Some(d) = read_one(&readings[i]) {
            out.push(d);
            assert(devices_view(out@) =~= devices_view(was).push(d@));
        }
        i = i + 1;
    }
    assert(readings@.take(i as int) =~= readings@);
    out
}

} // verus!

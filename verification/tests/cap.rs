//! Device caps, the cgroup hierarchy and the device allowlist.
use classic::cap::broker::{AcquireError, BdfAddr, CapBroker, CapSnapshot, DeviceCap, DeviceKind};
use classic::cap::cgroup::{
    create_scope, ensure_slice, scope_rel, slice_rel, Step, CGROUP_REL, SUBTREE_CONTROL,
};
use classic::cap::devctrl::{build_allowlist, DeviceClass, DeviceController, NoOpDeviceController};
use classic::cap::nvidia::list_nvidia_minors;
use classic::cap::pci::{parse_uevent, resolve_bdf, uevent_rel};
use classic::ident::MboxId;
use std::collections::{BTreeMap, BTreeSet};

fn mb(n: u64) -> MboxId {
    MboxId(n)
}

fn drop_caps(b: &mut CapBroker, caps: Vec<DeviceCap>) {
    for c in caps {
        b.release(c.cap_id);
    }
}

#[test]
fn exclusive_acquire_then_taken_on_second() {
    let mut b = CapBroker::new();
    let _a = b.acquire(mb(1), &[DeviceKind::GpuMinor(0)], true).unwrap();
    let err = b.acquire(mb(2), &[DeviceKind::GpuMinor(0)], true).unwrap_err();
    assert!(matches!(err, AcquireError::Taken { kind: DeviceKind::GpuMinor(0) }));
}

#[test]
fn shared_co_acquire_ok() {
    let mut b = CapBroker::new();
    let _a = b.acquire(mb(1), &[DeviceKind::GpuMinor(0)], false).unwrap();
    let _b = b.acquire(mb(2), &[DeviceKind::GpuMinor(0)], false).unwrap();
    assert_eq!(b.snapshot().len(), 2);
}

#[test]
fn exclusive_blocked_by_shared() {
    let mut b = CapBroker::new();
    let _shared = b.acquire(mb(1), &[DeviceKind::GpuMinor(0)], false).unwrap();
    let err = b.acquire(mb(2), &[DeviceKind::GpuMinor(0)], true).unwrap_err();
    assert!(matches!(err, AcquireError::Taken { .. }));
}

#[test]
fn shared_blocked_by_exclusive() {
    let mut b = CapBroker::new();
    let _excl = b.acquire(mb(1), &[DeviceKind::GpuMinor(0)], true).unwrap();
    let err = b.acquire(mb(2), &[DeviceKind::GpuMinor(0)], false).unwrap_err();
    assert!(matches!(err, AcquireError::SharedConflict { kind: DeviceKind::GpuMinor(0), n: 1 }));
    assert_eq!(err.kind(), DeviceKind::GpuMinor(0));
}

#[test]
fn drop_releases_one_cap() {
    let mut b = CapBroker::new();
    let caps = b.acquire(mb(1), &[DeviceKind::GpuMinor(0)], true).unwrap();
    assert_eq!(b.snapshot().len(), 1);
    drop_caps(&mut b, caps);
    assert!(b.snapshot().is_empty());
    // Now another can grab it.
    let _c = b.acquire(mb(2), &[DeviceKind::GpuMinor(0)], true).unwrap();
}

#[test]
fn release_all_removes_every_cap_for_holder() {
    let mut b = CapBroker::new();
    let caps =
        b.acquire(mb(1), &[DeviceKind::GpuMinor(0), DeviceKind::GpuMinor(1)], true).unwrap();
    // Also grab a shared cap.
    let _shared = b.acquire(mb(1), &[DeviceKind::GpuMinor(2)], false).unwrap();
    assert_eq!(b.snapshot().len(), 3);
    b.release_all(mb(1));
    assert!(b.snapshot().is_empty());
    // The held caps are still owned: releasing them now changes nothing.
    drop_caps(&mut b, caps);
    assert!(b.snapshot().is_empty());
}

#[test]
fn acquire_is_atomic_all_or_nothing() {
    let mut b = CapBroker::new();
    // Take one first, so that the request for two fails partway.
    let _other = b.acquire(mb(99), &[DeviceKind::GpuMinor(1)], true).unwrap();
    let err =
        b.acquire(mb(1), &[DeviceKind::GpuMinor(0), DeviceKind::GpuMinor(1)], true).unwrap_err();
    assert!(matches!(err, AcquireError::Taken { .. }));
    // The free one must not be held afterwards.
    let snap = b.snapshot();
    assert!(!snap.iter().any(|s| s.holder == mb(1)));
}

#[test]
fn duplicate_kinds_in_one_request_dedupe() {
    let mut b = CapBroker::new();
    let caps =
        b.acquire(mb(1), &[DeviceKind::GpuMinor(0), DeviceKind::GpuMinor(0)], true).unwrap();
    assert_eq!(caps.len(), 1);
    assert_eq!(b.snapshot().len(), 1);
}

#[test]
fn pci_slot_acquired_independently_from_gpu_minor() {
    let mut b = CapBroker::new();
    let bdf = BdfAddr { domain: 0, bus: 0xc0, device: 0, function: 0 };
    let _gpu = b.acquire(mb(1), &[DeviceKind::GpuMinor(0)], true).unwrap();
    let _pci = b.acquire(mb(1), &[DeviceKind::PciSlot(bdf)], true).unwrap();
    assert_eq!(b.snapshot().len(), 2);
}

/// A hundred holders want one of eight devices each, for themselves: at no
/// moment are more than eight caps out.
#[test]
fn contention_caps_at_pool_size() {
    let mut b = CapBroker::new();
    let mut held: Vec<Vec<DeviceCap>> = Vec::new();
    for tid in 0..100u32 {
        let kind = DeviceKind::GpuMinor(tid % 8);
        if let Ok(caps) = b.acquire(MboxId(tid as u64), &[kind], true) {
            held.push(caps);
        }
        assert!(b.snapshot().len() <= 8);
        if tid % 3 == 0 && !held.is_empty() {
            let caps = held.remove(0);
            drop_caps(&mut b, caps);
        }
    }
    for caps in held {
        drop_caps(&mut b, caps);
    }
    assert!(b.snapshot().is_empty());
}

#[test]
fn releasing_what_was_acquired_restores_the_caps() {
    let mut b = CapBroker::new();
    b.acquire(mb(1), &[DeviceKind::GpuMinor(0)], false).unwrap();
    let before = b.snapshot();
    let caps =
        b.acquire(mb(2), &[DeviceKind::GpuMinor(0), DeviceKind::GpuMinor(3)], false).unwrap();
    drop_caps(&mut b, caps);
    assert_eq!(b.snapshot(), before);
}

#[test]
fn caps_are_handed_out_under_their_own_ids() {
    let mut b = CapBroker::new();
    let first = b.acquire(mb(1), &[DeviceKind::GpuMinor(0)], false).unwrap();
    let second = b.acquire(mb(1), &[DeviceKind::GpuMinor(0)], false).unwrap();
    assert_ne!(first[0].cap_id, second[0].cap_id);
    b.release(first[0].cap_id);
    b.release(first[0].cap_id);
    assert_eq!(b.snapshot().len(), 1);
}

#[test]
fn bdf_displays_canonical_format() {
    let b = BdfAddr { domain: 0, bus: 0x1b, device: 0, function: 0 };
    assert_eq!(b.to_string(), "0000:1b:00.0");
}

#[test]
fn bdf_function_is_one_hex_digit_or_more() {
    let b = BdfAddr { domain: 0xabcd, bus: 0xff, device: 0x1f, function: 7 };
    assert_eq!(b.to_string(), "abcd:ff:1f.7");
}

/// A file system in memory, to carry the steps out on.
struct Root {
    dirs: BTreeSet<String>,
    files: BTreeMap<String, String>,
}

impl Root {
    fn new() -> Root {
        Root { dirs: BTreeSet::new(), files: BTreeMap::new() }
    }

    fn run(&mut self, steps: &[Step]) {
        for s in steps {
            match s {
                Step::CreateDir(p) => {
                    self.dirs.insert(p.clone());
                }
                Step::Write(p, t) => {
                    self.files.insert(p.clone(), t.clone());
                }
                Step::RemoveDir(p) => {
                    assert!(self.dirs.remove(p), "{p} is not there");
                }
            }
        }
    }

    fn read(&self, dir: &str, name: &str) -> &str {
        &self.files[&format!("{dir}/{name}")]
    }
}

#[test]
fn ensure_slice_writes_exact_subtree_control() {
    let mut root = Root::new();
    root.run(&ensure_slice());
    let top = root.read(CGROUP_REL, "cgroup.subtree_control");
    let slice = root.read(&slice_rel(), "cgroup.subtree_control");
    assert_eq!(top, SUBTREE_CONTROL);
    assert_eq!(slice, SUBTREE_CONTROL);
    assert_eq!(top, "+cpu +memory +pids\n"); // pin the literal
}

#[test]
fn create_scope_lays_down_limits_and_helper_pid() {
    let mut root = Root::new();
    root.run(&ensure_slice());
    let (steps, scope) = create_scope(MboxId(42), 4242);
    root.run(&steps);
    let dir = scope.rel_path();
    assert!(root.dirs.contains(dir));
    assert!(dir.ends_with("task-42.scope"));
    assert_eq!(root.read(dir, "memory.max"), "max\n");
    assert_eq!(root.read(dir, "cpu.max"), "max\n");
    assert_eq!(root.read(dir, "pids.max"), "1024\n");
    assert_eq!(root.read(dir, "cgroup.procs"), "4242\n");
}

#[test]
fn drop_removes_scope_directory() {
    let mut root = Root::new();
    root.run(&ensure_slice());
    let (steps, scope) = create_scope(MboxId(7), 1234);
    root.run(&steps);
    let dir = scope.rel_path().to_string();
    assert!(root.dirs.contains(&dir));
    if let Some(s) = scope.drop_step() {
        root.run(&[s]);
    }
    assert!(!root.dirs.contains(&dir), "scope dir should be removed on drop");
}

#[test]
fn teardown_surfaces_errors() {
    let mut root = Root::new();
    root.run(&ensure_slice());
    let (steps, mut scope) = create_scope(MboxId(99), 1111);
    root.run(&steps);
    let s = scope.teardown();
    root.run(&[s]);
    // Nothing is left for the drop.
    assert_eq!(scope.drop_step(), None);
}

#[test]
fn scope_path_uses_mbox_id() {
    assert_eq!(scope_rel(MboxId(42)), "sys/fs/cgroup/classicd.slice/task-42.scope");
}

#[test]
fn scopes_of_two_tasks_differ() {
    assert_ne!(scope_rel(MboxId(1)), scope_rel(MboxId(11)));
    assert_ne!(scope_rel(MboxId(0)), scope_rel(MboxId(u64::MAX)));
}

#[test]
fn a_negative_pid_is_written_as_it_is() {
    let (steps, _) = create_scope(MboxId(1), i32::MIN);
    assert_eq!(
        steps[4],
        Step::Write(
            "sys/fs/cgroup/classicd.slice/task-1.scope/cgroup.procs".to_string(),
            "-2147483648\n".to_string()
        )
    );
}

fn snap(kind: DeviceKind) -> CapSnapshot {
    CapSnapshot { kind, holder: MboxId(1), exclusive: true }
}

#[test]
fn empty_caps_yields_just_base_set() {
    let a = build_allowlist(&[], |_| None);
    assert_eq!(a.entries.len(), 1);
    assert_eq!(a.entries[0].major, 1);
    assert_eq!(a.entries[0].minor, None);
    assert_eq!(a.entries[0].class, DeviceClass::Char);
}

#[test]
fn gpu_minor_adds_per_minor_and_unlocks_ctl_nodes() {
    let caps = vec![snap(DeviceKind::GpuMinor(0))];
    let a = build_allowlist(&caps, |_| None);
    // base + 254 + 255 + 0
    assert_eq!(a.entries.len(), 4);
    assert!(a.entries.iter().any(|r| r.major == 195 && r.minor == Some(0)));
    for ctl in [254, 255] {
        assert!(
            a.entries.iter().any(|r| r.major == 195 && r.minor == Some(ctl)),
            "ctl minor {} missing from allowlist",
            ctl
        );
    }
}

#[test]
fn ctl_nodes_only_unlocked_when_some_gpu_held() {
    let caps = vec![snap(DeviceKind::PciSlot(BdfAddr {
        domain: 0,
        bus: 0xc0,
        device: 0,
        function: 0,
    }))];
    let a = build_allowlist(&caps, |_| Some((10, 0)));
    // Should contain base + (10, 0). No 195 entries.
    assert!(!a.entries.iter().any(|r| r.major == 195));
}

#[test]
fn pci_resolver_supplies_major_minor() {
    let bdf = BdfAddr { domain: 0, bus: 0xc0, device: 0, function: 0 };
    let caps = vec![snap(DeviceKind::PciSlot(bdf))];
    let a = build_allowlist(&caps, |b| {
        assert_eq!(b, bdf);
        Some((10, 7))
    });
    assert!(a.entries.iter().any(|r| r.major == 10 && r.minor == Some(7)));
}

#[test]
fn pci_resolver_none_skips_entry() {
    let bdf = BdfAddr { domain: 0, bus: 0xc0, device: 0, function: 0 };
    let caps = vec![snap(DeviceKind::PciSlot(bdf))];
    let a = build_allowlist(&caps, |_| None);
    // Just the base set.
    assert_eq!(a.entries.len(), 1);
}

#[test]
fn noop_controller_records_last_sync() {
    let mut c = NoOpDeviceController::new();
    let a = build_allowlist(&[snap(DeviceKind::GpuMinor(0))], |_| None);
    c.sync(&a);
    assert_eq!(c.last().unwrap(), a);
}

#[test]
fn list_nvidia_minors_never_panics() {
    let names: Vec<String> =
        ["nvidia1", "nvidiactl", "null", "nvidia0", "nvidia-uvm"].map(String::from).to_vec();
    assert_eq!(list_nvidia_minors(&names), vec![0, 1]);
    assert!(list_nvidia_minors(&Vec::new()).is_empty());
}

fn uevent(body: &str) -> Option<Vec<u8>> {
    Some(body.as_bytes().to_vec())
}

#[test]
fn parses_major_minor() {
    let bdf = BdfAddr { domain: 0, bus: 0x1b, device: 0, function: 0 };
    assert_eq!(uevent_rel(bdf), "sys/bus/pci/devices/0000:1b:00.0/uevent");
    let body = "DRIVER=nvidia\nPCI_CLASS=030200\nMAJOR=195\nMINOR=0\n";
    assert_eq!(resolve_bdf(&uevent(body)), Some((195, 0)));
}

#[test]
fn missing_file_returns_none() {
    assert_eq!(resolve_bdf(&None), None);
}

#[test]
fn missing_minor_returns_none() {
    let body = "DRIVER=mlx5_core\nMAJOR=10\n";
    assert_eq!(resolve_bdf(&uevent(body)), None);
}

#[test]
fn handles_garbage_values() {
    let body = "MAJOR=not-a-number\nMINOR=0\n";
    assert_eq!(resolve_bdf(&uevent(body)), None);
}

#[test]
fn the_last_assignment_counts() {
    assert_eq!(parse_uevent("MAJOR=1\r\nMAJOR= 2 \nMINOR=+3"), Some((2, 3)));
    assert_eq!(resolve_bdf(&Some(vec![0x4d, 0xff])), None);
}

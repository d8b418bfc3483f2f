//! What the functions that grant devices return and leave behind, told of the
//! functions themselves: whatever one did, it was this.
use crate::cap::broker::{AcquireError, CapBroker, CapSnapshot, DeviceCap, DeviceKind};
use crate::cap::broker_laws::{free_for, law_acquire, law_distinct, law_released, law_released_all};
use crate::cap::cgroup::{create_scope, ensure_slice, steps_view, ScopeHandle, Step, StepView};
use crate::cap::devctrl::{build_allowlist, Allowlist};
use crate::cap::kernel_laws::{
    allows_all, allows_one, assigned_at, law_allowlist, law_nvidia_minor, law_scope_path,
    law_scope_steps, law_uevent,
};
use crate::cap::nvidia::list_nvidia_minors;
use crate::cap::pci::parse_uevent;
use crate::ident::MboxId;
use crate::order::increasing;
use crate::render::dec;
use crate::scan::{dec_i32, lines};
use vstd::prelude::*;

verus! {

/// A request is granted exactly where each device that it names can be had. Then
/// each device has one new cap for the holder, of the kind asked for, and all caps
/// from before are kept; else nothing changes.
pub proof fn law_acquired(
    b: &mut CapBroker,
    holder: MboxId,
    kinds: &[DeviceKind],
    exclusive: bool,
    r: Result<Vec<DeviceCap>, AcquireError>,
)
    requires
        old(b).wf(),
        call_ensures(CapBroker::acquire, (b, holder, kinds, exclusive), r),
    ensures
        r is Ok <==> forall|i: int|
            0 <= i < kinds@.len() ==> free_for(old(b).caps@, #[trigger] kinds@[i], exclusive),
        r is Err ==> *final(b) == *old(b),
        r matches Err(e) ==> kinds@.contains(e.kind_of()) && !free_for(
            old(b).caps@,
            e.kind_of(),
            exclusive,
        ),
        r matches Ok(new) ==> {
            &&& final(b).caps@ == old(b).caps@ + new@
            &&& forall|i: int|
                0 <= i < new@.len() ==> (#[trigger] new@[i]).holder == holder && new@[i].exclusive
                    == exclusive && kinds@.contains(new@[i].kind)
            &&& forall|i: int|
                0 <= i < kinds@.len() ==> exists|j: int|
                    0 <= j < new@.len() && (#[trigger] new@[j]).kind == #[trigger] kinds@[i]
            &&& forall|i: int, j: int|
                0 <= i < j < new@.len() ==> (#[trigger] new@[i]).kind != (#[trigger] new@[j]).kind
        },
{
    law_acquire(old(b).caps@, kinds@, exclusive);
    law_distinct(kinds@);
    if let Ok(new) = r {
        let d = crate::cap::broker::distinct(kinds@);
        assert forall|i: int| 0 <= i < new@.len() implies (#[trigger] new@[i]).holder == holder
            && new@[i].exclusive == exclusive && kinds@.contains(new@[i].kind) by {
            assert(d.contains(d[i]));
        }
        assert forall|i: int| 0 <= i < kinds@.len() implies exists|j: int|
            0 <= j < new@.len() && (#[trigger] new@[j]).kind == #[trigger] kinds@[i] by {
            assert(kinds@.contains(kinds@[i]));
            assert(d.contains(kinds@[i]));
            let j = choose|j: int| 0 <= j < d.len() && d[j] == kinds@[i];
            assert(new@[j].kind == kinds@[i]);
        }
        assert forall|i: int, j: int| 0 <= i < j < new@.len() implies (#[trigger] new@[i]).kind != (
        #[trigger] new@[j]).kind by {
            assert(d[i] != d[j]);
        }
    }
}

/// A cap that is released is gone, and no other.
pub proof fn law_cap_released(b: &mut CapBroker, cap_id: u64, c: DeviceCap)
    requires
        old(b).wf(),
        call_ensures(CapBroker::release, (b, cap_id), ()),
    ensures
        final(b).caps@.contains(c) <==> old(b).caps@.contains(c) && c.cap_id != cap_id,
        final(b).next_id == old(b).next_id,
{
    law_released(old(b).caps@, cap_id, c);
}

/// All caps of a holder are gone, and no others.
pub proof fn law_holder_released(b: &mut CapBroker, holder: MboxId, c: DeviceCap)
    requires
        old(b).wf(),
        call_ensures(CapBroker::release_all, (b, holder), ()),
    ensures
        final(b).caps@.contains(c) <==> old(b).caps@.contains(c) && c.holder != holder,
        final(b).next_id == old(b).next_id,
{
    law_released_all(old(b).caps@, holder, c);
}

/// A snapshot shows every cap, in order.
pub proof fn law_snapshot_taken(b: &CapBroker, r: Vec<CapSnapshot>, i: int)
    requires
        call_ensures(CapBroker::snapshot, (b,), r),
        0 <= i < b.caps@.len(),
    ensures
        r@.len() == b.caps@.len(),
        r@[i].kind == b.caps@[i].kind,
        r@[i].holder == b.caps@[i].holder,
        r@[i].exclusive == b.caps@[i].exclusive,
{
}

/// The slice is made, and its controllers are passed down to it and to the scopes
/// in it.
pub proof fn law_slice_made(r: Vec<Step>)
    requires
        call_ensures(ensure_slice, (), r),
    ensures
        steps_view(r@).len() == 3,
        steps_view(r@)[0] == StepView::CreateDir("sys/fs/cgroup/classicd.slice"@),
        steps_view(r@)[1] == StepView::Write(
            "sys/fs/cgroup/cgroup.subtree_control"@,
            "+cpu +memory +pids\n"@,
        ),
        steps_view(r@)[2] == StepView::Write(
            "sys/fs/cgroup/classicd.slice/cgroup.subtree_control"@,
            "+cpu +memory +pids\n"@,
        ),
{
    law_scope_path(MboxId(0));
    reveal_strlit("sys/fs/cgroup");
    reveal_strlit("/cgroup.subtree_control");
    reveal_strlit("sys/fs/cgroup/cgroup.subtree_control");
    reveal_strlit("sys/fs/cgroup/classicd.slice");
    reveal_strlit("sys/fs/cgroup/classicd.slice/cgroup.subtree_control");
    assert("sys/fs/cgroup"@ + "/cgroup.subtree_control"@
        =~= "sys/fs/cgroup/cgroup.subtree_control"@);
    assert("sys/fs/cgroup/classicd.slice"@ + "/cgroup.subtree_control"@
        =~= "sys/fs/cgroup/classicd.slice/cgroup.subtree_control"@);
}

/// A scope is made for the task, with the helper in it last, and goes away with
/// its handle.
pub proof fn law_scope_made(mbox: MboxId, pid: i32, r: (Vec<Step>, ScopeHandle))
    requires
        call_ensures(create_scope, (mbox, pid), r),
    ensures
        ({
            let s = steps_view(r.0@);
            let dir = "sys/fs/cgroup/classicd.slice/task-"@ + dec(mbox.0 as nat) + ".scope"@;
            &&& s.len() == 5
            &&& s[0] == StepView::CreateDir(dir)
            &&& s[3] == StepView::Write(dir + "/pids.max"@, "1024\n"@)
            &&& s[4] matches StepView::Write(p, t) && p == dir + "/cgroup.procs"@ && t.len() > 0
                && dec_i32(t.drop_last()) == Some(pid)
            &&& r.1.on_drop() == Some(StepView::RemoveDir(dir))
        }),
{
    law_scope_path(mbox);
    law_scope_steps(mbox, pid);
}

/// A torn-down scope is removed once.
pub proof fn law_scope_torn_down(h: &mut ScopeHandle, s: Step)
    requires
        call_ensures(ScopeHandle::teardown, (h,), s),
    ensures
        s@ == StepView::RemoveDir(old(h).rel_path@),
        final(h).on_drop() is None,
{
}

/// The GPUs are the numbered nodes: their numbers, each once, in ascending order.
pub proof fn law_gpus_listed(names: &Vec<String>, r: Vec<u32>, n: u32, i: int)
    requires
        call_ensures(list_nvidia_minors, (names,), r),
    ensures
        increasing(r@),
        0 <= i < names@.len() && names@[i]@ == "nvidia"@ + dec(n as nat) ==> r@.contains(n),
{
    if 0 <= i < names@.len() && names@[i]@ == "nvidia"@ + dec(n as nat) {
        law_nvidia_minor(n, Seq::empty(), 0);
        assert(crate::cap::nvidia::minor_of(names@[i]@) == Some(n));
    }
}

/// The device numbers of a `uevent` file.
pub proof fn law_uevent_parsed(
    raw: &str,
    r: Option<(u32, u32)>,
    i: int,
    major: u32,
    j: int,
    minor: u32,
    a: Seq<char>,
    b: Seq<char>,
)
    requires
        call_ensures(parse_uevent, (raw,), r),
        assigned_at(lines(raw@), "MAJOR="@, i, a, major, b),
        assigned_at(lines(raw@), "MINOR="@, j, a, minor, b),
    ensures
        r == Some((major, minor)),
{
    law_uevent(raw@, i, major, j, minor, a, b);
}

/// The allowlist of a holder starts with the memory devices, has a GPU of its caps
/// and the control node, and nothing more where there are no caps.
pub proof fn law_allowlist_built<F: Fn(crate::cap::broker::BdfAddr) -> Option<(u32, u32)>>(
    caps: &[CapSnapshot],
    f: F,
    r: Allowlist,
    i: int,
    n: u32,
)
    requires
        call_ensures(build_allowlist::<F>, (caps, f), r),
    ensures
        r.entries@.len() > 0,
        allows_all(r.entries@[0], 1),
        0 <= i < caps@.len() && caps@[i].kind == DeviceKind::GpuMinor(n) ==> {
            &&& exists|j: int| 0 <= j < r.entries@.len() && allows_one(#[trigger] r.entries@[j], 195, n)
            &&& exists|j: int|
                0 <= j < r.entries@.len() && allows_one(#[trigger] r.entries@[j], 195, 255)
        },
        caps@.len() == 0 ==> r.entries@.len() == 1,
{
    let resolved = choose|resolved: Seq<Option<(u32, u32)>>| #[trigger]
        crate::cap::devctrl::resolves(f, caps@, resolved) && r.entries@
            == crate::cap::devctrl::allow_rules(caps@, resolved);
    let first = r.entries@[0];
    law_allowlist(caps@, resolved, first);
    if 0 <= i < caps@.len() && caps@[i].kind == DeviceKind::GpuMinor(n) {
        let gpu = crate::cap::devctrl::char_rule(195, n);
        let ctl = crate::cap::devctrl::char_rule(195, 255);
        assert(crate::cap::kernel_laws::cap_for(caps@[i], resolved[i], 195, n));
        law_allowlist(caps@, resolved, gpu);
        law_allowlist(caps@, resolved, ctl);
        let a = choose|j: int| 0 <= j < r.entries@.len() && r.entries@[j] == gpu;
        assert(allows_one(r.entries@[a], 195, n));
        let b = choose|j: int| 0 <= j < r.entries@.len() && r.entries@[j] == ctl;
        assert(allows_one(r.entries@[b], 195, 255));
    }
}

} // verus!

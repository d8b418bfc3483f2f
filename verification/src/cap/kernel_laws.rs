//! What the kernel is told and what it tells, by the texts of its files.
use crate::cap::broker::{BdfAddr, CapSnapshot, DeviceKind};
use crate::cap::cgroup::{scope_path, scope_steps, slice_path, ScopeHandle, StepView};
use crate::cap::devctrl::{allow_rules, law_allowed_has_reason, law_cap_allowed, DeviceRule};
use crate::cap::nvidia::{all_digits, minor_of};
use crate::cap::pci::{device_numbers, last_assigned, uevent_path};
use crate::ident::MboxId;
use crate::render::{dec, signed_dec};
use crate::scan::{dec_i32, lines, starts_with, strip};
use crate::scan_laws::{
    blank_text, law_dec, law_dec_read, law_signed_read, law_strip, law_trimmed, law_white_space,
};
use vstd::prelude::*;

verus! {

/// Tasks live under the slice of the daemon, each in a scope by its number.
pub proof fn law_scope_path(mbox: MboxId)
    ensures
        slice_path() == "sys/fs/cgroup/classicd.slice"@,
        scope_path(mbox) == "sys/fs/cgroup/classicd.slice/task-"@ + dec(mbox.0 as nat)
            + ".scope"@,
{
    reveal_strlit("sys/fs/cgroup/classicd.slice");
    reveal_strlit("sys/fs/cgroup");
    reveal_strlit("/classicd.slice");
    reveal_strlit("sys/fs/cgroup/classicd.slice/task-");
    reveal_strlit("/task-");
    reveal_strlit(".scope");
    assert(slice_path() =~= "sys/fs/cgroup/classicd.slice"@);
    assert(slice_path() + "/task-"@ =~= "sys/fs/cgroup/classicd.slice/task-"@);
}

/// A scope is made first; then memory and CPU are left without a limit, the tasks
/// limited to 1024, and last the helper is put in, so that nothing it starts is
/// ever outside the limits.
pub proof fn law_scope_steps(mbox: MboxId, pid: i32)
    ensures
        ({
            let s = scope_steps(mbox, pid);
            let dir = scope_path(mbox);
            &&& s.len() == 5
            &&& s[0] == StepView::CreateDir(dir)
            &&& s[1] == StepView::Write(dir + "/memory.max"@, "max\n"@)
            &&& s[2] == StepView::Write(dir + "/cpu.max"@, "max\n"@)
            &&& s[3] == StepView::Write(dir + "/pids.max"@, "1024\n"@)
            &&& s[4] matches StepView::Write(p, t) && p == dir + "/cgroup.procs"@ && t.len() > 0
                && t.last() == '\n' && dec_i32(t.drop_last()) == Some(pid)
        }),
{
    let s = scope_steps(mbox, pid);
    reveal_strlit("\n");
    reveal_strlit("1024\n");
    law_signed_read(pid);
    let t = signed_dec(pid as int) + "\n"@;
    assert(t.drop_last() =~= signed_dec(pid as int));
    assert(dec(1024) =~= seq!['1', '0', '2', '4']) by {
        reveal_with_fuel(dec, 5);
    }
    assert(dec(1024) + "\n"@ =~= "1024\n"@);
}

/// A scope that was not torn down is removed when its handle goes away.
pub proof fn law_scope_dropped(h: ScopeHandle)
    ensures
        h.consumed ==> h.on_drop() is None,
        !h.consumed ==> h.on_drop() == Some(StepView::RemoveDir(h.rel_path@)),
{
}

/// Whether the rule allows exactly the one character device.
pub open spec fn allows_one(r: DeviceRule, major: u32, minor: u32) -> bool {
    r.class is Char && r.major == major && r.minor == Some(minor)
}

/// Whether the rule allows every character device of the major number.
pub open spec fn allows_all(r: DeviceRule, major: u32) -> bool {
    r.class is Char && r.major == major && r.minor is None
}

/// Whether the cap is for the device.
pub open spec fn cap_for(
    c: CapSnapshot,
    resolved: Option<(u32, u32)>,
    major: u32,
    minor: u32,
) -> bool {
    match c.kind {
        DeviceKind::GpuMinor(n) => major == 195 && minor == n,
        DeviceKind::PciSlot(_) => resolved == Some((major, minor)),
    }
}

/// What is allowed: the memory devices, always and first; the two control nodes
/// of the GPUs where there is a cap for a GPU; the device of each cap; and nothing
/// else.
pub proof fn law_allowlist(
    caps: Seq<CapSnapshot>,
    resolved: Seq<Option<(u32, u32)>>,
    r: DeviceRule,
)
    requires
        resolved.len() == caps.len(),
    ensures
        allow_rules(caps, resolved).len() > 0,
        allows_all(allow_rules(caps, resolved)[0], 1),
        allow_rules(caps, resolved).contains(r) <==> {
            ||| allows_all(r, 1)
            ||| (allows_one(r, 195, 254) || allows_one(r, 195, 255)) && exists|i: int|
                0 <= i < caps.len() && (#[trigger] caps[i]).kind is GpuMinor
            ||| r.class is Char && (r.minor matches Some(minor) && exists|i: int|
                0 <= i < caps.len() && cap_for(#[trigger] caps[i], resolved[i], r.major, minor))
        },
{
    let all = allow_rules(caps, resolved);
    if all.contains(r) {
        law_allowed_has_reason(caps, resolved, r);
        if exists|i: int|
            0 <= i < caps.len() && match (#[trigger] caps[i]).kind {
                DeviceKind::GpuMinor(n) => r == crate::cap::devctrl::char_rule(195, n),
                DeviceKind::PciSlot(_) => resolved[i] matches Some((major, minor)) && r
                    == crate::cap::devctrl::char_rule(major, minor),
            } {
            let i = choose|i: int|
                0 <= i < caps.len() && match (#[trigger] caps[i]).kind {
                    DeviceKind::GpuMinor(n) => r == crate::cap::devctrl::char_rule(195, n),
                    DeviceKind::PciSlot(_) => resolved[i] matches Some((major, minor)) && r
                        == crate::cap::devctrl::char_rule(major, minor),
                };
            assert(cap_for(caps[i], resolved[i], r.major, r.minor->Some_0));
        }
    }
    if allows_all(r, 1) {
        assert(all[0] == r);
    }
    if (allows_one(r, 195, 254) || allows_one(r, 195, 255)) && exists|i: int|
        0 <= i < caps.len() && (#[trigger] caps[i]).kind is GpuMinor {
        let i = choose|i: int| 0 <= i < caps.len() && (#[trigger] caps[i]).kind is GpuMinor;
        law_cap_allowed(caps, resolved, i);
    }
    if r.class is Char && (r.minor matches Some(minor) && exists|i: int|
        0 <= i < caps.len() && cap_for(#[trigger] caps[i], resolved[i], r.major, minor)) {
        let minor = r.minor->Some_0;
        let i = choose|i: int|
            0 <= i < caps.len() && cap_for(#[trigger] caps[i], resolved[i], r.major, minor);
        law_cap_allowed(caps, resolved, i);
    }
}

proof fn lemma_no_digit(c: char)
    ensures
        48 <= c as u32 <= 57 <==> '0' <= c <= '9',
{
}

/// A numbered GPU node gives its number; a name with anything but digits behind
/// `nvidia`, or nothing, or without it, gives none.
pub proof fn law_nvidia_minor(n: u32, rest: Seq<char>, k: int)
    ensures
        minor_of("nvidia"@ + dec(n as nat)) == Some(n),
        minor_of("nvidia"@) is None,
        0 <= k < rest.len() && !('0' <= rest[k] <= '9') ==> minor_of("nvidia"@ + rest) is None,
        !starts_with(rest, "nvidia"@) ==> minor_of(rest) is None,
{
    law_dec(n as nat);
    law_dec_read(n as nat);
    law_strip("nvidia"@, dec(n as nat), Seq::empty());
    law_strip("nvidia"@, rest, Seq::empty());
    law_strip("nvidia"@, Seq::empty(), Seq::empty());
    assert("nvidia"@ + Seq::<char>::empty() =~= "nvidia"@);
    let d = dec(n as nat);
    assert forall|i: int| 0 <= i < d.len() implies 48 <= (#[trigger] d[i] as u32) <= 57 by {
        assert('0' <= d[i] <= '9');
    }
    if 0 <= k < rest.len() && !('0' <= rest[k] <= '9') {
        lemma_no_digit(rest[k]);
        assert(!all_digits(rest));
    }
}

/// The `uevent` file of a device lies in the directory of its address.
pub proof fn law_uevent_path(bdf: BdfAddr)
    ensures
        strip(uevent_path(bdf), "sys/bus/pci/devices/"@) matches Some(t) && strip(t, bdf.text())
            == Some("/uevent"@),
{
    law_strip("sys/bus/pci/devices/"@, bdf.text() + "/uevent"@, Seq::empty());
    law_strip(bdf.text(), "/uevent"@, Seq::empty());
    assert("sys/bus/pci/devices/"@ + (bdf.text() + "/uevent"@) =~= uevent_path(bdf));
}

/// Whether line `i` is the last that starts with the prefix, and the number stands
/// behind it, perhaps between white space.
pub open spec fn assigned_at(
    ls: Seq<Seq<char>>,
    prefix: Seq<char>,
    i: int,
    a: Seq<char>,
    n: u32,
    b: Seq<char>,
) -> bool {
    &&& 0 <= i < ls.len()
    &&& blank_text(a)
    &&& blank_text(b)
    &&& ls[i] == prefix + (a + dec(n as nat) + b)
    &&& forall|j: int| i < j < ls.len() ==> !starts_with(#[trigger] ls[j], prefix)
}

proof fn lemma_assigned(
    ls: Seq<Seq<char>>,
    prefix: Seq<char>,
    i: int,
    a: Seq<char>,
    n: u32,
    b: Seq<char>,
)
    requires
        assigned_at(ls, prefix, i, a, n, b),
    ensures
        last_assigned(ls, prefix) == Some(n),
    decreases ls.len(),
{
    if i == ls.len() - 1 {
        let d = dec(n as nat);
        law_dec(n as nat);
        law_dec_read(n as nat);
        law_strip(prefix, a + d + b, Seq::empty());
        law_white_space(d[0]);
        law_white_space(d[d.len() - 1]);
        assert('0' <= d[0] <= '9' && '0' <= d[d.len() - 1] <= '9');
        law_trimmed(a, d, b);
    } else {
        let init = ls.drop_last();
        assert(!starts_with(ls[ls.len() - 1], prefix));
        assert forall|j: int| i < j < init.len() implies !starts_with(#[trigger] init[j], prefix) by {
            assert(init[j] == ls[j]);
        }
        lemma_assigned(init, prefix, i, a, n, b);
    }
}

proof fn lemma_unassigned(ls: Seq<Seq<char>>, prefix: Seq<char>)
    requires
        forall|j: int| 0 <= j < ls.len() ==> !starts_with(#[trigger] ls[j], prefix),
    ensures
        last_assigned(ls, prefix) is None,
    decreases ls.len(),
{
    if ls.len() > 0 {
        let init = ls.drop_last();
        assert(!starts_with(ls[ls.len() - 1], prefix));
        assert forall|j: int| 0 <= j < init.len() implies !starts_with(#[trigger] init[j], prefix) by {
            assert(init[j] == ls[j]);
        }
        lemma_unassigned(init, prefix);
    }
}

/// A `uevent` file gives the numbers behind `MAJOR=` and `MINOR=`, in whichever
/// order they stand, and none where one of them is missing.
pub proof fn law_uevent(
    raw: Seq<char>,
    i: int,
    major: u32,
    j: int,
    minor: u32,
    a: Seq<char>,
    b: Seq<char>,
)
    ensures
        assigned_at(lines(raw), "MAJOR="@, i, a, major, b) && assigned_at(
            lines(raw),
            "MINOR="@,
            j,
            a,
            minor,
            b,
        ) ==> device_numbers(raw) == Some((major, minor)),
        (forall|k: int|
            0 <= k < lines(raw).len() ==> !starts_with(#[trigger] lines(raw)[k], "MAJOR="@))
            ==> device_numbers(raw) is None,
        (forall|k: int|
            0 <= k < lines(raw).len() ==> !starts_with(#[trigger] lines(raw)[k], "MINOR="@))
            ==> device_numbers(raw) is None,
{
    let ls = lines(raw);
    if assigned_at(ls, "MAJOR="@, i, a, major, b) && assigned_at(ls, "MINOR="@, j, a, minor, b) {
        lemma_assigned(ls, "MAJOR="@, i, a, major, b);
        lemma_assigned(ls, "MINOR="@, j, a, minor, b);
    }
    if forall|k: int| 0 <= k < ls.len() ==> !starts_with(#[trigger] ls[k], "MAJOR="@) {
        lemma_unassigned(ls, "MAJOR="@);
    }
    if forall|k: int| 0 <= k < ls.len() ==> !starts_with(#[trigger] ls[k], "MINOR="@) {
        lemma_unassigned(ls, "MINOR="@);
    }
}

} // verus!

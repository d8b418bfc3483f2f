//! Which device nodes a task may open: the allowlist that follows from the caps
//! of one holder.
use crate::cap::broker::{BdfAddr, CapSnapshot, DeviceKind};
use vstd::prelude::*;

verus! {

/// Logical contents of the allowlist: `(class, major, minor)` triples,
/// `Some(minor)` for a single minor, `None` for the wildcard.
///
/// The base set (`/dev/null`, `/dev/zero`, `/dev/random`, `/dev/urandom`) is
/// always allowed under `(c, 1, *)`. Every `GpuMinor(N)` adds `(c, 195, N)`,
/// and any of them also unlocks the NVIDIA control nodes `(c, 195, 254)` and
/// `(c, 195, 255)`. `PciSlot(bdf)` adds the numbers that it resolves to.
#[derive(Debug, PartialEq, Eq)]
pub struct Allowlist {
    pub entries: Vec<DeviceRule>,
}

impl Clone for Allowlist {
    fn clone(&self) -> (r: Self)
        ensures
            r.entries@ == self.entries@,
    {
        let mut entries: Vec<DeviceRule> = Vec::new();
        let mut i: usize = 0;
        while i < self.entries.len()
            invariant
                i <= self.entries@.len(),
                entries@ == self.entries@.take(i as int),
            decreases self.entries@.len() - i,
        {
            entries.push(self.entries[i]);
            assert(self.entries@.take(i + 1) =~= self.entries@.take(i as int).push(
                self.entries@[i as int],
            ));
            i = i + 1;
        }
        assert(self.entries@.take(i as int) =~= self.entries@);
        Allowlist { entries }
    }
}

/// One entry of the allowlist.
#[derive(Clone, Copy, Debug, PartialEq, Eq, Structural)]
pub struct DeviceRule {
    pub class: DeviceClass,
    pub major: u32,
    /// `None` = wildcard ("any minor in this major").
    pub minor: Option<u32>,
}

/// Character or block device.
#[derive(Copy, Clone, Debug, PartialEq, Eq, Structural)]
pub enum DeviceClass {
    Char,
    Block,
}

/// The major of the NVIDIA device nodes.
pub const NVIDIA_CTL_MAJOR: u32 = 195;

/// A single character device.
pub open spec fn char_rule(major: u32, minor: u32) -> DeviceRule {
    DeviceRule { class: DeviceClass::Char, major, minor: Some(minor) }
}

/// Whether any of the caps is for a GPU.
pub open spec fn any_gpu(caps: Seq<CapSnapshot>) -> bool {
    exists|i: int| 0 <= i < caps.len() && (#[trigger] caps[i]).kind is GpuMinor
}

/// The rules of the caps themselves. `resolved` holds for each cap what its PCI
/// address resolves to; it does not matter for a GPU.
pub open spec fn cap_rules(
    caps: Seq<CapSnapshot>,
    resolved: Seq<Option<(u32, u32)>>,
) -> Seq<DeviceRule>
    decreases caps.len(),
{
    if caps.len() == 0 {
        Seq::empty()
    } else {
        let init = cap_rules(caps.drop_last(), resolved);
        match caps.last().kind {
            DeviceKind::GpuMinor(n) => init.push(char_rule(NVIDIA_CTL_MAJOR, n)),
            DeviceKind::PciSlot(_) => match resolved[caps.len() - 1] {
                Some((major, minor)) => init.push(char_rule(major, minor)),
                None => init,
            },
        }
    }
}

/// The allowlist: the base set, the control nodes if there is a GPU, then the
/// rules of the caps.
pub open spec fn allow_rules(
    caps: Seq<CapSnapshot>,
    resolved: Seq<Option<(u32, u32)>>,
) -> Seq<DeviceRule> {
    let base = seq![DeviceRule { class: DeviceClass::Char, major: 1, minor: None }];
    let control = if any_gpu(caps) {
        seq![char_rule(NVIDIA_CTL_MAJOR, 254), char_rule(NVIDIA_CTL_MAJOR, 255)]
    } else {
        Seq::empty()
    };
    base + control + cap_rules(caps, resolved)
}

/// Whether `resolved` holds what the resolver gives for each PCI cap.
pub open spec fn resolves<F: Fn(BdfAddr) -> Option<(u32, u32)>>(
    f: F,
    caps: Seq<CapSnapshot>,
    resolved: Seq<Option<(u32, u32)>>,
) -> bool {
    &&& resolved.len() == caps.len()
    &&& forall|i: int|
        0 <= i < caps.len() ==> ((#[trigger] caps[i]).kind matches DeviceKind::PciSlot(bdf)
            ==> call_ensures(f, (bdf,), resolved[i]))
}

proof fn lemma_cap_rules_prefix(
    caps: Seq<CapSnapshot>,
    a: Seq<Option<(u32, u32)>>,
    b: Seq<Option<(u32, u32)>>,
)
    requires
        caps.len() <= a.len(),
        caps.len() <= b.len(),
        forall|i: int| 0 <= i < caps.len() ==> a[i] == b[i],
    ensures
        cap_rules(caps, a) == cap_rules(caps, b),
    decreases caps.len(),
{
    if caps.len() > 0 {
        lemma_cap_rules_prefix(caps.drop_last(), a, b);
    }
}

/// Build the allowlist for the caps of one holder. PCI addresses are resolved
/// by the caller's `pci_resolver`.
pub fn build_allowlist<F: Fn(BdfAddr) -> Option<(u32, u32)>>(
    holder_caps: &[CapSnapshot],
    pci_resolver: F,
) -> (r: Allowlist)
    requires
        forall|bdf: BdfAddr| call_requires(pci_resolver, (bdf,)),
    ensures
        exists|resolved: Seq<Option<(u32, u32)>>| #[trigger]
            resolves(pci_resolver, holder_caps@, resolved) && r.entries@ == allow_rules(
                holder_caps@,
                resolved,
            ),
{
    let mut entries: Vec<DeviceRule> = Vec::new();
    entries.push(DeviceRule { class: DeviceClass::Char, major: 1, minor: None });
    let mut gpu = false;
    let mut i: usize = 0;
    while i < holder_caps.len()
        invariant
            i <= holder_caps@.len(),
            gpu <==> exists|k: int| 0 <= k < i && (#[trigger] holder_caps@[k]).kind is GpuMinor,
        decreases holder_caps@.len() - i,
    {
        if let DeviceKind::GpuMinor(_) = holder_caps[i].kind {
            gpu = true;
            assert(holder_caps@[i as int].kind is GpuMinor);
        }
        i = i + 1;
    }
    if gpu {
        entries.push(
            DeviceRule { class: DeviceClass::Char, major: NVIDIA_CTL_MAJOR, minor: Some(254) },
        );
        entries.push(
            DeviceRule { class: DeviceClass::Char, major: NVIDIA_CTL_MAJOR, minor: Some(255) },
        );
    }
    let ghost prefix = entries@;
    let ghost mut resolved: Seq<Option<(u32, u32)>> = Seq::empty();
    let mut k: usize = 0;
    assert(holder_caps@.take(0) =~= Seq::empty());
    assert(prefix + Seq::<DeviceRule>::empty() =~= prefix);
    while k < holder_caps.len()
        invariant
            k <= holder_caps@.len(),
            forall|bdf: BdfAddr| call_requires(pci_resolver, (bdf,)),
            resolves(pci_resolver, holder_caps@.take(k as int), resolved),
            entries@ == prefix + cap_rules(holder_caps@.take(k as int), resolved),
        decreases holder_caps@.len() - k,
    {
        let ghost was = entries@;
        let ghost had = resolved;
        let ghost caps = holder_caps@.take(k + 1);
        assert(caps.drop_last() =~= holder_caps@.take(k as int));
        assert(caps.last() == holder_caps@[k as int]);
        match holder_caps[k].kind {
            DeviceKind::GpuMinor(n) => {
                proof {
                    resolved = had.push(None);
                    lemma_cap_rules_prefix(caps.drop_last(), had, resolved);
                }
                entries.push(
                    DeviceRule {
                        class: DeviceClass::Char,
                        major: NVIDIA_CTL_MAJOR,
                        minor: Some(n),
                    },
                );
            },
            DeviceKind::PciSlot(bdf) => {
                let numbers = pci_resolver(bdf);
                proof {
                    resolved = had.push(numbers);
                    lemma_cap_rules_prefix(caps.drop_last(), had, resolved);
                }
                if let Some((major, minor)) = numbers {
                    entries.push(
                        DeviceRule { class: DeviceClass::Char, major, minor: Some(minor) },
                    );
                }
            },
        }
        proof {
            assert forall|i: int| 0 <= i < caps.len() implies ((#[trigger] caps[i]).kind matches
                DeviceKind::PciSlot(bdf) ==> call_ensures(pci_resolver, (bdf,), resolved[i])) by {
                if i < k {
                    assert(caps[i] == holder_caps@.take(k as int)[i]);
                    assert(resolved[i] == had[i]);
                }
            }
            assert(entries@ =~= prefix + cap_rules(caps, resolved));
        }
        k = k + 1;
    }
    assert(holder_caps@.take(k as int) =~= holder_caps@);
    assert(entries@ =~= allow_rules(holder_caps@, resolved));
    Allowlist { entries }
}

/// A cap allows its own device, and a GPU cap the control nodes.
pub proof fn law_cap_allowed(
    caps: Seq<CapSnapshot>,
    resolved: Seq<Option<(u32, u32)>>,
    i: int,
)
    requires
        0 <= i < caps.len() <= resolved.len(),
    ensures
        match caps[i].kind {
            DeviceKind::GpuMinor(n) => {
                &&& allow_rules(caps, resolved).contains(char_rule(NVIDIA_CTL_MAJOR, n))
                &&& allow_rules(caps, resolved).contains(char_rule(NVIDIA_CTL_MAJOR, 254))
                &&& allow_rules(caps, resolved).contains(char_rule(NVIDIA_CTL_MAJOR, 255))
            },
            DeviceKind::PciSlot(_) => resolved[i] matches Some((major, minor)) ==> allow_rules(
                caps,
                resolved,
            ).contains(char_rule(major, minor)),
        },
{
    lemma_cap_rule_in(caps, resolved, i);
    let rules = cap_rules(caps, resolved);
    let all = allow_rules(caps, resolved);
    let n = all.len() - rules.len();
    if caps[i].kind is GpuMinor {
        assert(any_gpu(caps));
        assert(all[1] == char_rule(NVIDIA_CTL_MAJOR, 254));
        assert(all[2] == char_rule(NVIDIA_CTL_MAJOR, 255));
    }
    assert forall|r: DeviceRule| rules.contains(r) implies all.contains(r) by {
        let k = choose|k: int| 0 <= k < rules.len() && rules[k] == r;
        assert(all[n + k] == r);
    }
}

proof fn lemma_cap_rule_in(caps: Seq<CapSnapshot>, resolved: Seq<Option<(u32, u32)>>, i: int)
    requires
        0 <= i < caps.len() <= resolved.len(),
    ensures
        match caps[i].kind {
            DeviceKind::GpuMinor(n) => cap_rules(caps, resolved).contains(
                char_rule(NVIDIA_CTL_MAJOR, n),
            ),
            DeviceKind::PciSlot(_) => resolved[i] matches Some((major, minor)) ==> cap_rules(
                caps,
                resolved,
            ).contains(char_rule(major, minor)),
        },
    decreases caps.len(),
{
    let all = cap_rules(caps, resolved);
    let init = cap_rules(caps.drop_last(), resolved);
    if i < caps.len() - 1 {
        assert(caps.drop_last()[i] == caps[i]);
        lemma_cap_rule_in(caps.drop_last(), resolved, i);
        assert forall|r: DeviceRule| init.contains(r) implies all.contains(r) by {
            let k = choose|k: int| 0 <= k < init.len() && init[k] == r;
            assert(all[k] == r);
        }
    } else if all.len() > 0 {
        assert(all.contains(all[all.len() - 1]));
    }
}

/// What is allowed has a reason: it is in the base set, it is a control node
/// and there is a GPU cap, or it is the device of a cap.
pub proof fn law_allowed_has_reason(
    caps: Seq<CapSnapshot>,
    resolved: Seq<Option<(u32, u32)>>,
    r: DeviceRule,
)
    requires
        caps.len() <= resolved.len(),
        allow_rules(caps, resolved).contains(r),
    ensures
        ({
            ||| r == (DeviceRule { class: DeviceClass::Char, major: 1, minor: None })
            ||| any_gpu(caps) && (r == char_rule(NVIDIA_CTL_MAJOR, 254) || r == char_rule(
                NVIDIA_CTL_MAJOR,
                255,
            ))
            ||| exists|i: int|
                0 <= i < caps.len() && match (#[trigger] caps[i]).kind {
                    DeviceKind::GpuMinor(n) => r == char_rule(NVIDIA_CTL_MAJOR, n),
                    DeviceKind::PciSlot(_) => resolved[i] matches Some((major, minor)) && r
                        == char_rule(major, minor),
                }
        }),
{
    let rules = cap_rules(caps, resolved);
    let all = allow_rules(caps, resolved);
    let k = choose|k: int| 0 <= k < all.len() && all[k] == r;
    let n = all.len() - rules.len();
    if k >= n {
        assert(rules[k - n] == r);
        lemma_rule_from_cap(caps, resolved, k - n);
    }
}

proof fn lemma_rule_from_cap(caps: Seq<CapSnapshot>, resolved: Seq<Option<(u32, u32)>>, k: int)
    requires
        caps.len() <= resolved.len(),
        0 <= k < cap_rules(caps, resolved).len(),
    ensures
        exists|i: int|
            0 <= i < caps.len() && match (#[trigger] caps[i]).kind {
                DeviceKind::GpuMinor(n) => cap_rules(caps, resolved)[k] == char_rule(
                    NVIDIA_CTL_MAJOR,
                    n,
                ),
                DeviceKind::PciSlot(_) => resolved[i] matches Some((major, minor)) && cap_rules(
                    caps,
                    resolved,
                )[k] == char_rule(major, minor),
            },
    decreases caps.len(),
{
    let init = cap_rules(caps.drop_last(), resolved);
    if k < init.len() {
        lemma_rule_from_cap(caps.drop_last(), resolved, k);
        let i = choose|i: int|
            0 <= i < caps.drop_last().len() && match (#[trigger] caps.drop_last()[i]).kind {
                DeviceKind::GpuMinor(n) => init[k] == char_rule(NVIDIA_CTL_MAJOR, n),
                DeviceKind::PciSlot(_) => resolved[i] matches Some((major, minor)) && init[k]
                    == char_rule(major, minor),
            };
        assert(caps[i] == caps.drop_last()[i]);
    } else {
        assert(caps[caps.len() - 1] == caps.last());
    }
}

/// What attaches an allowlist to a scope.
pub trait DeviceController {
    /// The rules in force, if any were pushed.
    spec fn rules(&self) -> Option<Seq<DeviceRule>>;

    /// Push the latest allowlist for this scope. Idempotent: safe to call
    /// repeatedly with the same allowlist.
    fn sync(&mut self, allowlist: &Allowlist)
        ensures
            final(self).rules() == Some(allowlist.entries@),
    ;
}

/// Unprivileged stand-in. Records the most recent sync.
pub struct NoOpDeviceController {
    pub last: Option<Allowlist>,
}

impl NoOpDeviceController {
    pub fn new() -> (c: Self)
        ensures
            c.last is None,
    {
        NoOpDeviceController { last: None }
    }

    /// The allowlist pushed last.
    pub fn last(&self) -> (r: Option<Allowlist>)
        ensures
            match self.last {
                None => r is None,
                Some(a) => r is Some && r->Some_0.entries@ == a.entries@,
            },
    {
        match &self.last {
            None => None,
            Some(a) => Some(a.clone()),
        }
    }
}

impl DeviceController for NoOpDeviceController {
    open spec fn rules(&self) -> Option<Seq<DeviceRule>> {
        match self.last {
            None => None,
            Some(a) => Some(a.entries@),
        }
    }

    fn sync(&mut self, allowlist: &Allowlist) {
        self.last = Some(allowlist.clone());
    }
}

} // verus!

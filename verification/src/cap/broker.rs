//! Device-capability broker: in-memory accounting of who holds which device.
use crate::ident::MboxId;
use crate::render::{dec, dec_text, hex, hex_text};
use vstd::prelude::*;
use vstd::string::StringExecFns;

verus! {

/// Identifier for a kind of device the broker tracks.
#[derive(Copy, Clone, Debug, PartialEq, Eq, Hash, Structural)]
pub enum DeviceKind {
    /// `/dev/nvidia<N>`.
    GpuMinor(u32),
    /// Non-NVIDIA passthrough.
    PciSlot(BdfAddr),
}

/// PCI bus-device-function address.
#[derive(Copy, Clone, Debug, PartialEq, Eq, Hash, Structural)]
pub struct BdfAddr {
    pub domain: u16,
    pub bus: u8,
    pub device: u8,
    pub function: u8,
}

impl BdfAddr {
    /// The standard Linux `DDDD:BB:DD.F` rendering.
    pub open spec fn text(self) -> Seq<char> {
        hex(self.domain as nat, 4) + ":"@ + hex(self.bus as nat, 2) + ":"@ + hex(
            self.device as nat,
            2,
        ) + "."@ + dec((self.function % 8) as nat)
    }

    /// The standard Linux `DDDD:BB:DD.F` rendering.
    pub fn to_string(&self) -> (s: String)
        ensures
            s@ == self.text(),
    {
        let mut s = hex_text(self.domain as u128, 4);
        s.append(":");
        s.append(hex_text(self.bus as u128, 2).as_str());
        s.append(":");
        s.append(hex_text(self.device as u128, 2).as_str());
        s.append(".");
        s.append(dec_text((self.function % 8) as u64).as_str());
        s
    }
}

/// Why a request for devices was refused.
#[derive(Copy, Clone, Debug, PartialEq, Eq, Structural)]
pub enum AcquireError {
    /// Exclusive acquire failed because the kind is currently held by any
    /// other holder (exclusive or shared).
    Taken { kind: DeviceKind },
    /// Shared acquire failed because the kind is currently held exclusively.
    /// `n` is the exclusive holder count (always 1).
    SharedConflict { kind: DeviceKind, n: usize },
}

impl AcquireError {
    /// The device that was asked for in vain.
    pub open spec fn kind_of(self) -> DeviceKind {
        match self {
            AcquireError::Taken { kind } => kind,
            AcquireError::SharedConflict { kind, .. } => kind,
        }
    }

    pub fn kind(&self) -> (k: DeviceKind)
        ensures
            k == self.kind_of(),
    {
        match self {
            AcquireError::Taken { kind } => *kind,
            AcquireError::SharedConflict { kind, .. } => *kind,
        }
    }
}

/// Diagnostic snapshot entry: what the broker knows of one cap.
#[derive(Copy, Clone, Debug, PartialEq, Eq, Structural)]
pub struct CapSnapshot {
    pub kind: DeviceKind,
    pub holder: MboxId,
    pub exclusive: bool,
}

/// Capability token, obtained from [`CapBroker::acquire`].
#[derive(Copy, Clone, Debug, PartialEq, Eq, Structural)]
pub struct DeviceCap {
    pub kind: DeviceKind,
    pub exclusive: bool,
    pub holder: MboxId,
    /// Finds the cap again when it is released: holder and kind are not unique
    /// for a shared one.
    pub cap_id: u64,
}

/// In-memory device-capability broker.
pub struct CapBroker {
    /// The id given out last.
    pub next_id: u64,
    /// The caps that are held, oldest first.
    pub caps: Vec<DeviceCap>,
}

/// The caps that are held, oldest first.
pub type Caps = Seq<DeviceCap>;

/// Whether anyone holds the kind.
pub open spec fn held(caps: Caps, kind: DeviceKind) -> bool {
    exists|i: int| 0 <= i < caps.len() && (#[trigger] caps[i]).kind == kind
}

/// How many hold the kind exclusively.
pub open spec fn exclusive_count(caps: Caps, kind: DeviceKind) -> nat
    decreases caps.len(),
{
    if caps.len() == 0 {
        0
    } else {
        exclusive_count(caps.drop_last(), kind) + if caps.last().kind == kind
            && caps.last().exclusive {
            1nat
        } else {
            0nat
        }
    }
}

/// Why one more holder of the kind cannot be had: an exclusive one needs the
/// kind to be free, a shared one needs it not to be held exclusively.
pub open spec fn conflict_of(caps: Caps, kind: DeviceKind, exclusive: bool) -> Option<
    AcquireError,
> {
    if exclusive && held(caps, kind) {
        Some(AcquireError::Taken { kind })
    } else if !exclusive && exclusive_count(caps, kind) > 0 {
        Some(AcquireError::SharedConflict { kind, n: exclusive_count(caps, kind) as usize })
    } else {
        None
    }
}

/// The kinds without repetitions, in the order of their first occurrence.
pub open spec fn distinct(kinds: Seq<DeviceKind>) -> Seq<DeviceKind>
    decreases kinds.len(),
{
    if kinds.len() == 0 {
        Seq::empty()
    } else {
        let init = distinct(kinds.drop_last());
        if init.contains(kinds.last()) {
            init
        } else {
            init.push(kinds.last())
        }
    }
}

/// The conflict of the first kind that has one.
pub open spec fn first_conflict(caps: Caps, kinds: Seq<DeviceKind>, exclusive: bool) -> Option<
    AcquireError,
>
    decreases kinds.len(),
{
    if kinds.len() == 0 {
        None
    } else {
        match first_conflict(caps, kinds.drop_last(), exclusive) {
            Some(e) => Some(e),
            None => conflict_of(caps, kinds.last(), exclusive),
        }
    }
}

/// The caps issued for the kinds: consecutive ids after `last_id`.
pub open spec fn issued(
    last_id: u64,
    holder: MboxId,
    kinds: Seq<DeviceKind>,
    exclusive: bool,
) -> Caps {
    Seq::new(
        kinds.len(),
        |i: int|
            DeviceCap { kind: kinds[i], exclusive, holder, cap_id: (last_id + 1 + i) as u64 },
    )
}

/// The caps without the one with the id.
pub open spec fn released(caps: Caps, cap_id: u64) -> Caps
    decreases caps.len(),
{
    if caps.len() == 0 {
        Seq::empty()
    } else if caps.last().cap_id == cap_id {
        released(caps.drop_last(), cap_id)
    } else {
        released(caps.drop_last(), cap_id).push(caps.last())
    }
}

/// The caps without those of the holder.
pub open spec fn without_holder(caps: Caps, holder: MboxId) -> Caps
    decreases caps.len(),
{
    if caps.len() == 0 {
        Seq::empty()
    } else if caps.last().holder == holder {
        without_holder(caps.drop_last(), holder)
    } else {
        without_holder(caps.drop_last(), holder).push(caps.last())
    }
}

/// Ids are unique and were given out in order.
pub open spec fn ids_in_order(caps: Caps, last_id: u64) -> bool {
    &&& forall|i: int, j: int|
        0 <= i < j < caps.len() ==> (#[trigger] caps[i]).cap_id < (#[trigger] caps[j]).cap_id
    &&& forall|i: int| 0 <= i < caps.len() ==> (#[trigger] caps[i]).cap_id <= last_id
}

/// A device that someone holds exclusively is held by no one else.
pub open spec fn exclusive_alone(caps: Caps) -> bool {
    forall|i: int, j: int|
        0 <= i < caps.len() && 0 <= j < caps.len() && i != j && (#[trigger] caps[i]).kind == (
        #[trigger] caps[j]).kind ==> !caps[i].exclusive && !caps[j].exclusive
}

/// What a cap shows of itself in a snapshot.
pub open spec fn shown(c: DeviceCap) -> CapSnapshot {
    CapSnapshot { kind: c.kind, holder: c.holder, exclusive: c.exclusive }
}

impl CapBroker {
    /// Ids are in order, and exclusive caps are alone on their device.
    pub open spec fn wf(&self) -> bool {
        ids_in_order(self.caps@, self.next_id) && exclusive_alone(self.caps@)
    }

    pub fn new() -> (b: Self)
        ensures
            b.wf(),
            b.caps@ == Seq::<DeviceCap>::empty(),
            b.next_id == 0,
    {
        CapBroker { next_id: 0, caps: Vec::new() }
    }

    fn conflict(&self, kind: DeviceKind, want_exclusive: bool) -> (r: Option<AcquireError>)
        ensures
            r == conflict_of(self.caps@, kind, want_exclusive),
    {
        let mut exclusive_holders: usize = 0;
        let mut total_holders: usize = 0;
        let mut i: usize = 0;
        assert(self.caps@.take(0) =~= Seq::empty());
        while i < self.caps.len()
            invariant
                i <= self.caps@.len(),
                exclusive_holders as nat == exclusive_count(self.caps@.take(i as int), kind),
                exclusive_holders <= i,
                total_holders <= i,
                total_holders > 0 <==> exists|k: int|
                    0 <= k < i && (#[trigger] self.caps@[k]).kind == kind,
            decreases self.caps@.len() - i,
        {
            let e = self.caps[i];
            assert(self.caps@.take(i + 1).drop_last() =~= self.caps@.take(i as int));
            if e.kind == kind {
                total_holders = total_holders + 1;
                assert(self.caps@[i as int].kind == kind);
                if e.exclusive {
                    exclusive_holders = exclusive_holders + 1;
                }
            }
            i = i + 1;
        }
        assert(self.caps@.take(i as int) =~= self.caps@);
        if want_exclusive {
            if total_holders > 0 {
                return Some(AcquireError::Taken { kind });
            }
            None
        } else {
            if exclusive_holders > 0 {
                return Some(AcquireError::SharedConflict { kind, n: exclusive_holders });
            }
            None
        }
    }

    /// Acquire all `kinds` for `holder`. All-or-nothing: if even one kind
    /// cannot be held under the requested `exclusive` flag, no caps are issued.
    /// Duplicate kinds are merged (treated as a single request per kind).
    pub fn acquire(&mut self, holder: MboxId, kinds: &[DeviceKind], exclusive: bool) -> (r: Result<
        Vec<DeviceCap>,
        AcquireError,
    >)
        requires
            old(self).wf(),
            old(self).next_id + distinct(kinds@).len() <= u64::MAX,
        ensures
            final(self).wf(),
            match first_conflict(old(self).caps@, distinct(kinds@), exclusive) {
                Some(e) => r == Err::<Vec<DeviceCap>, AcquireError>(e) && *final(self) == *old(
                    self,
                ),
                None => {
                    let new = issued(old(self).next_id, holder, distinct(kinds@), exclusive);
                    &&& r is Ok
                    &&& r->Ok_0@ == new
                    &&& final(self).caps@ == old(self).caps@ + new
                    &&& final(self).next_id == old(self).next_id + new.len()
                },
            },
    {
        let deduped = dedup(kinds);
        let mut k: usize = 0;
        assert(deduped@.take(0) =~= Seq::empty());
        while k < deduped.len()
            invariant
                k <= deduped@.len(),
                deduped@ == distinct(kinds@),
                *self == *old(self),
                first_conflict(self.caps@, deduped@.take(k as int), exclusive) is None,
                self.wf(),
            decreases deduped@.len() - k,
        {
            proof {
                assert(deduped@.take(k + 1).drop_last() =~= deduped@.take(k as int));
                assert(deduped@.take(k + 1).last() == deduped@[k as int]);
            }
            if let Some(e) = self.conflict(deduped[k], exclusive) {
                proof {
                    lemma_first_conflict(self.caps@, deduped@, exclusive, k + 1);
                }
                return Err(e);
            }
            k = k + 1;
        }
        assert(deduped@.take(k as int) =~= deduped@);
        let ghost new = issued(self.next_id, holder, deduped@, exclusive);
        let mut out: Vec<DeviceCap> = Vec::new();
        let mut i: usize = 0;
        assert(old(self).caps@ + new.take(0) =~= self.caps@);
        while i < deduped.len()
            invariant
                i <= deduped@.len(),
                deduped@ == distinct(kinds@),
                old(self).next_id + deduped@.len() <= u64::MAX,
                new == issued(old(self).next_id, holder, deduped@, exclusive),
                self.next_id == old(self).next_id + i,
                self.caps@ == old(self).caps@ + new.take(i as int),
                out@ == new.take(i as int),
            decreases deduped@.len() - i,
        {
            self.next_id = self.next_id + 1;
            let cap = DeviceCap { kind: deduped[i], exclusive, holder, cap_id: self.next_id };
            self.caps.push(cap);
            out.push(cap);
            proof {
                assert(cap == new[i as int]);
                assert(new.take(i + 1) =~= new.take(i as int).push(cap));
                assert(self.caps@ =~= old(self).caps@ + new.take(i + 1));
            }
            i = i + 1;
        }
        proof {
            assert(new.take(i as int) =~= new);
            lemma_issue_keeps_wf(old(self).caps@, old(self).next_id, holder, kinds@, exclusive);
        }
        Ok(out)
    }

    /// Gives a cap back. One that is gone already stays so.
    pub fn release(&mut self, cap_id: u64)
        requires
            old(self).wf(),
        ensures
            final(self).wf(),
            final(self).caps@ == released(old(self).caps@, cap_id),
            final(self).next_id == old(self).next_id,
    {
        let mut kept: Vec<DeviceCap> = Vec::new();
        let mut i: usize = 0;
        assert(self.caps@.take(0) =~= Seq::empty());
        while i < self.caps.len()
            invariant
                i <= self.caps@.len(),
                kept@ == released(self.caps@.take(i as int), cap_id),
            decreases self.caps@.len() - i,
        {
            let c = self.caps[i];
            assert(self.caps@.take(i + 1).drop_last() =~= self.caps@.take(i as int));
            if c.cap_id != cap_id {
                kept.push(c);
            }
            i = i + 1;
        }
        assert(self.caps@.take(i as int) =~= self.caps@);
        proof {
            lemma_released_sub(self.caps@, cap_id, self.next_id);
        }
        self.caps = kept;
    }

    /// Force-release every cap belonging to `holder`. A later release of one
    /// of them is a no-op.
    pub fn release_all(&mut self, holder: MboxId)
        requires
            old(self).wf(),
        ensures
            final(self).wf(),
            final(self).caps@ == without_holder(old(self).caps@, holder),
            final(self).next_id == old(self).next_id,
    {
        let mut kept: Vec<DeviceCap> = Vec::new();
        let mut i: usize = 0;
        assert(self.caps@.take(0) =~= Seq::empty());
        while i < self.caps.len()
            invariant
                i <= self.caps@.len(),
                kept@ == without_holder(self.caps@.take(i as int), holder),
            decreases self.caps@.len() - i,
        {
            let c = self.caps[i];
            assert(self.caps@.take(i + 1).drop_last() =~= self.caps@.take(i as int));
            if c.holder != holder {
                kept.push(c);
            }
            i = i + 1;
        }
        assert(self.caps@.take(i as int) =~= self.caps@);
        proof {
            lemma_without_holder_sub(self.caps@, holder, self.next_id);
        }
        self.caps = kept;
    }

    /// Diagnostic dump, oldest first.
    pub fn snapshot(&self) -> (r: Vec<CapSnapshot>)
        ensures
            r@ == self.caps@.map_values(|c: DeviceCap| shown(c)),
    {
        let mut out: Vec<CapSnapshot> = Vec::new();
        let mut i: usize = 0;
        while i < self.caps.len()
            invariant
                i <= self.caps@.len(),
                out@.len() == i,
                forall|k: int| 0 <= k < i ==> #[trigger] out@[k] == shown(self.caps@[k]),
            decreases self.caps@.len() - i,
        {
            let c = self.caps[i];
            out.push(CapSnapshot { kind: c.kind, holder: c.holder, exclusive: c.exclusive });
            i = i + 1;
        }
        assert(out@ =~= self.caps@.map_values(|c: DeviceCap| shown(c)));
        out
    }
}

fn dedup(kinds: &[DeviceKind]) -> (r: Vec<DeviceKind>)
    ensures
        r@ == distinct(kinds@),
{
    let mut out: Vec<DeviceKind> = Vec::new();
    let mut i: usize = 0;
    assert(kinds@.take(0) =~= Seq::empty());
    while i < kinds.len()
        invariant
            i <= kinds@.len(),
            out@ == distinct(kinds@.take(i as int)),
        decreases kinds@.len() - i,
    {
        let k = kinds[i];
        assert(kinds@.take(i + 1).drop_last() =~= kinds@.take(i as int));
        let mut known = false;
        let mut j: usize = 0;
        while j < out.len()
            invariant
                j <= out@.len(),
                known <==> exists|m: int| 0 <= m < j && #[trigger] out@[m] == k,
            decreases out@.len() - j,
        {
            if out[j] == k {
                known = true;
                assert(out@[j as int] == k);
            }
            j = j + 1;
        }
        if !known {
            out.push(k);
        }
        i = i + 1;
    }
    assert(kinds@.take(i as int) =~= kinds@);
    out
}

proof fn lemma_first_conflict(caps: Caps, kinds: Seq<DeviceKind>, exclusive: bool, k: int)
    requires
        0 <= k <= kinds.len(),
        first_conflict(caps, kinds.take(k), exclusive) is Some,
    ensures
        first_conflict(caps, kinds, exclusive) == first_conflict(caps, kinds.take(k), exclusive),
    decreases kinds.len() - k,
{
    if k < kinds.len() {
        assert(kinds.take(k + 1).drop_last() =~= kinds.take(k));
        lemma_first_conflict(caps, kinds, exclusive, k + 1);
    } else {
        assert(kinds.take(k) =~= kinds);
    }
}

proof fn lemma_no_conflict(caps: Caps, kinds: Seq<DeviceKind>, exclusive: bool, i: int)
    requires
        first_conflict(caps, kinds, exclusive) is None,
        0 <= i < kinds.len(),
    ensures
        conflict_of(caps, kinds[i], exclusive) is None,
    decreases kinds.len(),
{
    if i < kinds.len() - 1 {
        lemma_no_conflict(caps, kinds.drop_last(), exclusive, i);
    }
}

proof fn lemma_distinct(kinds: Seq<DeviceKind>)
    ensures
        distinct(kinds).no_duplicates(),
    decreases kinds.len(),
{
    if kinds.len() > 0 {
        lemma_distinct(kinds.drop_last());
    }
}

proof fn lemma_exclusive_counted(caps: Caps, kind: DeviceKind, i: int)
    requires
        0 <= i < caps.len(),
        caps[i].kind == kind,
        caps[i].exclusive,
    ensures
        exclusive_count(caps, kind) > 0,
    decreases caps.len(),
{
    if i < caps.len() - 1 {
        assert(caps.drop_last()[i] == caps[i]);
        lemma_exclusive_counted(caps.drop_last(), kind, i);
    }
}

proof fn lemma_issue_keeps_wf(
    caps: Caps,
    last_id: u64,
    holder: MboxId,
    kinds: Seq<DeviceKind>,
    exclusive: bool,
)
    requires
        ids_in_order(caps, last_id),
        exclusive_alone(caps),
        last_id + distinct(kinds).len() <= u64::MAX,
        first_conflict(caps, distinct(kinds), exclusive) is None,
    ensures
        ({
            let new = issued(last_id, holder, distinct(kinds), exclusive);
            &&& ids_in_order(caps + new, (last_id + new.len()) as u64)
            &&& exclusive_alone(caps + new)
        }),
{
    let ks = distinct(kinds);
    let new = issued(last_id, holder, ks, exclusive);
    let all = caps + new;
    lemma_distinct(kinds);
    assert forall|i: int, j: int|
        0 <= i < all.len() && 0 <= j < all.len() && i != j && (#[trigger] all[i]).kind == (
        #[trigger] all[j]).kind implies !all[i].exclusive && !all[j].exclusive by {
        let n = caps.len();
        if i < n && j < n {
            assert(all[i] == caps[i] && all[j] == caps[j]);
        } else if i >= n && j >= n {
            assert(ks[i - n] == ks[j - n]);
        } else {
            let a = if i < n {
                i
            } else {
                j
            };
            let b = if i < n {
                j - n
            } else {
                i - n
            };
            lemma_no_conflict(caps, ks, exclusive, b);
            assert(caps[a].kind == ks[b]);
            if caps[a].exclusive {
                lemma_exclusive_counted(caps, ks[b], a);
            }
        }
    }
}

/// What is left after a release was there before, in the same order.
proof fn lemma_released_sub(caps: Caps, cap_id: u64, last_id: u64)
    requires
        ids_in_order(caps, last_id),
        exclusive_alone(caps),
    ensures
        ids_in_order(released(caps, cap_id), last_id),
        exclusive_alone(released(caps, cap_id)),
        forall|i: int|
            0 <= i < released(caps, cap_id).len() ==> caps.contains(
                #[trigger] released(caps, cap_id)[i],
            ),
    decreases caps.len(),
{
    if caps.len() > 0 {
        let init = caps.drop_last();
        assert forall|i: int| 0 <= i < init.len() implies init[i] == caps[i] by {}
        lemma_released_sub(init, cap_id, last_id);
        let left = released(init, cap_id);
        let r = released(caps, cap_id);
        assert forall|i: int| 0 <= i < r.len() implies caps.contains(#[trigger] r[i]) by {
            if i < left.len() {
                let k = choose|k: int| 0 <= k < init.len() && init[k] == left[i];
                assert(caps[k] == r[i]);
            } else {
                assert(caps[caps.len() - 1] == r[i]);
            }
        }
        lemma_sub_push(caps, left, last_id);
    }
}

proof fn lemma_without_holder_sub(caps: Caps, holder: MboxId, last_id: u64)
    requires
        ids_in_order(caps, last_id),
        exclusive_alone(caps),
    ensures
        ids_in_order(without_holder(caps, holder), last_id),
        exclusive_alone(without_holder(caps, holder)),
        forall|i: int|
            0 <= i < without_holder(caps, holder).len() ==> caps.contains(
                #[trigger] without_holder(caps, holder)[i],
            ),
    decreases caps.len(),
{
    if caps.len() > 0 {
        let init = caps.drop_last();
        assert forall|i: int| 0 <= i < init.len() implies init[i] == caps[i] by {}
        lemma_without_holder_sub(init, holder, last_id);
        let left = without_holder(init, holder);
        let r = without_holder(caps, holder);
        assert forall|i: int| 0 <= i < r.len() implies caps.contains(#[trigger] r[i]) by {
            if i < left.len() {
                let k = choose|k: int| 0 <= k < init.len() && init[k] == left[i];
                assert(caps[k] == r[i]);
            } else {
                assert(caps[caps.len() - 1] == r[i]);
            }
        }
        lemma_sub_push(caps, left, last_id);
    }
}

/// Caps out of all but the last, with the last appended, are as good as all.
proof fn lemma_sub_push(caps: Caps, left: Caps, last_id: u64)
    requires
        caps.len() > 0,
        ids_in_order(caps, last_id),
        exclusive_alone(caps),
        ids_in_order(left, last_id),
        exclusive_alone(left),
        forall|i: int| 0 <= i < left.len() ==> caps.drop_last().contains(#[trigger] left[i]),
    ensures
        ids_in_order(left.push(caps.last()), last_id),
        exclusive_alone(left.push(caps.last())),
{
    let init = caps.drop_last();
    let r = left.push(caps.last());
    let n = caps.len() - 1;
    assert(caps[n] == caps.last());
    assert forall|i: int, j: int| 0 <= i < j < r.len() implies (#[trigger] r[i]).cap_id < (
    #[trigger] r[j]).cap_id by {
        assert(r[i] == left[i]);
        if j == left.len() {
            let k = choose|k: int| 0 <= k < init.len() && init[k] == left[i];
            assert(caps[k].cap_id < caps[n].cap_id);
        } else {
            assert(r[j] == left[j]);
        }
    }
    assert forall|i: int, j: int|
        0 <= i < r.len() && 0 <= j < r.len() && i != j && (#[trigger] r[i]).kind == (
        #[trigger] r[j]).kind implies !r[i].exclusive && !r[j].exclusive by {
        if i < left.len() && j < left.len() {
            assert(r[i] == left[i] && r[j] == left[j]);
        } else {
            let m = if i < left.len() {
                i
            } else {
                j
            };
            assert(r[m] == left[m]);
            let k = choose|k: int| 0 <= k < init.len() && init[k] == left[m];
            assert(caps[k] == r[m]);
            assert(caps[k].kind == caps[n].kind);
        }
    }
}

/// At most one holder of a device is exclusive, and then there is no other.
pub proof fn law_exclusive(caps: Caps, kind: DeviceKind, i: int, j: int)
    requires
        exclusive_alone(caps),
        0 <= i < caps.len(),
        0 <= j < caps.len(),
        caps[i].kind == kind,
        caps[i].exclusive,
        caps[j].kind == kind,
    ensures
        i == j,
        exclusive_count(caps, kind) == 1,
{
    lemma_one_exclusive(caps, kind, i);
}

proof fn lemma_one_exclusive(caps: Caps, kind: DeviceKind, i: int)
    requires
        exclusive_alone(caps),
        0 <= i < caps.len(),
        caps[i].kind == kind,
        caps[i].exclusive,
    ensures
        exclusive_count(caps, kind) == 1,
    decreases caps.len(),
{
    let init = caps.drop_last();
    if i == caps.len() - 1 {
        lemma_none_exclusive(init, kind);
    } else {
        assert(init[i] == caps[i]);
        assert forall|a: int, b: int|
            0 <= a < init.len() && 0 <= b < init.len() && a != b && (#[trigger] init[a]).kind == (
            #[trigger] init[b]).kind implies !init[a].exclusive && !init[b].exclusive by {
            assert(init[a] == caps[a] && init[b] == caps[b]);
        }
        lemma_one_exclusive(init, kind, i);
        assert(caps[caps.len() - 1].kind != kind || !caps.last().exclusive);
    }
}

proof fn lemma_none_exclusive(caps: Caps, kind: DeviceKind)
    requires
        forall|k: int| 0 <= k < caps.len() ==> (#[trigger] caps[k]).kind != kind,
    ensures
        exclusive_count(caps, kind) == 0,
    decreases caps.len(),
{
    if caps.len() > 0 {
        assert(caps[caps.len() - 1].kind != kind);
        lemma_none_exclusive(caps.drop_last(), kind);
    }
}

/// The caps after the given ids were released, one after the other.
pub open spec fn released_each(caps: Caps, ids: Seq<u64>) -> Caps
    decreases ids.len(),
{
    if ids.len() == 0 {
        caps
    } else {
        released(released_each(caps, ids.drop_last()), ids.last())
    }
}

proof fn lemma_released_absent(caps: Caps, cap_id: u64)
    requires
        forall|i: int| 0 <= i < caps.len() ==> (#[trigger] caps[i]).cap_id != cap_id,
    ensures
        released(caps, cap_id) == caps,
    decreases caps.len(),
{
    if caps.len() > 0 {
        assert(caps[caps.len() - 1].cap_id != cap_id);
        lemma_released_absent(caps.drop_last(), cap_id);
        assert(caps.drop_last().push(caps.last()) =~= caps);
    } else {
        assert(released(caps, cap_id) =~= caps);
    }
}

proof fn lemma_released_at(caps: Caps, i: int)
    requires
        0 <= i < caps.len(),
        forall|k: int|
            0 <= k < caps.len() && k != i ==> (#[trigger] caps[k]).cap_id != caps[i].cap_id,
    ensures
        released(caps, caps[i].cap_id) == caps.remove(i),
    decreases caps.len(),
{
    let init = caps.drop_last();
    if i == caps.len() - 1 {
        assert forall|k: int| 0 <= k < init.len() implies (#[trigger] init[k]).cap_id
            != caps[i].cap_id by {
            assert(init[k] == caps[k]);
        }
        lemma_released_absent(init, caps[i].cap_id);
        assert(caps.remove(i) =~= init);
    } else {
        assert forall|k: int| 0 <= k < init.len() && k != i implies (#[trigger] init[k]).cap_id
            != init[i].cap_id by {
            assert(init[k] == caps[k]);
        }
        lemma_released_at(init, i);
        assert(caps[caps.len() - 1].cap_id != caps[i].cap_id);
        assert(caps.remove(i) =~= init.remove(i).push(caps.last()));
    }
}

/// Giving back what an acquire issued undoes it: the same caps are held as
/// before.
pub proof fn law_release_undoes_acquire(
    caps: Caps,
    last_id: u64,
    holder: MboxId,
    kinds: Seq<DeviceKind>,
    exclusive: bool,
)
    requires
        ids_in_order(caps, last_id),
        last_id + kinds.len() <= u64::MAX,
    ensures
        ({
            let new = issued(last_id, holder, kinds, exclusive);
            released_each(caps + new, new.map_values(|c: DeviceCap| c.cap_id)) == caps
        }),
{
    let new = issued(last_id, holder, kinds, exclusive);
    let ids = new.map_values(|c: DeviceCap| c.cap_id);
    lemma_release_first(caps, new, ids, last_id, new.len() as int);
    assert(ids.take(ids.len() as int) =~= ids);
    assert(caps + new.skip(new.len() as int) =~= caps);
}

proof fn lemma_release_first(caps: Caps, new: Caps, ids: Seq<u64>, last_id: u64, k: int)
    requires
        ids_in_order(caps, last_id),
        ids == new.map_values(|c: DeviceCap| c.cap_id),
        forall|i: int| 0 <= i < new.len() ==> (#[trigger] new[i]).cap_id == last_id + 1 + i,
        0 <= k <= new.len(),
    ensures
        released_each(caps + new, ids.take(k)) == caps + new.skip(k),
    decreases k,
{
    if k == 0 {
        assert(ids.take(0) =~= Seq::empty());
        assert(new.skip(0) =~= new);
    } else {
        lemma_release_first(caps, new, ids, last_id, k - 1);
        assert(ids.take(k).drop_last() =~= ids.take(k - 1));
        let now = caps + new.skip(k - 1);
        let at = caps.len() as int;
        assert(now[at] == new[k - 1]);
        assert forall|m: int| 0 <= m < now.len() && m != at implies (#[trigger] now[m]).cap_id
            != now[at].cap_id by {
            if m < at {
                assert(now[m] == caps[m]);
            } else {
                assert(now[m] == new[k - 1 + m - at]);
            }
        }
        lemma_released_at(now, at);
        assert(now.remove(at) =~= caps + new.skip(k));
    }
}

/// Once all caps of a holder were taken away, releasing one of them changes
/// nothing.
pub proof fn law_release_after_release_all(caps: Caps, last_id: u64, i: int)
    requires
        ids_in_order(caps, last_id),
        0 <= i < caps.len(),
    ensures
        released(without_holder(caps, caps[i].holder), caps[i].cap_id) == without_holder(
            caps,
            caps[i].holder,
        ),
{
    let left = without_holder(caps, caps[i].holder);
    lemma_left_others(caps, caps[i].holder);
    assert forall|k: int| 0 <= k < left.len() implies (#[trigger] left[k]).cap_id
        != caps[i].cap_id by {
        let m = choose|m: int| 0 <= m < caps.len() && caps[m] == left[k];
        assert(caps[m].holder != caps[i].holder);
        assert(m != i);
        if m < i {
            assert(caps[m].cap_id < caps[i].cap_id);
        } else {
            assert(caps[i].cap_id < caps[m].cap_id);
        }
    }
    lemma_released_absent(left, caps[i].cap_id);
}

proof fn lemma_left_others(caps: Caps, holder: MboxId)
    ensures
        forall|k: int|
            0 <= k < without_holder(caps, holder).len() ==> caps.contains(
                #[trigger] without_holder(caps, holder)[k],
            ) && without_holder(caps, holder)[k].holder != holder,
    decreases caps.len(),
{
    if caps.len() > 0 {
        let init = caps.drop_last();
        lemma_left_others(init, holder);
        let left = without_holder(init, holder);
        let r = without_holder(caps, holder);
        assert forall|k: int| 0 <= k < r.len() implies caps.contains(#[trigger] r[k])
            && r[k].holder != holder by {
            if k < left.len() {
                let m = choose|m: int| 0 <= m < init.len() && init[m] == left[k];
                assert(caps[m] == r[k]);
            } else {
                assert(caps[caps.len() - 1] == r[k]);
            }
        }
    }
}

/// After all caps of a holder were taken away it holds nothing.
pub proof fn law_release_all_complete(caps: Caps, holder: MboxId, k: int)
    requires
        0 <= k < without_holder(caps, holder).len(),
    ensures
        without_holder(caps, holder)[k].holder != holder,
{
    lemma_left_others(caps, holder);
}

/// What is free can be had: a request succeeds when nobody holds any of its
/// devices.
pub proof fn law_free_devices_granted(caps: Caps, kinds: Seq<DeviceKind>, exclusive: bool)
    requires
        forall|i: int| 0 <= i < kinds.len() ==> !held(caps, #[trigger] kinds[i]),
    ensures
        first_conflict(caps, kinds, exclusive) is None,
    decreases kinds.len(),
{
    if kinds.len() > 0 {
        let init = kinds.drop_last();
        assert forall|i: int| 0 <= i < init.len() implies !held(caps, #[trigger] init[i]) by {
            assert(init[i] == kinds[i]);
        }
        law_free_devices_granted(caps, init, exclusive);
        let k = kinds[kinds.len() - 1];
        assert forall|m: int| 0 <= m < caps.len() implies (#[trigger] caps[m]).kind != k by {
            assert(!held(caps, k));
        }
        lemma_none_exclusive(caps, k);
    }
}

} // verus!

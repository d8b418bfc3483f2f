//! What the broker grants and keeps, told by who holds what.
use crate::cap::broker::{
    conflict_of, distinct, exclusive_alone, exclusive_count, first_conflict, held, ids_in_order,
    issued, released, shown, without_holder, AcquireError, BdfAddr, Caps, DeviceCap, DeviceKind,
};
use crate::ident::MboxId;
use crate::render::{dec, hex};
use crate::scan::{dec_u32, digits_value};
use crate::scan_laws::{hex_range, law_dec, law_dec_read, law_hex};
use vstd::prelude::*;

verus! {

/// Whether somebody else's cap stands in the way of one more for the device: any
/// for an exclusive one, an exclusive one for a shared one.
pub open spec fn in_the_way(c: DeviceCap, kind: DeviceKind, exclusive: bool) -> bool {
    c.kind == kind && (exclusive || c.exclusive)
}

/// Whether the device can be had.
pub open spec fn free_for(caps: Caps, kind: DeviceKind, exclusive: bool) -> bool {
    forall|i: int| 0 <= i < caps.len() ==> !in_the_way(#[trigger] caps[i], kind, exclusive)
}

proof fn lemma_exclusive_count(caps: Caps, kind: DeviceKind)
    ensures
        exclusive_count(caps, kind) == 0 <==> free_for(caps, kind, false),
        exclusive_count(caps, kind) <= caps.len(),
        exclusive_alone(caps) ==> exclusive_count(caps, kind) <= 1,
    decreases caps.len(),
{
    if caps.len() > 0 {
        let init = caps.drop_last();
        lemma_exclusive_count(init, kind);
        if free_for(caps, kind, false) {
            assert forall|i: int| 0 <= i < init.len() implies !in_the_way(
                #[trigger] init[i],
                kind,
                false,
            ) by {
                assert(init[i] == caps[i]);
                assert(!in_the_way(caps[i], kind, false));
            }
            assert(!in_the_way(caps[caps.len() - 1], kind, false));
        }
        if exclusive_count(caps, kind) == 0 {
            assert forall|i: int| 0 <= i < caps.len() implies !in_the_way(
                #[trigger] caps[i],
                kind,
                false,
            ) by {
                if i < init.len() {
                    assert(init[i] == caps[i]);
                    assert(!in_the_way(init[i], kind, false));
                }
            }
        }
        if exclusive_alone(caps) {
            assert forall|i: int, j: int|
                0 <= i < init.len() && 0 <= j < init.len() && i != j && (#[trigger] init[i]).kind
                    == (#[trigger] init[j]).kind implies !init[i].exclusive
                && !init[j].exclusive by {
                assert(init[i] == caps[i] && init[j] == caps[j]);
            }
            if caps.last().kind == kind && caps.last().exclusive {
                assert forall|i: int| 0 <= i < init.len() implies !in_the_way(
                    #[trigger] init[i],
                    kind,
                    false,
                ) by {
                    assert(init[i] == caps[i]);
                    assert(caps[caps.len() - 1].kind == kind);
                }
            }
        }
    }
}

/// One device can be had exactly where no cap stands in the way; otherwise the
/// error names the device, and says whether an exclusive cap was asked for.
pub proof fn law_conflict(caps: Caps, kind: DeviceKind, exclusive: bool)
    ensures
        conflict_of(caps, kind, exclusive) is None <==> free_for(caps, kind, exclusive),
        conflict_of(caps, kind, exclusive) matches Some(e) ==> e.kind_of() == kind && (e is Taken
            <==> exclusive),
        exclusive_alone(caps) ==> (conflict_of(caps, kind, exclusive) matches Some(
            AcquireError::SharedConflict { n, .. },
        ) ==> n == 1),
{
    lemma_exclusive_count(caps, kind);
    if exclusive {
        if held(caps, kind) {
            let i = choose|i: int| 0 <= i < caps.len() && (#[trigger] caps[i]).kind == kind;
            assert(in_the_way(caps[i], kind, exclusive));
        }
        if !free_for(caps, kind, exclusive) {
            let i = choose|i: int|
                0 <= i < caps.len() && in_the_way(#[trigger] caps[i], kind, exclusive);
            assert(caps[i].kind == kind);
        }
    }
}

/// The different devices asked for: each once, all of them, in the order in which
/// each was named first.
pub proof fn law_distinct(kinds: Seq<DeviceKind>)
    ensures
        distinct(kinds).no_duplicates(),
        forall|k: DeviceKind| #[trigger] distinct(kinds).contains(k) <==> kinds.contains(k),
        forall|i: int, j: int|
            0 <= i < j < distinct(kinds).len() ==> named_before(
                kinds,
                #[trigger] distinct(kinds)[i],
                #[trigger] distinct(kinds)[j],
            ),
    decreases kinds.len(),
{
    if kinds.len() > 0 {
        let init = kinds.drop_last();
        law_distinct(init);
        let d = distinct(init);
        let x = kinds.last();
        let all = distinct(kinds);
        assert(kinds =~= init.push(x));
        assert forall|k: DeviceKind| #[trigger] all.contains(k) <==> kinds.contains(k) by {
            if kinds.contains(k) {
                let i = choose|i: int| 0 <= i < kinds.len() && kinds[i] == k;
                if i < init.len() {
                    assert(init[i] == k);
                    assert(init.contains(k));
                    assert(d.contains(k));
                    let j = choose|j: int| 0 <= j < d.len() && d[j] == k;
                    assert(all[j] == k);
                } else if !d.contains(x) {
                    assert(all[d.len() as int] == x);
                }
            }
            if all.contains(k) {
                let j = choose|j: int| 0 <= j < all.len() && all[j] == k;
                if j < d.len() {
                    assert(d[j] == k);
                    assert(d.contains(k));
                    let i = choose|i: int| 0 <= i < init.len() && init[i] == k;
                    assert(kinds[i] == k);
                } else {
                    assert(kinds[kinds.len() - 1] == k);
                }
            }
        }
        assert forall|i: int, j: int| 0 <= i < j < all.len() implies named_before(
            kinds,
            #[trigger] all[i],
            #[trigger] all[j],
        ) by {
            assert(d.contains(d[i]));
            assert(init.contains(d[i]));
            if j < d.len() {
                assert(named_before(init, d[i], d[j]));
                let p = choose|p: int| #[trigger] first_named(init, p, d[i], d[j]);
                assert(first_named(kinds, p, all[i], all[j]));
            } else {
                let p = choose|p: int| 0 <= p < init.len() && init[p] == d[i];
                assert forall|q: int| 0 <= q <= p implies kinds[q] != x by {
                    assert(kinds[q] == init[q]);
                    if init[q] == x {
                        assert(init.contains(x));
                        assert(d.contains(x));
                    }
                }
                assert(first_named(kinds, p, all[i], all[j]));
            }
        }
    }
}

/// Whether `a` stands at `p`, before the first `b`.
pub open spec fn first_named(kinds: Seq<DeviceKind>, p: int, a: DeviceKind, b: DeviceKind) -> bool {
    0 <= p < kinds.len() && kinds[p] == a && forall|q: int| 0 <= q <= p ==> kinds[q] != b
}

/// Whether `a` was named before the first `b`.
pub open spec fn named_before(kinds: Seq<DeviceKind>, a: DeviceKind, b: DeviceKind) -> bool {
    exists|p: int| #[trigger] first_named(kinds, p, a, b)
}

proof fn lemma_first_conflict(caps: Caps, kinds: Seq<DeviceKind>, exclusive: bool)
    ensures
        match first_conflict(caps, kinds, exclusive) {
            None => forall|i: int|
                0 <= i < kinds.len() ==> free_for(caps, #[trigger] kinds[i], exclusive),
            Some(e) => exists|i: int| #[trigger] first_blocked(caps, kinds, exclusive, i, e),
        },
    decreases kinds.len(),
{
    if kinds.len() > 0 {
        let init = kinds.drop_last();
        let last = kinds.len() - 1;
        lemma_first_conflict(caps, init, exclusive);
        law_conflict(caps, kinds[last], exclusive);
        match first_conflict(caps, init, exclusive) {
            Some(e) => {
                let i = choose|i: int| #[trigger] first_blocked(caps, init, exclusive, i, e);
                assert forall|j: int| 0 <= j < i implies free_for(
                    caps,
                    #[trigger] kinds[j],
                    exclusive,
                ) by {
                    assert(init[j] == kinds[j]);
                }
                assert(first_blocked(caps, kinds, exclusive, i, e));
            },
            None => {
                assert forall|j: int| 0 <= j < last implies free_for(
                    caps,
                    #[trigger] kinds[j],
                    exclusive,
                ) by {
                    assert(init[j] == kinds[j]);
                }
                if let Some(e) = conflict_of(caps, kinds[last], exclusive) {
                    assert(first_blocked(caps, kinds, exclusive, last, e));
                }
            },
        }
    }
}

/// Whether the device at `i` is the first that cannot be had, and the error names
/// it.
pub open spec fn first_blocked(
    caps: Caps,
    kinds: Seq<DeviceKind>,
    exclusive: bool,
    i: int,
    e: AcquireError,
) -> bool {
    &&& 0 <= i < kinds.len()
    &&& !free_for(caps, kinds[i], exclusive)
    &&& e.kind_of() == kinds[i]
    &&& e is Taken <==> exclusive
    &&& forall|j: int| 0 <= j < i ==> free_for(caps, #[trigger] kinds[j], exclusive)
}

/// A request is granted exactly where each of its devices can be had. Otherwise
/// the first device that cannot is named.
pub proof fn law_acquire(caps: Caps, kinds: Seq<DeviceKind>, exclusive: bool)
    ensures
        first_conflict(caps, distinct(kinds), exclusive) is None <==> forall|i: int|
            0 <= i < kinds.len() ==> free_for(caps, #[trigger] kinds[i], exclusive),
        first_conflict(caps, distinct(kinds), exclusive) matches Some(e) ==> {
            &&& kinds.contains(e.kind_of())
            &&& !free_for(caps, e.kind_of(), exclusive)
            &&& e is Taken <==> exclusive
            &&& forall|k: DeviceKind| #[trigger]
                kinds.contains(k) && !free_for(caps, k, exclusive) && k != e.kind_of()
                    ==> named_before(kinds, e.kind_of(), k)
        },
{
    let d = distinct(kinds);
    law_distinct(kinds);
    lemma_first_conflict(caps, d, exclusive);
    match first_conflict(caps, d, exclusive) {
        None => {
            assert forall|i: int| 0 <= i < kinds.len() implies free_for(
                caps,
                #[trigger] kinds[i],
                exclusive,
            ) by {
                assert(kinds.contains(kinds[i]));
                assert(d.contains(kinds[i]));
                let j = choose|j: int| 0 <= j < d.len() && d[j] == kinds[i];
                assert(free_for(caps, d[j], exclusive));
            }
        },
        Some(e) => {
            let i = choose|i: int| #[trigger] first_blocked(caps, d, exclusive, i, e);
            assert(d.contains(d[i]));
            assert(kinds.contains(d[i]));
            let p = choose|p: int| 0 <= p < kinds.len() && kinds[p] == d[i];
            assert(!free_for(caps, kinds[p], exclusive));
            assert forall|k: DeviceKind| #[trigger]
                kinds.contains(k) && !free_for(caps, k, exclusive) && k
                    != e.kind_of() implies named_before(kinds, e.kind_of(), k) by {
                assert(d.contains(k));
                let j = choose|j: int| 0 <= j < d.len() && d[j] == k;
                if j < i {
                    assert(free_for(caps, d[j], exclusive));
                }
                assert(named_before(kinds, d[i], d[j]));
            }
        },
    }
}

/// Each device gets one cap, for the holder and of the kind asked for, and no cap
/// has an id that was given out before.
pub proof fn law_issued(
    caps: Caps,
    last_id: u64,
    holder: MboxId,
    kinds: Seq<DeviceKind>,
    exclusive: bool,
)
    requires
        ids_in_order(caps, last_id),
        last_id + kinds.len() <= u64::MAX,
    ensures
        issued(last_id, holder, kinds, exclusive).len() == kinds.len(),
        forall|i: int|
            0 <= i < kinds.len() ==> {
                let c = #[trigger] issued(last_id, holder, kinds, exclusive)[i];
                &&& c.kind == kinds[i]
                &&& c.holder == holder
                &&& c.exclusive == exclusive
                &&& last_id < c.cap_id <= last_id + kinds.len()
            },
        forall|i: int, j: int|
            0 <= i < kinds.len() && 0 <= j < caps.len() ==> (#[trigger] issued(
                last_id,
                holder,
                kinds,
                exclusive,
            )[i]).cap_id != (#[trigger] caps[j]).cap_id,
        ids_in_order(
            caps + issued(last_id, holder, kinds, exclusive),
            (last_id + kinds.len()) as u64,
        ),
{
    let new = issued(last_id, holder, kinds, exclusive);
    let all = caps + new;
    assert forall|i: int, j: int| 0 <= i < j < all.len() implies (#[trigger] all[i]).cap_id < (
    #[trigger] all[j]).cap_id by {
        if i < caps.len() {
            assert(all[i] == caps[i]);
        } else {
            assert(all[i] == new[i - caps.len()]);
        }
        if j < caps.len() {
            assert(all[j] == caps[j]);
        } else {
            assert(all[j] == new[j - caps.len()]);
        }
    }
    assert forall|i: int| 0 <= i < all.len() implies (#[trigger] all[i]).cap_id <= (last_id
        + kinds.len()) as u64 by {
        if i < caps.len() {
            assert(all[i] == caps[i]);
        } else {
            assert(all[i] == new[i - caps.len()]);
        }
    }
}

/// Releasing a cap takes away the one with the id and leaves all others, and
/// their order.
pub proof fn law_released(caps: Caps, cap_id: u64, c: DeviceCap)
    ensures
        released(caps, cap_id).contains(c) <==> caps.contains(c) && c.cap_id != cap_id,
        released(caps.push(c), cap_id) == if c.cap_id == cap_id {
            released(caps, cap_id)
        } else {
            released(caps, cap_id).push(c)
        },
    decreases caps.len(),
{
    assert(caps.push(c).drop_last() =~= caps);
    if caps.len() > 0 {
        let init = caps.drop_last();
        let x = caps[caps.len() - 1];
        law_released(init, cap_id, c);
        assert(caps =~= init.push(x));
        lemma_push_contains(init, x, c);
        lemma_push_contains(released(init, cap_id), x, c);
    } else {
        assert(released(caps, cap_id) =~= Seq::empty());
    }
}

proof fn lemma_push_contains(s: Caps, x: DeviceCap, c: DeviceCap)
    ensures
        s.push(x).contains(c) <==> s.contains(c) || x == c,
{
    if s.contains(c) {
        let i = choose|i: int| 0 <= i < s.len() && s[i] == c;
        assert(s.push(x)[i] == c);
    }
    if x == c {
        assert(s.push(x)[s.len() as int] == c);
    }
    if s.push(x).contains(c) {
        let i = choose|i: int| 0 <= i < s.push(x).len() && s.push(x)[i] == c;
        if i < s.len() {
            assert(s[i] == c);
        }
    }
}

/// Releasing all of a holder takes away its caps and leaves all others, and their
/// order.
pub proof fn law_released_all(caps: Caps, holder: MboxId, c: DeviceCap)
    ensures
        without_holder(caps, holder).contains(c) <==> caps.contains(c) && c.holder != holder,
        without_holder(caps.push(c), holder) == if c.holder == holder {
            without_holder(caps, holder)
        } else {
            without_holder(caps, holder).push(c)
        },
    decreases caps.len(),
{
    assert(caps.push(c).drop_last() =~= caps);
    if caps.len() > 0 {
        let init = caps.drop_last();
        let x = caps[caps.len() - 1];
        law_released_all(init, holder, c);
        assert(caps =~= init.push(x));
        lemma_push_contains(init, x, c);
        lemma_push_contains(without_holder(init, holder), x, c);
    } else {
        assert(without_holder(caps, holder) =~= Seq::empty());
    }
}

/// A snapshot shows the device, the holder and whether it is exclusive.
pub proof fn law_shown(c: DeviceCap)
    ensures
        shown(c).kind == c.kind,
        shown(c).holder == c.holder,
        shown(c).exclusive == c.exclusive,
{
}

/// A PCI address is written as four, two and two hexadecimal digits and one
/// decimal one: domain, bus, device and function.
pub proof fn law_bdf_text(a: BdfAddr)
    ensures
        ({
            let t = a.text();
            &&& t.len() == 12
            &&& digits_value(t.subrange(0, 4), 16) == Some(a.domain as nat)
            &&& t[4] == ':'
            &&& digits_value(t.subrange(5, 7), 16) == Some(a.bus as nat)
            &&& t[7] == ':'
            &&& digits_value(t.subrange(8, 10), 16) == Some(a.device as nat)
            &&& t[10] == '.'
            &&& a.function < 8 ==> dec_u32(t.subrange(11, 12)) == Some(a.function as u32)
        }),
{
    reveal_strlit(":");
    reveal_strlit(".");
    let t = a.text();
    law_hex(a.domain as nat, 4);
    law_hex(a.bus as nat, 2);
    law_hex(a.device as nat, 2);
    law_dec((a.function % 8) as nat);
    law_dec_read((a.function % 8) as nat);
    assert(hex_range(4) == 0x1_0000 && hex_range(2) == 0x100) by {
        reveal_with_fuel(hex_range, 5);
    }
    assert(dec((a.function % 8) as nat).len() == 1);
    assert(t.subrange(0, 4) =~= hex(a.domain as nat, 4));
    assert(t.subrange(5, 7) =~= hex(a.bus as nat, 2));
    assert(t.subrange(8, 10) =~= hex(a.device as nat, 2));
    assert(t.subrange(11, 12) =~= dec((a.function % 8) as nat));
}

} // verus!

//! The live services of the cluster, as the synthetic tree shows them.
use crate::fs::synthetic::{NodeView, Service, ServiceView};
use crate::ident::NetId;
use crate::mbox::directory::{
    is_snapshot, snapshot_view, DirectoryView, SnapshotEntry, SnapshotEntryView,
};
use crate::text::{before, is_before, lemma_before_total, lemma_before_transitive, text_eq};
use vstd::prelude::*;

verus! {

/// The live mailboxes under the name, in the order of the rows.
pub open spec fn live_ids(rows: Seq<SnapshotEntryView>, name: Seq<char>) -> Seq<NetId>
    decreases rows.len(),
{
    if rows.len() == 0 {
        Seq::empty()
    } else {
        let r = rows.last();
        let init = live_ids(rows.drop_last(), name);
        if !r.tombstone && r.name == name {
            init.push(r.net_id)
        } else {
            init
        }
    }
}

/// What a list of services says.
pub open spec fn services_view(v: Seq<Service>) -> Seq<ServiceView> {
    Seq::new(v.len(), |i: int| v[i]@)
}

/// Whether the services are the live ones of the rows: one for each name that
/// has a live mailbox, in the order of the names, with all its live mailboxes.
pub open spec fn groups(services: Seq<ServiceView>, rows: Seq<SnapshotEntryView>) -> bool {
    &&& forall|i: int, j: int|
        0 <= i < j < services.len() ==> before(
            (#[trigger] services[i]).name,
            (#[trigger] services[j]).name,
        )
    &&& forall|i: int|
        0 <= i < services.len() ==> (#[trigger] services[i]).net_ids == live_ids(
            rows,
            services[i].name,
        ) && services[i].net_ids.len() > 0
    &&& forall|name: Seq<char>|
        (#[trigger] live_ids(rows, name)).len() > 0 ==> exists|i: int|
            0 <= i < services.len() && (#[trigger] services[i]).name == name
}

/// The first service whose name does not come before the given one.
fn position(services: &Vec<Service>, name: &str) -> (p: usize)
    requires
        forall|i: int, j: int|
            0 <= i < j < services@.len() ==> before(
                (#[trigger] services@[i]).name@,
                (#[trigger] services@[j]).name@,
            ),
    ensures
        p <= services@.len(),
        forall|i: int| 0 <= i < p ==> before((#[trigger] services@[i]).name@, name@),
        p < services@.len() && services@[p as int].name@ != name@ ==> forall|i: int|
            p <= i < services@.len() ==> before(name@, (#[trigger] services@[i]).name@),
        p < services@.len() ==> !before(services@[p as int].name@, name@),
{
    let mut p: usize = 0;
    while p < services.len() && is_before(services[p].name.as_str(), name)
        invariant
            p <= services@.len(),
            forall|i: int| 0 <= i < p ==> before((#[trigger] services@[i]).name@, name@),
        decreases services@.len() - p,
    {
        p = p + 1;
    }
    proof {
        if p < services@.len() && services@[p as int].name@ != name@ {
            let q = services@[p as int].name@;
            if !before(name@, q) {
                lemma_before_total(name@, q);
            }
            assert forall|i: int| p <= i < services@.len() implies before(
                name@,
                (#[trigger] services@[i]).name@,
            ) by {
                if i > p {
                    assert(before(q, services@[i].name@));
                    lemma_before_transitive(name@, q, services@[i].name@);
                }
            }
        }
    }
    p
}

impl NodeView {
    /// The view with the live services of a directory snapshot.
    pub fn with_services(self, rows: &Vec<SnapshotEntry>) -> (v: Self)
        ensures
            v.node_id == self.node_id,
            v.ad == self.ad,
            v.caps == self.caps,
            groups(services_view(v.services@), snapshot_view(rows@)),
    {
        let services = group(rows);
        NodeView { node_id: self.node_id, ad: self.ad, caps: self.caps, services }
    }
}

/// The live services of a directory snapshot.
pub fn group(rows: &Vec<SnapshotEntry>) -> (services: Vec<Service>)
    ensures
        groups(services_view(services@), snapshot_view(rows@)),
{
    let ghost all = snapshot_view(rows@);
    let mut out: Vec<Service> = Vec::new();
    let mut k: usize = 0;
    assert(all.take(0) =~= Seq::empty());
    while k < rows.len()
        invariant
            k <= rows@.len(),
            all == snapshot_view(rows@),
            groups(services_view(out@), all.take(k as int)),
        decreases rows@.len() - k,
    {
        let row = &rows[k];
        let ghost was = services_view(out@);
        let ghost seen = all.take(k as int);
        let ghost now = all.take(k + 1);
        assert(now.drop_last() =~= seen);
        assert(now.last() == row@);
        if !row.tombstone {
            proof {
                assert forall|i: int, j: int| 0 <= i < j < out@.len() implies before(
                    (#[trigger] out@[i]).name@,
                    (#[trigger] out@[j]).name@,
                ) by {
                    assert(before(was[i].name, was[j].name));
                }
            }
            let p: usize = position(&out, row.name.as_str());
            if p < out.len() && text_eq(out[p].name.as_str(), row.name.as_str()) {
                let ghost had = out@;
                let mut s = out.remove(p);
                let ghost old_ids = s.net_ids@;
                s.net_ids.push(row.net_id);
                out.insert(p, s);
                proof {
                    let after = services_view(out@);
                    assert(had[p as int].net_ids@ == old_ids);
                    assert forall|i: int| 0 <= i < after.len() implies (#[trigger] after[i]).name
                        == was[i].name && (i != p ==> after[i] == was[i]) by {}
                    assert(after.len() == was.len());
                    assert(after[p as int].net_ids == was[p as int].net_ids.push(row.net_id));
                    lemma_grown(was, after, seen, now, p as int);
                }
            } else {
                let mut ids: Vec<NetId> = Vec::new();
                ids.push(row.net_id);
                let s = Service { name: row.name.clone(), net_ids: ids };
                out.insert(p, s);
                proof {
                    let after = services_view(out@);
                    assert(after =~= was.insert(p as int, s@));
                    assert(s@.net_ids =~= seq![row.net_id]);
                    assert forall|i: int| 0 <= i < p implies before(
                        (#[trigger] was[i]).name,
                        row.name@,
                    ) by {
                        assert(was[i].name == was[i].name);
                    }
                    assert forall|i: int| p <= i < was.len() implies before(
                        row.name@,
                        (#[trigger] was[i]).name,
                    ) by {}
                    lemma_added(was, after, seen, now, p as int);
                }
            }
        } else {
            assert forall|name: Seq<char>| #[trigger] live_ids(now, name) == live_ids(
                seen,
                name,
            ) by {}
            assert(groups(was, now));
        }
        k = k + 1;
    }
    assert(all.take(k as int) =~= all);
    out
}

proof fn lemma_grown(
    was: Seq<ServiceView>,
    after: Seq<ServiceView>,
    seen: Seq<SnapshotEntryView>,
    now: Seq<SnapshotEntryView>,
    p: int,
)
    requires
        groups(was, seen),
        now.len() > 0,
        now.drop_last() == seen,
        !now.last().tombstone,
        0 <= p < was.len() == after.len(),
        was[p].name == now.last().name,
        forall|i: int|
            0 <= i < after.len() ==> (#[trigger] after[i]).name == was[i].name && (i != p
                ==> after[i] == was[i]),
        after[p].net_ids == was[p].net_ids.push(now.last().net_id),
    ensures
        groups(after, now),
{
    assert forall|i: int, j: int| 0 <= i < j < after.len() implies before(
        (#[trigger] after[i]).name,
        (#[trigger] after[j]).name,
    ) by {
        assert(before(was[i].name, was[j].name));
    }
    assert forall|i: int| 0 <= i < after.len() implies (#[trigger] after[i]).net_ids == live_ids(
        now,
        after[i].name,
    ) && after[i].net_ids.len() > 0 by {
        assert(was[i].net_ids == live_ids(seen, was[i].name));
        if i != p && was[i].name == was[p].name {
            crate::text::lemma_before_irreflexive(was[i].name);
            if i < p {
                assert(before(was[i].name, was[p].name));
            } else {
                assert(before(was[p].name, was[i].name));
            }
        }
    }
    assert forall|name: Seq<char>| (#[trigger] live_ids(now, name)).len() > 0 implies exists|i: int|
        0 <= i < after.len() && (#[trigger] after[i]).name == name by {
        if name == now.last().name {
            assert(after[p].name == name);
        } else {
            assert(live_ids(seen, name).len() > 0);
            let i = choose|i: int| 0 <= i < was.len() && (#[trigger] was[i]).name == name;
            assert(after[i].name == name);
        }
    }
}

proof fn lemma_added(
    was: Seq<ServiceView>,
    after: Seq<ServiceView>,
    seen: Seq<SnapshotEntryView>,
    now: Seq<SnapshotEntryView>,
    p: int,
)
    requires
        groups(was, seen),
        now.len() > 0,
        now.drop_last() == seen,
        !now.last().tombstone,
        0 <= p <= was.len(),
        forall|i: int| 0 <= i < p ==> before((#[trigger] was[i]).name, now.last().name),
        forall|i: int| p <= i < was.len() ==> before(now.last().name, (#[trigger] was[i]).name),
        after == was.insert(
            p,
            ServiceView { name: now.last().name, net_ids: seq![now.last().net_id] },
        ),
    ensures
        groups(after, now),
{
    let name = now.last().name;
    assert(live_ids(seen, name).len() == 0) by {
        if live_ids(seen, name).len() > 0 {
            let i = choose|i: int| 0 <= i < was.len() && (#[trigger] was[i]).name == name;
            crate::text::lemma_before_irreflexive(name);
        }
    }
    assert(live_ids(seen, name) =~= Seq::empty());
    assert(live_ids(now, name) =~= seq![now.last().net_id]);
    assert forall|i: int, j: int| 0 <= i < j < after.len() implies before(
        (#[trigger] after[i]).name,
        (#[trigger] after[j]).name,
    ) by {
        let i0 = if i < p {
            i
        } else {
            i - 1
        };
        let j0 = if j < p {
            j
        } else {
            j - 1
        };
        if i == p {
            assert(after[j] == was[j0]);
        } else if j == p {
            assert(after[i] == was[i0]);
        } else {
            assert(after[i] == was[i0] && after[j] == was[j0]);
        }
    }
    assert forall|i: int| 0 <= i < after.len() implies (#[trigger] after[i]).net_ids == live_ids(
        now,
        after[i].name,
    ) && after[i].net_ids.len() > 0 by {
        if i != p {
            let i0 = if i < p {
                i
            } else {
                i - 1
            };
            assert(after[i] == was[i0]);
            assert(was[i0].net_ids == live_ids(seen, was[i0].name));
            if was[i0].name == name {
                crate::text::lemma_before_irreflexive(name);
            }
        }
    }
    assert forall|n: Seq<char>| (#[trigger] live_ids(now, n)).len() > 0 implies exists|i: int|
        0 <= i < after.len() && (#[trigger] after[i]).name == n by {
        if n == name {
            assert(after[p].name == n);
        } else {
            assert(live_ids(seen, n).len() > 0);
            let i = choose|i: int| 0 <= i < was.len() && (#[trigger] was[i]).name == n;
            let j = if i < p {
                i
            } else {
                i + 1
            };
            assert(after[j] == was[i]);
        }
    }
}

proof fn lemma_live_row(rows: Seq<SnapshotEntryView>, name: Seq<char>, id: NetId)
    ensures
        live_ids(rows, name).contains(id) <==> exists|k: int|
            0 <= k < rows.len() && (#[trigger] rows[k]).name == name && rows[k].net_id == id
                && !rows[k].tombstone,
    decreases rows.len(),
{
    if rows.len() > 0 {
        let init = rows.drop_last();
        lemma_live_row(init, name, id);
        let before = live_ids(init, name);
        let r = rows.last();
        if !r.tombstone && r.name == name {
            let now = before.push(r.net_id);
            assert(now.contains(id) <==> before.contains(id) || r.net_id == id) by {
                if before.contains(id) {
                    let k = choose|k: int| 0 <= k < before.len() && before[k] == id;
                    assert(now[k] == id);
                }
                assert(now[before.len() as int] == r.net_id);
            }
        }
        if exists|k: int|
            0 <= k < rows.len() && (#[trigger] rows[k]).name == name && rows[k].net_id == id
                && !rows[k].tombstone {
            let k = choose|k: int|
                0 <= k < rows.len() && (#[trigger] rows[k]).name == name && rows[k].net_id == id
                    && !rows[k].tombstone;
            if k < init.len() {
                assert(init[k] == rows[k]);
            }
        }
        if before.contains(id) {
            let k = choose|k: int|
                0 <= k < init.len() && (#[trigger] init[k]).name == name && init[k].net_id == id
                    && !init[k].tombstone;
            assert(rows[k] == init[k]);
        }
    }
}

/// The tree shows the services that a lookup finds, and no others: a mailbox is
/// listed under a name exactly when it is live there.
pub proof fn law_services_live(
    dir: DirectoryView,
    rows: Seq<SnapshotEntryView>,
    services: Seq<ServiceView>,
    name: Seq<char>,
    id: NetId,
)
    requires
        is_snapshot(dir.entries, rows),
        groups(services, rows),
    ensures
        dir.live(name, id) <==> exists|i: int|
            0 <= i < services.len() && (#[trigger] services[i]).name == name
                && services[i].net_ids.contains(id),
{
    lemma_live_row(rows, name, id);
    if dir.live(name, id) {
        let k = choose|k: int| 0 <= k < rows.len() && (#[trigger] rows[k]).key() == (name, id);
        assert(rows[k].name == name && rows[k].net_id == id && !rows[k].tombstone);
        assert(live_ids(rows, name).len() > 0);
        let i = choose|i: int| 0 <= i < services.len() && (#[trigger] services[i]).name == name;
        assert(services[i].net_ids.contains(id));
    }
    if exists|i: int|
        0 <= i < services.len() && (#[trigger] services[i]).name == name
            && services[i].net_ids.contains(id) {
        let k = choose|k: int|
            0 <= k < rows.len() && (#[trigger] rows[k]).name == name && rows[k].net_id == id
                && !rows[k].tombstone;
        assert(dir.entries.contains_key(rows[k].key()));
    }
}

} // verus!

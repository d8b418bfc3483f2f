//! Task lifecycle: when a task exits, every service that it declared is
//! forgotten and every mailbox that it owned is evicted.
use crate::ident::{FrameView, MboxId, NetId};
use crate::mbox::directory::{too_long, TaskId};
use crate::mbox::gossip::{
    declared_view, forget_frame, Declared, DeclaredView, ServiceGossip, ServiceGossipView,
};
use crate::mbox::mailbox::{evict_for_gc, Registry};
use crate::time::Duration;
use std::collections::BTreeMap;
use tokio::sync::mpsc::Sender;
use vstd::prelude::*;

verus! {

broadcast use vstd::std_specs::btree::group_btree_axioms;

/// Which mailboxes each task owns.
pub struct Tracker {
    pub mboxes: BTreeMap<u64, Vec<MboxId>>,
}

impl Tracker {
    pub fn new() -> (t: Self)
        ensures
            t.mboxes@ == Map::<u64, Vec<MboxId>>::empty(),
    {
        Tracker { mboxes: BTreeMap::new() }
    }

    /// Adds a mailbox to those of a task.
    pub(crate) fn push_owned(&mut self, task_id: TaskId, mbox: MboxId)
        ensures
            final(self).owned(task_id) == old(self).owned(task_id).push(mbox),
            forall|other: u64|
                other != task_id ==> #[trigger] final(self).owned(other) == old(self).owned(other),
    {
        let mut list = match self.mboxes.remove(&task_id) {
            Some(v) => v,
            None => Vec::new(),
        };
        list.push(mbox);
        self.mboxes.insert(task_id, list);
    }

    /// The mailboxes of a task.
    pub open spec fn owned(&self, task_id: TaskId) -> Seq<MboxId> {
        if self.mboxes@.contains_key(task_id) {
            self.mboxes@[task_id]@
        } else {
            Seq::empty()
        }
    }
}

/// Register a task's existence. Idempotent: re-calling on an already-tracked
/// task is a no-op.
pub fn on_task_start(t: &mut Tracker, task_id: TaskId)
    ensures
        final(t).mboxes@.contains_key(task_id),
        final(t).owned(task_id) == old(t).owned(task_id),
        forall|other: u64|
            other != task_id ==> #[trigger] final(t).owned(other) == old(t).owned(other),
        old(t).mboxes@.contains_key(task_id) ==> final(t).mboxes@ == old(t).mboxes@,
{
    if !t.mboxes.contains_key(&task_id) {
        let none: Vec<MboxId> = Vec::new();
        t.mboxes.insert(task_id, none);
    }
}

/// The mailboxes of a task once it owns this one too.
pub open spec fn owning(owned: Seq<MboxId>, mbox: MboxId) -> Seq<MboxId> {
    if owned.contains(mbox) {
        owned
    } else {
        owned.push(mbox)
    }
}

/// Records that a task owns a mailbox. Returns how many it now owns; one that is
/// recorded already, as [`crate::mbox::mailbox::Mailbox::new`] does for the
/// current task, is not counted twice.
pub fn record_owned_mbox(t: &mut Tracker, task_id: TaskId, mbox: MboxId) -> (n: usize)
    ensures
        final(t).owned(task_id) == owning(old(t).owned(task_id), mbox),
        n == final(t).owned(task_id).len(),
        forall|other: u64|
            other != task_id ==> #[trigger] final(t).owned(other) == old(t).owned(other),
{
    if !is_owned(t, task_id, mbox) {
        t.push_owned(task_id, mbox);
    }
    owned_count(t, task_id)
}

/// Whether a task owns a mailbox.
fn is_owned(t: &Tracker, task_id: TaskId, mbox: MboxId) -> (r: bool)
    ensures
        r == t.owned(task_id).contains(mbox),
{
    let list = match t.mboxes.get(&task_id) {
        Some(v) => v,
        None => {
            return false;
        },
    };
    let mut i: usize = 0;
    while i < list.len()
        invariant
            i <= list@.len(),
            list@ == t.owned(task_id),
            forall|k: int| 0 <= k < i ==> list@[k] != mbox,
        decreases list@.len() - i,
    {
        if list[i] == mbox {
            assert(t.owned(task_id)[i as int] == mbox);
            return true;
        }
        i = i + 1;
    }
    false
}

/// How many mailboxes a task owns.
pub fn owned_count(t: &Tracker, task_id: TaskId) -> (n: usize)
    ensures
        n == t.owned(task_id).len(),
{
    match t.mboxes.get(&task_id) {
        Some(v) => v.len(),
        None => 0,
    }
}

/// The declarations of a task, oldest first.
pub open spec fn of_task(ds: Seq<DeclaredView>, task_id: TaskId) -> Seq<DeclaredView>
    decreases ds.len(),
{
    if ds.len() == 0 {
        Seq::empty()
    } else if ds.last().task_id == task_id {
        of_task(ds.drop_last(), task_id).push(ds.last())
    } else {
        of_task(ds.drop_last(), task_id)
    }
}

/// The declarations of the other tasks.
pub open spec fn of_others(ds: Seq<DeclaredView>, task_id: TaskId) -> Seq<DeclaredView>
    decreases ds.len(),
{
    if ds.len() == 0 {
        Seq::empty()
    } else if ds.last().task_id == task_id {
        of_others(ds.drop_last(), task_id)
    } else {
        of_others(ds.drop_last(), task_id).push(ds.last())
    }
}

/// The engine after the declarations were forgotten one after the other.
pub open spec fn forgets_each(
    g: ServiceGossipView,
    task_id: TaskId,
    ds: Seq<DeclaredView>,
    now: Duration,
) -> ServiceGossipView
    decreases ds.len(),
{
    if ds.len() == 0 {
        g
    } else {
        let d = ds.last();
        forgets_each(g, task_id, ds.drop_last(), now).forgets(task_id, d.name, d.net_id, now)
    }
}

/// The engine after a task exited.
pub open spec fn exited(g: ServiceGossipView, task_id: TaskId, now: Duration) -> ServiceGossipView {
    forgets_each(
        ServiceGossipView { declared: of_others(g.declared, task_id), ..g },
        task_id,
        of_task(g.declared, task_id),
        now,
    )
}

/// Takes the declarations of a task out of the engine.
fn drain_declared_for_task(g: &mut ServiceGossip, task_id: TaskId) -> (r: Vec<Declared>)
    ensures
        declared_view(r@) == of_task(old(g)@.declared, task_id),
        final(g)@ == (ServiceGossipView {
            declared: of_others(old(g)@.declared, task_id),
            ..old(g)@
        }),
        old(g).wf() ==> final(g).wf(),
{
    let ghost all = declared_view(g.declared@);
    let mut mine: Vec<Declared> = Vec::new();
    let mut others: Vec<Declared> = Vec::new();
    let mut i: usize = 0;
    assert(all.take(0) =~= Seq::empty());
    assert(declared_view(mine@) =~= Seq::empty());
    assert(declared_view(others@) =~= Seq::empty());
    while i < g.declared.len()
        invariant
            i <= g.declared@.len(),
            all == declared_view(g.declared@),
            *g == *old(g),
            declared_view(mine@) == of_task(all.take(i as int), task_id),
            declared_view(others@) == of_others(all.take(i as int), task_id),
        decreases g.declared@.len() - i,
    {
        let ghost m0 = mine@;
        let ghost o0 = others@;
        let d = &g.declared[i];
        assert(all.take(i + 1).drop_last() =~= all.take(i as int));
        assert(all.take(i + 1).last() == d@);
        let copy = Declared {
            name: d.name.clone(),
            task_id: d.task_id,
            net_id: d.net_id,
            lamport: d.lamport,
        };
        assert(copy@ == d@);
        if d.task_id == task_id {
            mine.push(copy);
            assert(declared_view(mine@) =~= declared_view(m0).push(d@));
        } else {
            others.push(copy);
            assert(declared_view(others@) =~= declared_view(o0).push(d@));
        }
        i = i + 1;
    }
    assert(all.take(i as int) =~= all);
    g.declared = others;
    proof {
        assert(declared_view(g.declared@) == of_others(all, task_id));
        if old(g).wf() {
            assert forall|i: int| 0 <= i < g@.declared.len() implies (
            #[trigger] g@.declared[i]).lamport <= g@.dir.clock && !too_long(
                g@.declared[i].name,
            ) by {
                lemma_others_member(all, task_id, i);
                let j = choose|j: int| 0 <= j < all.len() && #[trigger] all[j] == of_others(
                    all,
                    task_id,
                )[i];
                assert(old(g)@.declared[j].lamport <= old(g)@.dir.clock);
            }
        }
    }
    mine
}

proof fn lemma_others_member(ds: Seq<DeclaredView>, task_id: TaskId, i: int)
    requires
        0 <= i < of_others(ds, task_id).len(),
    ensures
        exists|j: int| 0 <= j < ds.len() && #[trigger] ds[j] == of_others(ds, task_id)[i],
    decreases ds.len(),
{
    let rest = ds.drop_last();
    let o = of_others(rest, task_id);
    if i < o.len() {
        lemma_others_member(rest, task_id, i);
        let j = choose|j: int| 0 <= j < rest.len() && #[trigger] rest[j] == o[i];
        assert(ds[j] == of_others(ds, task_id)[i]);
    } else {
        assert(ds[ds.len() - 1] == of_others(ds, task_id)[i]);
    }
}

/// Reap everything owned by `task_id`. Idempotent: later calls find nothing and
/// emit nothing.
pub fn on_task_exit(
    g: &mut ServiceGossip,
    t: &mut Tracker,
    registry: &mut Registry,
    task_id: TaskId,
    now: Duration,
)
    requires
        old(g).wf(),
        old(g)@.dir.clock + of_task(old(g)@.declared, task_id).len() <= u64::MAX,
    ensures
        final(g).wf(),
        final(g)@ == exited(old(g)@, task_id, now),
        final(t).mboxes@ == old(t).mboxes@.remove(task_id),
        final(t).owned(task_id) == Seq::<MboxId>::empty(),
        final(registry).next_id == old(registry).next_id,
        final(registry).slots@ == old(registry).slots@.remove_keys(
            ids_of(old(t).owned(task_id)),
        ),
        old(registry).wf() ==> final(registry).wf(),
{
    let ghost start = g@;
    let mine = drain_declared_for_task(g, task_id);
    let ghost drained = g@;
    let ghost ds = declared_view(mine@);
    let mut i: usize = 0;
    assert(ds.take(0) =~= Seq::empty());
    while i < mine.len()
        invariant
            i <= mine@.len(),
            ds == declared_view(mine@),
            g.wf(),
            drained.dir.clock + mine@.len() <= u64::MAX,
            g@ == forgets_each(drained, task_id, ds.take(i as int), now),
            g@.dir.clock <= drained.dir.clock + i,
        decreases mine@.len() - i,
    {
        let d = &mine[i];
        assert(ds.take(i + 1).drop_last() =~= ds.take(i as int));
        assert(ds.take(i + 1).last() == d@);
        g.forget_and_tell(task_id, d.name.as_str(), d.net_id, now);
        i = i + 1;
    }
    assert(ds.take(i as int) =~= ds);
    let owned = match t.mboxes.remove(&task_id) {
        Some(v) => v,
        None => Vec::new(),
    };
    let ghost before = registry.slots@;
    let mut k: usize = 0;
    assert(before.remove_keys(ids_of(owned@.take(0))) =~= before);
    while k < owned.len()
        invariant
            k <= owned@.len(),
            registry.next_id == old(registry).next_id,
            before == old(registry).slots@,
            registry.slots@ == before.remove_keys(ids_of(owned@.take(k as int))),
            old(registry).wf() ==> registry.wf(),
        decreases owned@.len() - k,
    {
        let id = owned[k];
        evict_for_gc(registry, id);
        proof {
            let a = owned@.take(k as int);
            let b = owned@.take(k + 1);
            assert(b =~= a.push(id));
            assert forall|x: u64| ids_of(b).contains(x) <==> ids_of(a).contains(x) || x
                == id.0 by {
                if ids_of(a).contains(x) {
                    let m = choose|m: int| 0 <= m < a.len() && (#[trigger] a[m]).0 == x;
                    assert(b[m].0 == x);
                }
                if x == id.0 {
                    assert(b[k as int].0 == x);
                }
            }
            assert(registry.slots@ =~= before.remove_keys(ids_of(b)));
        }
        k = k + 1;
    }
    assert(owned@.take(k as int) =~= owned@);
}

/// The numbers of the mailboxes.
pub open spec fn ids_of(ms: Seq<MboxId>) -> Set<u64> {
    Set::new(|x: u64| exists|i: int| 0 <= i < ms.len() && (#[trigger] ms[i]).0 == x)
}

proof fn lemma_others_not_mine(ds: Seq<DeclaredView>, task_id: TaskId)
    ensures
        of_task(of_others(ds, task_id), task_id) == Seq::<DeclaredView>::empty(),
        of_others(of_others(ds, task_id), task_id) == of_others(ds, task_id),
    decreases ds.len(),
{
    if ds.len() > 0 {
        lemma_others_not_mine(ds.drop_last(), task_id);
        let o = of_others(ds.drop_last(), task_id);
        if ds.last().task_id != task_id {
            assert(o.push(ds.last()).drop_last() =~= o);
        }
    }
}

proof fn lemma_forgets_keeps(
    g: ServiceGossipView,
    task_id: TaskId,
    ds: Seq<DeclaredView>,
    now: Duration,
)
    ensures
        forgets_each(g, task_id, ds, now).declared == g.declared,
    decreases ds.len(),
{
    if ds.len() > 0 {
        lemma_forgets_keeps(g, task_id, ds.drop_last(), now);
    }
}

/// A second exit of a task changes nothing and emits nothing.
pub proof fn law_exit_again(g: ServiceGossipView, task_id: TaskId, now: Duration, later: Duration)
    ensures
        exited(exited(g, task_id, now), task_id, later) == exited(g, task_id, now),
{
    let others = of_others(g.declared, task_id);
    let mine = of_task(g.declared, task_id);
    lemma_others_not_mine(g.declared, task_id);
    lemma_forgets_keeps(
        ServiceGossipView { declared: others, ..g },
        task_id,
        mine,
        now,
    );
}

/// After a task exited none of its services is live, whichever mailbox it
/// declared them for.
pub proof fn law_exit_forgets_all(
    g: ServiceGossipView,
    task_id: TaskId,
    now: Duration,
    i: int,
)
    requires
        g.sound(),
        0 <= i < of_task(g.declared, task_id).len(),
    ensures
        ({
            let d = of_task(g.declared, task_id)[i];
            !exited(g, task_id, now).dir.live(d.name, d.net_id)
        }),
{
    let start = ServiceGossipView { declared: of_others(g.declared, task_id), ..g };
    lemma_task_member(g.declared, task_id, i);
    lemma_forgotten_at(start, task_id, of_task(g.declared, task_id), now, i);
}

proof fn lemma_forgotten_at(
    g: ServiceGossipView,
    task_id: TaskId,
    ds: Seq<DeclaredView>,
    now: Duration,
    i: int,
)
    requires
        0 <= i < ds.len(),
        !too_long(ds[i].name),
    ensures
        !forgets_each(g, task_id, ds, now).dir.live(ds[i].name, ds[i].net_id),
    decreases ds.len(),
{
    if i < ds.len() - 1 {
        lemma_forgotten_at(g, task_id, ds.drop_last(), now, i);
        assert(ds.drop_last()[i] == ds[i]);
    }
}

/// The frames that take the declarations back, with one stamp after the other.
pub open spec fn forget_frames(ds: Seq<DeclaredView>, clock: u64) -> Seq<FrameView> {
    Seq::new(
        ds.len(),
        |i: int| forget_frame(ds[i].name, ds[i].net_id, (clock + 1 + i) as u64),
    )
}

/// The exit of a task emits one forget frame for each of its declarations,
/// oldest first, each with the stamp after the one before, and nothing else.
pub proof fn law_exit_tells_all(g: ServiceGossipView, task_id: TaskId, now: Duration)
    requires
        g.sound(),
        g.sink.installed,
        g.dir.clock + of_task(g.declared, task_id).len() <= u64::MAX,
    ensures
        exited(g, task_id, now).sink.queue == g.sink.queue + forget_frames(
            of_task(g.declared, task_id),
            g.dir.clock,
        ),
{
    let start = ServiceGossipView { declared: of_others(g.declared, task_id), ..g };
    let mine = of_task(g.declared, task_id);
    assert forall|i: int| 0 <= i < mine.len() implies !too_long((#[trigger] mine[i]).name) by {
        lemma_task_member(g.declared, task_id, i);
    }
    lemma_frames(start, task_id, mine, now);
}

proof fn lemma_task_member(ds: Seq<DeclaredView>, task_id: TaskId, i: int)
    requires
        0 <= i < of_task(ds, task_id).len(),
    ensures
        exists|j: int| 0 <= j < ds.len() && #[trigger] ds[j] == of_task(ds, task_id)[i],
    decreases ds.len(),
{
    let rest = ds.drop_last();
    let o = of_task(rest, task_id);
    if i < o.len() {
        lemma_task_member(rest, task_id, i);
        let j = choose|j: int| 0 <= j < rest.len() && #[trigger] rest[j] == o[i];
        assert(ds[j] == of_task(ds, task_id)[i]);
    } else {
        assert(ds[ds.len() - 1] == of_task(ds, task_id)[i]);
    }
}

proof fn lemma_frames(
    g: ServiceGossipView,
    task_id: TaskId,
    ds: Seq<DeclaredView>,
    now: Duration,
)
    requires
        g.sink.installed,
        forall|i: int| 0 <= i < ds.len() ==> !too_long((#[trigger] ds[i]).name),
        g.dir.clock + ds.len() <= u64::MAX,
    ensures
        forgets_each(g, task_id, ds, now).sink.queue == g.sink.queue + forget_frames(
            ds,
            g.dir.clock,
        ),
        forgets_each(g, task_id, ds, now).sink.installed,
        forgets_each(g, task_id, ds, now).dir.clock == g.dir.clock + ds.len(),
    decreases ds.len(),
{
    if ds.len() == 0 {
        assert(g.sink.queue + forget_frames(ds, g.dir.clock) =~= g.sink.queue);
    } else {
        let rest = ds.drop_last();
        let d = ds.last();
        assert forall|i: int| 0 <= i < rest.len() implies !too_long((#[trigger] rest[i]).name) by {
            assert(rest[i] == ds[i]);
        }
        lemma_frames(g, task_id, rest, now);
        assert(ds[ds.len() - 1] == d);
        let all = forget_frames(ds, g.dir.clock);
        assert(all =~= forget_frames(rest, g.dir.clock).push(
            forget_frame(d.name, d.net_id, (g.dir.clock + ds.len()) as u64),
        ));
        assert((g.sink.queue + forget_frames(rest, g.dir.clock)).push(all.last()) =~= g.sink.queue
            + all);
    }
}

/// A mailbox that a task owns, such as every one made while the task was
/// current, is gone after its exit; all others stay.
pub proof fn law_exit_reaps(
    slots: Map<u64, Sender<Vec<u8>>>,
    owned: Seq<MboxId>,
    id: MboxId,
)
    ensures
        owned.contains(id) ==> !slots.remove_keys(ids_of(owned)).contains_key(id.0),
        !owned.contains(id) ==> slots.remove_keys(ids_of(owned)).contains_key(id.0)
            == slots.contains_key(id.0),
{
    if owned.contains(id) {
        let i = choose|i: int| 0 <= i < owned.len() && owned[i] == id;
        assert(ids_of(owned).contains(owned[i].0));
    } else if ids_of(owned).contains(id.0) {
        let i = choose|i: int| 0 <= i < owned.len() && (#[trigger] owned[i]).0 == id.0;
        assert(owned[i] == id);
    }
}

/// The services of other tasks stay as they are: what no task but this one
/// declared for the mailbox is all that can change.
pub proof fn law_exit_spares_others(
    g: ServiceGossipView,
    task_id: TaskId,
    now: Duration,
    name: Seq<char>,
    net_id: NetId,
)
    requires
        forall|i: int|
            0 <= i < of_task(g.declared, task_id).len() ==> {
                let d = #[trigger] of_task(g.declared, task_id)[i];
                d.name != name || d.net_id != net_id
            },
    ensures
        exited(g, task_id, now).dir.live(name, net_id) == g.dir.live(name, net_id),
        exited(g, task_id, now).declared == of_others(g.declared, task_id),
{
    let start = ServiceGossipView { declared: of_others(g.declared, task_id), ..g };
    lemma_forgets_keeps(start, task_id, of_task(g.declared, task_id), now);
    lemma_spared(start, task_id, of_task(g.declared, task_id), now, name, net_id);
}

proof fn lemma_spared(
    g: ServiceGossipView,
    task_id: TaskId,
    ds: Seq<DeclaredView>,
    now: Duration,
    name: Seq<char>,
    net_id: NetId,
)
    requires
        forall|i: int|
            0 <= i < ds.len() ==> (#[trigger] ds[i]).name != name || ds[i].net_id != net_id,
    ensures
        forgets_each(g, task_id, ds, now).dir.live(name, net_id) == g.dir.live(name, net_id),
    decreases ds.len(),
{
    if ds.len() > 0 {
        let init = ds.drop_last();
        assert forall|i: int| 0 <= i < init.len() implies (#[trigger] init[i]).name != name
            || init[i].net_id != net_id by {
            assert(init[i] == ds[i]);
        }
        lemma_spared(g, task_id, init, now, name, net_id);
        assert(ds[ds.len() - 1] == ds.last());
    }
}

} // verus!

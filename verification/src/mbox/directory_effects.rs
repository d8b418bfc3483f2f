//! What each operation on the directory changes, entry by entry.
use crate::ident::NetId;
use crate::mbox::directory::{
    disowned, id_before, is_lookup, is_snapshot, observed, too_long, DirectoryView, Info, Key,
    OwnedView, SnapshotEntryView, TaskId,
};
use crate::time::Duration;
use vstd::prelude::*;
use vstd::utf8::encode_utf8;

verus! {

/// Whether the two directories know the same of the mailbox under the name.
pub open spec fn same_entry(a: DirectoryView, b: DirectoryView, k: Key) -> bool {
    a.entries.contains_key(k) == b.entries.contains_key(k) && (a.entries.contains_key(k)
        ==> a.entries[k] == b.entries[k])
}

/// A name may have 256 bytes and no more.
pub proof fn law_name_length(name: Seq<char>)
    ensures
        too_long(name) <==> encode_utf8(name).len() >= 257,
{
}

/// A clock that saw another is one ahead of the later of the two, and stays at the
/// last one there is.
pub proof fn law_clock_observed(clock: u64, remote: u64)
    ensures
        clock >= remote && clock < u64::MAX ==> observed(clock, remote) == clock + 1,
        remote >= clock && remote < u64::MAX ==> observed(clock, remote) == remote + 1,
        clock == u64::MAX || remote == u64::MAX ==> observed(clock, remote) == u64::MAX,
{
}

/// Mailboxes are in the order of their nodes, and on one node of their numbers.
pub proof fn law_mailbox_order(a: NetId, b: NetId)
    ensures
        a.node.0 < b.node.0 ==> id_before(a, b) && !id_before(b, a),
        a.node.0 == b.node.0 && a.mbox.0 < b.mbox.0 ==> id_before(a, b) && !id_before(b, a),
        !id_before(a, a),
        a != b ==> id_before(a, b) || id_before(b, a),
{
}

/// A declaration: the mailbox is live under the name with the next stamp, the task
/// owns it, and nothing else changes.
pub proof fn law_declared(
    d: DirectoryView,
    task_id: TaskId,
    name: Seq<char>,
    net_id: NetId,
    now: Duration,
    k: Key,
)
    requires
        d.clock < u64::MAX,
    ensures
        ({
            let after = d.declared(task_id, name, net_id, now);
            &&& after.clock == d.clock + 1
            &&& after.live(name, net_id)
            &&& after.entries[(name, net_id)].lamport == d.clock + 1
            &&& after.entries[(name, net_id)].last_seen == now
            &&& k != (name, net_id) ==> same_entry(after, d, k)
            &&& after.by_task.len() == d.by_task.len() + 1
            &&& after.by_task.drop_last() == d.by_task
            &&& after.by_task.last().task_id == task_id
            &&& after.by_task.last().name == name
            &&& after.by_task.last().net_id == net_id
            &&& after.cursors == d.cursors
        }),
{
    assert(d.declared(task_id, name, net_id, now).by_task.drop_last() =~= d.by_task);
}

/// Forgetting a live mailbox leaves a tombstone with the next stamp, as of now;
/// forgetting one that is not live changes no entry. The stamp is used up, and the
/// task no longer owns the mailbox under the name.
pub proof fn law_forgotten(
    d: DirectoryView,
    task_id: TaskId,
    name: Seq<char>,
    net_id: NetId,
    now: Duration,
    k: Key,
)
    requires
        d.clock < u64::MAX,
    ensures
        ({
            let after = d.forgotten(task_id, name, net_id, now);
            &&& after.clock == d.clock + 1
            &&& !after.live(name, net_id)
            &&& d.live(name, net_id) ==> {
                &&& after.entries.contains_key((name, net_id))
                &&& after.entries[(name, net_id)].tombstone
                &&& after.entries[(name, net_id)].lamport == d.clock + 1
                &&& after.entries[(name, net_id)].last_seen == now
            }
            &&& !d.live(name, net_id) ==> after.entries == d.entries
            &&& k != (name, net_id) ==> same_entry(after, d, k)
            &&& after.cursors == d.cursors
            &&& after.by_task == disowned(d.by_task, task_id, name, net_id)
        }),
{
}

/// Taking a declaration back leaves a tombstone with the next stamp, whatever was
/// known before.
pub proof fn law_retracted(
    d: DirectoryView,
    task_id: TaskId,
    name: Seq<char>,
    net_id: NetId,
    now: Duration,
    k: Key,
)
    requires
        d.clock < u64::MAX,
    ensures
        ({
            let after = d.retracted(task_id, name, net_id, now);
            &&& after.clock == d.clock + 1
            &&& after.entries.contains_key((name, net_id))
            &&& after.entries[(name, net_id)].tombstone
            &&& after.entries[(name, net_id)].lamport == d.clock + 1
            &&& after.entries[(name, net_id)].last_seen == now
            &&& k != (name, net_id) ==> same_entry(after, d, k)
            &&& after.cursors == d.cursors
            &&& after.by_task == disowned(d.by_task, task_id, name, net_id)
        }),
{
}

/// What a task owns after it gave a mailbox up under a name: all but that, in
/// order.
pub proof fn law_disowned(
    owned: Seq<OwnedView>,
    task_id: TaskId,
    name: Seq<char>,
    net_id: NetId,
    o: OwnedView,
)
    ensures
        disowned(owned, task_id, name, net_id).contains(o) <==> owned.contains(o) && !(o.task_id
            == task_id && o.name == name && o.net_id == net_id),
        disowned(owned.push(o), task_id, name, net_id) == if o.task_id == task_id && o.name == name
            && o.net_id == net_id {
            disowned(owned, task_id, name, net_id)
        } else {
            disowned(owned, task_id, name, net_id).push(o)
        },
    decreases owned.len(),
{
    assert(owned.push(o).drop_last() =~= owned);
    if owned.len() > 0 {
        let init = owned.drop_last();
        let x = owned[owned.len() - 1];
        law_disowned(init, task_id, name, net_id, o);
        assert(owned =~= init.push(x));
        lemma_push_contains(init, x, o);
        lemma_push_contains(disowned(init, task_id, name, net_id), x, o);
    } else {
        assert(disowned(owned, task_id, name, net_id) =~= Seq::empty());
    }
}

proof fn lemma_push_contains(s: Seq<OwnedView>, x: OwnedView, o: OwnedView)
    ensures
        s.push(x).contains(o) <==> s.contains(o) || x == o,
{
    if s.contains(o) {
        let i = choose|i: int| 0 <= i < s.len() && s[i] == o;
        assert(s.push(x)[i] == o);
    }
    if x == o {
        assert(s.push(x)[s.len() as int] == o);
    }
    if s.push(x).contains(o) {
        let i = choose|i: int| 0 <= i < s.push(x).len() && s.push(x)[i] == o;
        if i < s.len() {
            assert(s[i] == o);
        }
    }
}

/// News is taken in exactly where its name is not too long and nothing with its
/// stamp or a later one is known of the mailbox under the name.
pub proof fn law_accepts(d: DirectoryView, name: Seq<char>, net_id: NetId, lamport: u64)
    ensures
        d.accepts(name, net_id, lamport) <==> encode_utf8(name).len() <= 256 && (
        !d.entries.contains_key((name, net_id)) || d.entries[(name, net_id)].lamport < lamport),
{
}

/// News that is taken in is known as it came, as of now; the clock goes on either
/// way, but not for a name that is too long; nothing else changes.
pub proof fn law_heard(
    d: DirectoryView,
    name: Seq<char>,
    net_id: NetId,
    lamport: u64,
    tombstone: bool,
    now: Duration,
    k: Key,
)
    ensures
        ({
            let after = d.heard(name, net_id, lamport, tombstone, now);
            &&& encode_utf8(name).len() > 256 ==> after == d
            &&& encode_utf8(name).len() <= 256 ==> after.clock >= d.clock && after.clock >= lamport
                && (after.clock == u64::MAX || after.clock == d.clock + 1 || after.clock == lamport
                + 1) && (after.clock < u64::MAX ==> after.clock > d.clock && after.clock > lamport)
            &&& d.accepts(name, net_id, lamport) ==> {
                &&& after.entries.contains_key((name, net_id))
                &&& after.entries[(name, net_id)].lamport == lamport
                &&& after.entries[(name, net_id)].tombstone == tombstone
                &&& after.entries[(name, net_id)].last_seen == now
            }
            &&& !d.accepts(name, net_id, lamport) ==> after.entries == d.entries
            &&& k != (name, net_id) ==> same_entry(after, d, k)
            &&& after.by_task == d.by_task
            &&& after.cursors == d.cursors
        }),
{
}

/// The turn goes to the next of the `n` mailboxes with every lookup, and from the
/// last to the first; only the cursor of the name moves.
pub proof fn law_turns(d: DirectoryView, name: Seq<char>, other: Seq<char>, n: int)
    requires
        0 < n <= usize::MAX,
    ensures
        0 <= d.turn(name, n) < n,
        !d.cursors.contains_key(name) ==> d.turn(name, n) == 0,
        d.turn(name, n) + 1 < n ==> d.turned(name, n).turn(name, n) == d.turn(name, n) + 1,
        d.turn(name, n) + 1 == n ==> d.turned(name, n).turn(name, n) == 0,
        other != name ==> d.turned(name, n).cursor(other) == d.cursor(other),
        d.turned(name, n).entries == d.entries,
        d.turned(name, n).by_task == d.by_task,
        d.turned(name, n).clock == d.clock,
{
    let at = d.cursor(name) as int;
    let t = at % n;
    vstd::arithmetic::div_mod::lemma_mod_bound(at, n);
    if at == usize::MAX {
        let next = (t + 1) % n;
        vstd::arithmetic::div_mod::lemma_mod_bound(t + 1, n);
        if t + 1 < n {
            vstd::arithmetic::div_mod::lemma_small_mod((t + 1) as nat, n as nat);
        } else {
            vstd::arithmetic::div_mod::lemma_mod_self_0(n);
        }
        vstd::arithmetic::div_mod::lemma_small_mod(next as nat, n as nat);
    } else {
        vstd::arithmetic::div_mod::lemma_add_mod_noop(at, 1, n);
        if n == 1 {
            assert((at + 1) % 1 == 0);
        } else {
            vstd::arithmetic::div_mod::lemma_small_mod(1, n as nat);
            assert((at + 1) % n == (t + 1) % n);
            if t + 1 < n {
                vstd::arithmetic::div_mod::lemma_small_mod((t + 1) as nat, n as nat);
            } else {
                vstd::arithmetic::div_mod::lemma_mod_self_0(n);
            }
        }
    }
}

/// A tombstone is kept for sixty seconds and collected from then on; what is live
/// is kept, and nothing else changes.
pub proof fn law_collected(d: DirectoryView, now: Duration, k: Key)
    ensures
        ({
            let after = d.collected(now);
            &&& d.entries.contains_key(k) && !d.entries[k].tombstone ==> same_entry(after, d, k)
            &&& d.entries.contains_key(k) && d.entries[k].tombstone && now.nanos
                < d.entries[k].last_seen.nanos + 60_000_000_000 ==> same_entry(after, d, k)
            &&& d.entries.contains_key(k) && d.entries[k].tombstone && now.nanos
                >= d.entries[k].last_seen.nanos + 60_000_000_000 ==> !after.entries.contains_key(k)
            &&& !d.entries.contains_key(k) ==> !after.entries.contains_key(k)
            &&& after.by_task == d.by_task
            &&& after.cursors == d.cursors
            &&& after.clock == d.clock
        }),
{
}

/// A lookup has each mailbox that is live under the name once, and no other, in
/// ascending order.
pub proof fn law_lookup(d: DirectoryView, name: Seq<char>, ids: Seq<NetId>, id: NetId, i: int, j: int)
    requires
        is_lookup(d, name, ids),
    ensures
        ids.contains(id) <==> d.entries.contains_key((name, id)) && !d.entries[(
            name,
            id,
        )].tombstone,
        0 <= i < j < ids.len() ==> ids[i] != ids[j] && (ids[i].node.0 < ids[j].node.0 || (
        ids[i].node.0 == ids[j].node.0 && ids[i].mbox.0 < ids[j].mbox.0)),
{
    if 0 <= i < j < ids.len() {
        assert(id_before(ids[i], ids[j]));
    }
}

/// A snapshot has a row for each entry, tombstones too, with its stamp.
pub proof fn law_snapshot(entries: Map<Key, Info>, s: Seq<SnapshotEntryView>, k: Key, i: int)
    requires
        is_snapshot(entries, s),
    ensures
        entries.contains_key(k) ==> exists|i: int|
            0 <= i < s.len() && (#[trigger] s[i]).name == k.0 && s[i].net_id == k.1 && s[i].lamport
                == entries[k].lamport && s[i].tombstone == entries[k].tombstone,
        0 <= i < s.len() ==> entries.contains_key((s[i].name, s[i].net_id)),
{
    if entries.contains_key(k) {
        let i = choose|i: int| 0 <= i < s.len() && (#[trigger] s[i]).key() == k;
        assert(s[i].name == k.0 && s[i].net_id == k.1);
    }
    if 0 <= i < s.len() {
        assert(entries.contains_key(s[i].key()));
    }
}

} // verus!

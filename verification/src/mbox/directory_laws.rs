//! What holds of the service directory whatever is heard in whatever order.
use crate::ident::NetId;
use crate::mbox::directory::{
    id_before, is_lookup, law_lookup_unique, too_long, DirectoryView, Key,
};
use crate::mbox::frames::ServiceSyncEntryView;
use crate::mbox::gossip::{answers_sync, as_row, ServiceGossipView};
use crate::time::Duration;
use vstd::prelude::*;

verus! {

/// A piece of news: an ad or a forget.
pub struct News {
    pub name: Seq<char>,
    pub net_id: NetId,
    pub lamport: u64,
    pub tombstone: bool,
}

/// The directory after a piece of news.
pub open spec fn told(d: DirectoryView, n: News, now: Duration) -> DirectoryView {
    d.heard(n.name, n.net_id, n.lamport, n.tombstone, now)
}

/// What a directory knows of a key, apart from when it heard of it.
pub open spec fn known(d: DirectoryView, k: Key) -> Option<(u64, bool)> {
    if d.entries.contains_key(k) {
        Some((d.entries[k].lamport, d.entries[k].tombstone))
    } else {
        None
    }
}

/// Whether two directories know the same.
pub open spec fn agree(a: DirectoryView, b: DirectoryView) -> bool {
    forall|k: Key| #[trigger] known(a, k) == known(b, k)
}

/// Convergence: of two pieces of news with different clocks the directory ends
/// up knowing the same, whichever is heard first, and whenever.
pub proof fn law_order_irrelevant(
    d: DirectoryView,
    a: News,
    b: News,
    t1: Duration,
    t2: Duration,
    t3: Duration,
    t4: Duration,
)
    requires
        a.lamport != b.lamport || a.name != b.name || a.net_id != b.net_id,
    ensures
        agree(told(told(d, a, t1), b, t2), told(told(d, b, t3), a, t4)),
{
}

/// News that is heard again changes nothing but the clock.
pub proof fn law_heard_again(d: DirectoryView, n: News, t1: Duration, t2: Duration)
    ensures
        told(told(d, n, t1), n, t2).entries == told(d, n, t1).entries,
{
}

/// The clock of an entry never goes back while news is heard.
pub proof fn law_lamport_monotonic(d: DirectoryView, n: News, now: Duration, k: Key)
    requires
        d.entries.contains_key(k),
    ensures
        told(d, n, now).entries.contains_key(k),
        told(d, n, now).entries[k].lamport >= d.entries[k].lamport,
{
}

/// News that is no newer than what is known is dropped.
pub proof fn law_stale_dropped(d: DirectoryView, n: News, now: Duration)
    requires
        d.entries.contains_key((n.name, n.net_id)),
        d.entries[(n.name, n.net_id)].lamport >= n.lamport,
    ensures
        told(d, n, now).entries == d.entries,
        !d.accepts(n.name, n.net_id, n.lamport),
{
}

/// A tombstone hides a service, and a strictly later ad brings it back.
pub proof fn law_later_ad_revives(
    d: DirectoryView,
    name: Seq<char>,
    net_id: NetId,
    gone: u64,
    back: u64,
    t1: Duration,
    t2: Duration,
)
    requires
        !too_long(name),
        d.accepts(name, net_id, gone),
        gone < back,
    ensures
        !d.heard(name, net_id, gone, true, t1).live(name, net_id),
        d.heard(name, net_id, gone, true, t1).heard(name, net_id, back, false, t2).live(
            name,
            net_id,
        ),
{
}

/// The own clock is ahead of every clock it has seen, as far as it goes: what
/// is declared next wins over what was heard.
pub proof fn law_clock_ahead(d: DirectoryView, n: News, now: Duration)
    requires
        !too_long(n.name),
        d.clock < u64::MAX,
        n.lamport < u64::MAX,
    ensures
        told(d, n, now).clock > n.lamport,
        told(d, n, now).clock > d.clock,
{
}

/// What is declared is live at once, and what is then forgotten is not.
pub proof fn law_declare_forget(
    d: DirectoryView,
    task_id: u64,
    name: Seq<char>,
    net_id: NetId,
    t1: Duration,
    t2: Duration,
)
    ensures
        d.declared(task_id, name, net_id, t1).live(name, net_id),
        !d.declared(task_id, name, net_id, t1).forgotten(task_id, name, net_id, t2).live(
            name,
            net_id,
        ),
{
}

/// Forgetting twice is forgetting once, but for the clock.
pub proof fn law_forget_again(
    d: DirectoryView,
    task_id: u64,
    name: Seq<char>,
    net_id: NetId,
    t1: Duration,
    t2: Duration,
)
    ensures
        d.forgotten(task_id, name, net_id, t1).forgotten(task_id, name, net_id, t2).entries
            == d.forgotten(task_id, name, net_id, t1).entries,
{
}

/// A change to one mailbox under one name leaves all others alone.
pub proof fn law_news_local(d: DirectoryView, n: News, now: Duration, k: Key)
    requires
        k != (n.name, n.net_id),
    ensures
        known(told(d, n, now), k) == known(d, k),
{
}

/// Collecting tombstones never touches a live service and never hides one.
pub proof fn law_collect_keeps_live(d: DirectoryView, now: Duration, name: Seq<char>, id: NetId)
    ensures
        d.collected(now).live(name, id) == d.live(name, id),
{
}

/// The mailboxes that are live under a name, in the order of a lookup.
pub open spec fn live_under(d: DirectoryView, name: Seq<char>) -> Seq<NetId> {
    choose|ids: Seq<NetId>| is_lookup(d, name, ids)
}

/// The directory after one mailbox was looked up under a name.
pub open spec fn served(d: DirectoryView, name: Seq<char>) -> DirectoryView {
    if exists|id: NetId| d.live(name, id) {
        d.turned(name, live_under(d, name).len() as int)
    } else {
        d
    }
}

/// The directory after one mailbox was looked up under each of the names, one
/// after the other.
pub open spec fn served_all(d: DirectoryView, calls: Seq<Seq<char>>) -> DirectoryView
    decreases calls.len(),
{
    if calls.len() == 0 {
        d
    } else {
        served(served_all(d, calls.drop_last()), calls.last())
    }
}

/// How many of the calls are for the name.
pub open spec fn calls_for(calls: Seq<Seq<char>>, name: Seq<char>) -> nat
    decreases calls.len(),
{
    if calls.len() == 0 {
        0
    } else {
        calls_for(calls.drop_last(), name) + if calls.last() == name {
            1nat
        } else {
            0
        }
    }
}

/// Which call for its name, counted from zero, the one at `p` is.
pub open spec fn nth_call(calls: Seq<Seq<char>>, p: int) -> nat {
    calls_for(calls.take(p), calls[p])
}

/// The mailbox that the call at `p` picks of those that are live.
pub open spec fn picked(d: DirectoryView, calls: Seq<Seq<char>>, ids: Seq<NetId>, p: int) -> NetId {
    ids[served_all(d, calls.take(p)).turn(calls[p], ids.len() as int)]
}

/// Lookups take the live mailboxes of a name in turn, round and round, whatever
/// other names are looked up in between; and a lookup changes nothing of what is
/// live.
pub proof fn law_cyclic_order(
    d: DirectoryView,
    name: Seq<char>,
    ids: Seq<NetId>,
    calls: Seq<Seq<char>>,
    p: int,
)
    requires
        is_lookup(d, name, ids),
        0 < ids.len() <= usize::MAX,
        0 <= p < calls.len(),
        calls[p] == name,
    ensures
        picked(d, calls, ids, p) == ids[(d.turn(name, ids.len() as int) + nth_call(calls, p))
            % ids.len() as int],
        is_lookup(served_all(d, calls.take(p)), name, ids),
{
    lemma_served(d, name, ids, calls.take(p));
}

/// Round-robin: of as many calls in a row for a name as it has live mailboxes,
/// starting with any call, each mailbox is picked by exactly one, whatever other
/// names are looked up in between.
pub proof fn law_round_robin(
    d: DirectoryView,
    name: Seq<char>,
    ids: Seq<NetId>,
    calls: Seq<Seq<char>>,
    first: nat,
    at: int,
)
    requires
        is_lookup(d, name, ids),
        0 <= at < ids.len() <= usize::MAX,
    ensures
        exists|k: nat|
            first <= k < first + ids.len() && #[trigger] picked_by(d, name, ids, calls, k, ids[at]),
        forall|p: int, q: int|
            0 <= p < calls.len() && 0 <= q < calls.len() && calls[p] == name && calls[q] == name
                && first <= nth_call(calls, p) < first + ids.len() && first <= nth_call(calls, q)
                < first + ids.len() && #[trigger] picked(d, calls, ids, p) == #[trigger] picked(
                d,
                calls,
                ids,
                q,
            ) ==> nth_call(calls, p) == nth_call(calls, q),
{
    let n = ids.len() as int;
    let t = d.turn(name, n);
    lemma_mod_shift(d.cursor(name) as int, 0, n);
    let c = t + first;
    lemma_mod_shift(c, 0, n);
    let i: int = if at >= c % n {
        at - c % n
    } else {
        at + n - c % n
    };
    lemma_mod_shift(c, i, n);
    let k = (first + i) as nat;
    assert(picked_by(d, name, ids, calls, k, ids[at])) by {
        assert forall|p: int|
            0 <= p < calls.len() && calls[p] == name && nth_call(calls, p) == k implies
            #[trigger] picked(d, calls, ids, p) == ids[at] by {
            law_cyclic_order(d, name, ids, calls, p);
        }
    }
    assert forall|p: int, q: int|
        0 <= p < calls.len() && 0 <= q < calls.len() && calls[p] == name && calls[q] == name
            && first <= nth_call(calls, p) < first + ids.len() && first <= nth_call(calls, q)
            < first + ids.len() && #[trigger] picked(d, calls, ids, p) == #[trigger] picked(
            d,
            calls,
            ids,
            q,
        ) implies nth_call(calls, p) == nth_call(calls, q) by {
        law_cyclic_order(d, name, ids, calls, p);
        law_cyclic_order(d, name, ids, calls, q);
        let a = nth_call(calls, p) - first;
        let b = nth_call(calls, q) - first;
        lemma_mod_shift(c, a, n);
        lemma_mod_shift(c, b, n);
        let x = (c + a) % n;
        let y = (c + b) % n;
        if x < y {
            assert(id_before(ids[x], ids[y]));
        } else if y < x {
            assert(id_before(ids[y], ids[x]));
        }
    }
}

/// Whether the `k`-th call for the name, if there is one, picks the mailbox.
pub open spec fn picked_by(
    d: DirectoryView,
    name: Seq<char>,
    ids: Seq<NetId>,
    calls: Seq<Seq<char>>,
    k: nat,
    id: NetId,
) -> bool {
    forall|p: int|
        0 <= p < calls.len() && calls[p] == name && nth_call(calls, p) == k ==> #[trigger] picked(
            d,
            calls,
            ids,
            p,
        ) == id
}

proof fn lemma_served(d: DirectoryView, name: Seq<char>, ids: Seq<NetId>, calls: Seq<Seq<char>>)
    requires
        is_lookup(d, name, ids),
        0 < ids.len() <= usize::MAX,
    ensures
        served_all(d, calls).entries == d.entries,
        is_lookup(served_all(d, calls), name, ids),
        served_all(d, calls).turn(name, ids.len() as int) == (d.turn(name, ids.len() as int)
            + calls_for(calls, name)) % ids.len() as int,
    decreases calls.len(),
{
    let n = ids.len() as int;
    let t = d.turn(name, n);
    if calls.len() == 0 {
        lemma_mod_shift(d.cursor(name) as int, 0, n);
        vstd::arithmetic::div_mod::lemma_small_mod(t as nat, n as nat);
    } else {
        let init = calls.drop_last();
        let last = calls.last();
        lemma_served(d, name, ids, init);
        let before = served_all(d, init);
        let after = served_all(d, calls);
        assert forall|id: NetId| #[trigger] ids.contains(id) <==> after.live(name, id) by {
            assert(before.live(name, id) == after.live(name, id));
        }
        if last == name {
            assert(ids.contains(ids[0]));
            assert(before.live(name, ids[0]));
            law_lookup_unique(before, name, live_under(before, name), ids);
            let c = before.cursor(name) as int;
            lemma_mod_step(c, n);
            lemma_mod_step(t + calls_for(init, name), n);
            if before.cursor(name) == usize::MAX {
                let next = (c % n + 1) % n;
                lemma_mod_shift(c % n + 1, 0, n);
                vstd::arithmetic::div_mod::lemma_small_mod(next as nat, n as nat);
            }
        }
    }
}

proof fn lemma_mod_step(c: int, n: int)
    requires
        0 <= c,
        0 < n,
    ensures
        (c + 1) % n == (c % n + 1) % n,
{
    vstd::arithmetic::div_mod::lemma_add_mod_noop(c, 1, n);
    if n > 1 {
        vstd::arithmetic::div_mod::lemma_small_mod(1, n as nat);
    } else {
        vstd::arithmetic::div_mod::lemma_mod_twice(c, n);
        assert(c % 1 == 0 && (c + 1) % 1 == 0);
        assert((c % n + 1) % n == 0);
    }
}

proof fn lemma_mod_shift(c: int, i: int, n: int)
    requires
        0 <= c,
        0 <= i < n,
    ensures
        0 <= c % n < n,
        (c + i) % n == if (c % n) + i < n {
            (c % n) + i
        } else {
            (c % n) + i - n
        },
{
    vstd::arithmetic::div_mod::lemma_fundamental_div_mod(c, n);
    let q = c / n;
    let r = c % n;
    if r + i < n {
        assert(c + i == q * n + (r + i)) by (nonlinear_arith)
            requires
                c == n * q + r,
        ;
        vstd::arithmetic::div_mod::lemma_fundamental_div_mod_converse(c + i, n, q, r + i);
    } else {
        assert(c + i == (q + 1) * n + (r + i - n)) by (nonlinear_arith)
            requires
                c == n * q + r,
        ;
        vstd::arithmetic::div_mod::lemma_fundamental_div_mod_converse(
            c + i,
            n,
            q + 1,
            r + i - n,
        );
    }
}

/// The newer of two pieces of knowledge; the first where neither is.
pub open spec fn newest(a: Option<(u64, bool)>, b: Option<(u64, bool)>) -> Option<(u64, bool)> {
    match (a, b) {
        (Some(x), Some(y)) => if y.0 > x.0 {
            b
        } else {
            a
        },
        (Some(_), None) => a,
        (None, _) => b,
    }
}

/// What a list of entries says of a key: the first with the highest clock.
pub open spec fn said(es: Seq<ServiceSyncEntryView>, k: Key) -> Option<(u64, bool)>
    decreases es.len(),
{
    if es.len() == 0 {
        None
    } else {
        let e = es.last();
        let before = said(es.drop_last(), k);
        if (e.name, e.net_id) == k && !too_long(e.name) {
            newest(before, Some((e.lamport, e.tombstone)))
        } else {
            before
        }
    }
}

/// After an answer to a sync the directory knows, of every key, the newest of
/// what it knew and what the answer said.
pub proof fn law_sync_merges(
    g: ServiceGossipView,
    es: Seq<ServiceSyncEntryView>,
    now: Duration,
    k: Key,
)
    ensures
        known(g.hears_all(es, now).dir, k) == newest(known(g.dir, k), said(es, k)),
    decreases es.len(),
{
    if es.len() > 0 {
        law_sync_merges(g, es.drop_last(), now, k);
    }
}

/// What the answer of a peer says of a key is what the peer knows.
pub proof fn law_answer_complete(
    d: DirectoryView,
    es: Seq<ServiceSyncEntryView>,
    k: Key,
)
    requires
        answers_sync(d, es),
        !too_long(k.0),
    ensures
        said(es, k) == known(d, k),
{
    let rows = es.map_values(|e: ServiceSyncEntryView| as_row(e));
    if d.entries.contains_key(k) {
        let i = choose|i: int| 0 <= i < rows.len() && (#[trigger] rows[i]).key() == k;
        assert forall|j: int| 0 <= j < es.len() && j != i implies (
        (#[trigger] es[j]).name, es[j].net_id) != k by {
            assert(rows[j].key() == (es[j].name, es[j].net_id));
            if j < i {
                assert(rows[j].key() != rows[i].key());
            } else {
                assert(rows[i].key() != rows[j].key());
            }
        }
        assert(rows[i] == as_row(es[i]));
        lemma_said_once(es, k, i);
    } else {
        assert forall|j: int| 0 <= j < es.len() implies ((#[trigger] es[j]).name, es[j].net_id)
            != k by {
            assert(rows[j].key() == (es[j].name, es[j].net_id));
        }
        lemma_unsaid(es, k);
    }
}

proof fn lemma_unsaid(es: Seq<ServiceSyncEntryView>, k: Key)
    requires
        forall|j: int|
            0 <= j < es.len() ==> ((#[trigger] es[j]).name, es[j].net_id) != k,
    ensures
        said(es, k) is None,
    decreases es.len(),
{
    if es.len() > 0 {
        assert((es[es.len() - 1].name, es[es.len() - 1].net_id) != k);
        let init = es.drop_last();
        assert forall|j: int| 0 <= j < init.len() implies ((#[trigger] init[j]).name,
            init[j].net_id) != k by {
            assert(init[j] == es[j]);
        }
        lemma_unsaid(init, k);
    }
}

proof fn lemma_said_once(es: Seq<ServiceSyncEntryView>, k: Key, i: int)
    requires
        0 <= i < es.len(),
        (es[i].name, es[i].net_id) == k,
        !too_long(k.0),
        forall|j: int|
            0 <= j < es.len() && j != i ==> ((#[trigger] es[j]).name, es[j].net_id) != k,
    ensures
        said(es, k) == Some((es[i].lamport, es[i].tombstone)),
    decreases es.len(),
{
    let init = es.drop_last();
    if i == es.len() - 1 {
        assert forall|j: int| 0 <= j < init.len() implies ((#[trigger] init[j]).name,
            init[j].net_id) != k by {
            assert(init[j] == es[j]);
        }
        lemma_unsaid(init, k);
    } else {
        assert(init[i] == es[i]);
        assert forall|j: int| 0 <= j < init.len() && j != i implies ((#[trigger] init[j]).name,
            init[j].net_id) != k by {
            assert(init[j] == es[j]);
        }
        lemma_said_once(init, k, i);
        assert((es[es.len() - 1].name, es[es.len() - 1].net_id) != k);
    }
}

/// Two nodes that answer each other's sync know the same of every key, unless
/// they knew different things under one clock.
pub proof fn law_sync_converges(
    a: ServiceGossipView,
    b: ServiceGossipView,
    from_a: Seq<ServiceSyncEntryView>,
    from_b: Seq<ServiceSyncEntryView>,
    now: Duration,
    k: Key,
)
    requires
        answers_sync(a.dir, from_a),
        answers_sync(b.dir, from_b),
        !too_long(k.0),
        known(a.dir, k) matches Some(x) ==> (known(b.dir, k) matches Some(y) ==> (x.0 == y.0 ==> x
            == y)),
    ensures
        known(a.hears_all(from_b, now).dir, k) == known(b.hears_all(from_a, now).dir, k),
{
    law_sync_merges(a, from_b, now, k);
    law_sync_merges(b, from_a, now, k);
    law_answer_complete(a.dir, from_a, k);
    law_answer_complete(b.dir, from_b, k);
}

} // verus!

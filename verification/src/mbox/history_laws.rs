//! What holds of the service directory after any number of steps.
use crate::ident::NetId;
use crate::mbox::directory::{is_lookup, too_long, DirectoryView, Info, Key, TaskId};
use crate::mbox::directory_laws::{agree, known, newest, served, told, News};
use crate::time::Duration;
use vstd::prelude::*;

verus! {

/// The directory after many pieces of news, one after the other, each at its
/// own time.
pub open spec fn told_all(
    d: DirectoryView,
    ns: Seq<News>,
    at: spec_fn(int) -> Duration,
) -> DirectoryView
    decreases ns.len(),
{
    if ns.len() == 0 {
        d
    } else {
        told(told_all(d, ns.drop_last(), at), ns.last(), at(ns.len() - 1))
    }
}

/// Whether a piece of news is about the key; one with too long a name is about
/// nothing.
pub open spec fn about(n: News, k: Key) -> bool {
    (n.name, n.net_id) == k && !too_long(n.name)
}

/// Whether the piece of news at `i` is the newest about the key.
pub open spec fn decides(ns: Seq<News>, k: Key, i: int) -> bool {
    &&& 0 <= i < ns.len()
    &&& about(ns[i], k)
    &&& forall|j: int|
        0 <= j < ns.len() && about(#[trigger] ns[j], k) ==> ns[j].lamport <= ns[i].lamport
}

/// Whether news about one mailbox under one name never shares a clock.
pub open spec fn one_stamp_each(ns: Seq<News>) -> bool {
    forall|i: int, j: int|
        0 <= i < ns.len() && 0 <= j < ns.len() && (#[trigger] ns[i]).name == (
        #[trigger] ns[j]).name && ns[i].net_id == ns[j].net_id && ns[i].lamport == ns[j].lamport
            ==> ns[i] == ns[j]
}

/// What the news says of a key: the first piece with the highest clock.
pub open spec fn news_of(ns: Seq<News>, k: Key) -> Option<(u64, bool)>
    decreases ns.len(),
{
    if ns.len() == 0 {
        None
    } else {
        let n = ns.last();
        let rest = news_of(ns.drop_last(), k);
        if about(n, k) {
            newest(rest, Some((n.lamport, n.tombstone)))
        } else {
            rest
        }
    }
}

proof fn lemma_told_all(d: DirectoryView, ns: Seq<News>, at: spec_fn(int) -> Duration, k: Key)
    ensures
        known(told_all(d, ns, at), k) == newest(known(d, k), news_of(ns, k)),
    decreases ns.len(),
{
    if ns.len() > 0 {
        lemma_told_all(d, ns.drop_last(), at, k);
    }
}

proof fn lemma_news_of(ns: Seq<News>, k: Key)
    ensures
        match news_of(ns, k) {
            None => forall|i: int| 0 <= i < ns.len() ==> !about(#[trigger] ns[i], k),
            Some(x) => exists|i: int| #[trigger]
                decides(ns, k, i) && x == (ns[i].lamport, ns[i].tombstone),
        },
    decreases ns.len(),
{
    if ns.len() > 0 {
        let rest = ns.drop_last();
        let n = ns.last();
        let end = ns.len() - 1;
        lemma_news_of(rest, k);
        match news_of(rest, k) {
            None => {
                assert forall|i: int| 0 <= i < end implies !about(#[trigger] ns[i], k) by {
                    assert(rest[i] == ns[i]);
                }
                if about(n, k) {
                    assert(decides(ns, k, end));
                }
            },
            Some(x) => {
                let i = choose|i: int| #[trigger]
                    decides(rest, k, i) && x == (rest[i].lamport, rest[i].tombstone);
                assert forall|j: int| 0 <= j < end && about(#[trigger] ns[j], k) implies ns[j].lamport
                    <= ns[i].lamport by {
                    assert(rest[j] == ns[j]);
                }
                if about(n, k) && n.lamport > x.0 {
                    assert(decides(ns, k, end));
                } else {
                    assert(decides(ns, k, i));
                }
            },
        }
    }
}

proof fn lemma_same_news(a: Seq<News>, b: Seq<News>, k: Key)
    requires
        one_stamp_each(a),
        forall|i: int| 0 <= i < a.len() ==> b.contains(#[trigger] a[i]),
        forall|j: int| 0 <= j < b.len() ==> a.contains(#[trigger] b[j]),
    ensures
        news_of(a, k) == news_of(b, k),
{
    lemma_news_of(a, k);
    lemma_news_of(b, k);
    match (news_of(a, k), news_of(b, k)) {
        (Some(x), Some(y)) => {
            let i = choose|i: int| #[trigger]
                decides(a, k, i) && x == (a[i].lamport, a[i].tombstone);
            let j = choose|j: int| #[trigger]
                decides(b, k, j) && y == (b[j].lamport, b[j].tombstone);
            assert(b.contains(a[i]) && a.contains(b[j]));
            let i1 = choose|i1: int| 0 <= i1 < b.len() && b[i1] == a[i];
            let j1 = choose|j1: int| 0 <= j1 < a.len() && a[j1] == b[j];
            assert(about(b[i1], k) && about(a[j1], k));
            assert(a[i] == a[j1]);
        },
        (Some(x), None) => {
            let i = choose|i: int| #[trigger]
                decides(a, k, i) && x == (a[i].lamport, a[i].tombstone);
            assert(b.contains(a[i]));
            let i1 = choose|i1: int| 0 <= i1 < b.len() && b[i1] == a[i];
            assert(about(b[i1], k));
        },
        (None, Some(y)) => {
            let j = choose|j: int| #[trigger]
                decides(b, k, j) && y == (b[j].lamport, b[j].tombstone);
            assert(a.contains(b[j]));
            let j1 = choose|j1: int| 0 <= j1 < a.len() && a[j1] == b[j];
            assert(about(a[j1], k));
        },
        (None, None) => {},
    }
}

/// Convergence: any number of ads and forgets give one directory, in whatever
/// order and whenever they come, as long as no two of them about one mailbox
/// under one name share a clock. Every lookup then finds the same.
pub proof fn law_any_order(
    d: DirectoryView,
    a: Seq<News>,
    b: Seq<News>,
    at_a: spec_fn(int) -> Duration,
    at_b: spec_fn(int) -> Duration,
)
    requires
        a.to_multiset() == b.to_multiset(),
        one_stamp_each(a),
    ensures
        agree(told_all(d, a, at_a), told_all(d, b, at_b)),
        forall|name: Seq<char>, ids: Seq<NetId>|
            #[trigger] is_lookup(told_all(d, a, at_a), name, ids) <==> is_lookup(
                told_all(d, b, at_b),
                name,
                ids,
            ),
{
    broadcast use vstd::seq_lib::group_to_multiset_ensures;

    assert forall|i: int| 0 <= i < a.len() implies b.contains(#[trigger] a[i]) by {
        assert(a.contains(a[i]));
        assert(a.to_multiset().count(a[i]) > 0);
        assert(b.to_multiset().count(a[i]) > 0);
    }
    assert forall|j: int| 0 <= j < b.len() implies a.contains(#[trigger] b[j]) by {
        assert(b.contains(b[j]));
        assert(b.to_multiset().count(b[j]) > 0);
        assert(a.to_multiset().count(b[j]) > 0);
    }
    let x = told_all(d, a, at_a);
    let y = told_all(d, b, at_b);
    assert forall|k: Key| #[trigger] known(x, k) == known(y, k) by {
        lemma_told_all(d, a, at_a, k);
        lemma_told_all(d, b, at_b, k);
        lemma_same_news(a, b, k);
    }
    assert forall|name: Seq<char>, ids: Seq<NetId>|
        #[trigger] is_lookup(x, name, ids) <==> is_lookup(y, name, ids) by {
        assert forall|id: NetId| x.live(name, id) == y.live(name, id) by {
            assert(known(x, (name, id)) == known(y, (name, id)));
        }
    }
}

/// Last writer wins: of a directory that was empty, a mailbox is live under a
/// name exactly when the newest news about it was an ad. What is said of other
/// mailboxes under the same name makes no difference.
pub proof fn law_newest_decides(
    d: DirectoryView,
    ns: Seq<News>,
    at: spec_fn(int) -> Duration,
    name: Seq<char>,
    id: NetId,
)
    requires
        d.entries == Map::<Key, Info>::empty(),
        one_stamp_each(ns),
    ensures
        told_all(d, ns, at).live(name, id) <==> exists|i: int| #[trigger]
            decides(ns, (name, id), i) && !ns[i].tombstone,
{
    let k = (name, id);
    lemma_told_all(d, ns, at, k);
    lemma_news_of(ns, k);
    if let Some(x) = news_of(ns, k) {
        let i = choose|i: int| #[trigger]
            decides(ns, k, i) && x == (ns[i].lamport, ns[i].tombstone);
        assert forall|j: int| #[trigger] decides(ns, k, j) implies ns[j] == ns[i] by {
            assert(about(ns[i], k) && about(ns[j], k));
        }
    } else {
        assert forall|j: int| !(#[trigger] decides(ns, k, j)) by {}
    }
}

/// One thing that happens to a directory.
pub enum Step {
    Heard { news: News, now: Duration },
    Declared { task_id: TaskId, name: Seq<char>, net_id: NetId, now: Duration },
    Forgotten { task_id: TaskId, name: Seq<char>, net_id: NetId, now: Duration },
    Retracted { task_id: TaskId, name: Seq<char>, net_id: NetId, now: Duration },
    Bumped,
    Collected { now: Duration },
    LookedUp { name: Seq<char> },
}

/// The directory after a step.
pub open spec fn stepped(d: DirectoryView, s: Step) -> DirectoryView {
    match s {
        Step::Heard { news, now } => told(d, news, now),
        Step::Declared { task_id, name, net_id, now } => if too_long(name) {
            d
        } else {
            d.declared(task_id, name, net_id, now)
        },
        Step::Forgotten { task_id, name, net_id, now } => if too_long(name) {
            d
        } else {
            d.forgotten(task_id, name, net_id, now)
        },
        Step::Retracted { task_id, name, net_id, now } => if too_long(name) {
            d
        } else {
            d.retracted(task_id, name, net_id, now)
        },
        Step::Bumped => DirectoryView { clock: (d.clock + 1) as u64, ..d },
        Step::Collected { now } => d.collected(now),
        Step::LookedUp { name } => served(d, name),
    }
}

/// The stamp that a step gives out, if it is an event of the own node.
pub open spec fn stamp_of(d: DirectoryView, s: Step) -> Option<u64> {
    match s {
        Step::Declared { name, .. } => if too_long(name) {
            None
        } else {
            Some((d.clock + 1) as u64)
        },
        Step::Forgotten { name, .. } => if too_long(name) {
            None
        } else {
            Some((d.clock + 1) as u64)
        },
        Step::Retracted { name, .. } => if too_long(name) {
            None
        } else {
            Some((d.clock + 1) as u64)
        },
        Step::Bumped => Some((d.clock + 1) as u64),
        _ => None,
    }
}

/// The clock of another node that a step shows, whether or not its news is
/// accepted.
pub open spec fn seen_in(s: Step) -> Option<u64> {
    match s {
        Step::Heard { news, .. } => if too_long(news.name) {
            None
        } else {
            Some(news.lamport)
        },
        _ => None,
    }
}

/// The directory after many steps.
pub open spec fn after(d: DirectoryView, steps: Seq<Step>) -> DirectoryView
    decreases steps.len(),
{
    if steps.len() == 0 {
        d
    } else {
        stepped(after(d, steps.drop_last()), steps.last())
    }
}

/// Whether the clock leaves room for the stamp of every step that gives one out.
pub open spec fn has_stamps(d: DirectoryView, steps: Seq<Step>) -> bool
    decreases steps.len(),
{
    if steps.len() == 0 {
        true
    } else {
        let rest = steps.drop_last();
        &&& has_stamps(d, rest)
        &&& stamp_of(after(d, rest), steps.last()) is Some ==> after(d, rest).clock < u64::MAX
    }
}

proof fn lemma_after(d: DirectoryView, steps: Seq<Step>, i: int)
    requires
        has_stamps(d, steps),
        0 <= i < steps.len(),
    ensures
        seen_in(steps[i]) matches Some(l) ==> after(d, steps).clock > l || l == u64::MAX == after(
            d,
            steps,
        ).clock,
        stamp_of(after(d, steps.take(i)), steps[i]) matches Some(l) ==> after(d, steps).clock >= l,
    decreases steps.len(),
{
    let rest = steps.drop_last();
    let end = steps.len() - 1;
    if i < end {
        lemma_after(d, rest, i);
        assert(rest.take(i) =~= steps.take(i));
        assert(rest[i] == steps[i]);
    } else {
        assert(steps.take(i) =~= rest);
    }
}

/// The next stamp is later than every clock that was seen and every stamp that
/// was given out before, however many steps lie in between, and whether or not
/// the news was accepted.
pub proof fn law_stamp_is_latest(d: DirectoryView, steps: Seq<Step>, i: int)
    requires
        has_stamps(d, steps),
        after(d, steps).clock < u64::MAX,
        0 <= i < steps.len(),
    ensures
        stamp_of(after(d, steps), Step::Bumped) matches Some(next) && {
            &&& seen_in(steps[i]) matches Some(l) ==> next > l
            &&& stamp_of(after(d, steps.take(i)), steps[i]) matches Some(l) ==> next > l
        },
{
    lemma_after(d, steps, i);
}

} // verus!

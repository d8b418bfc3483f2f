//! Local mailboxes. A mailbox is a bounded channel; the registry finds the
//! sending half by id. Whoever drops the receiving half evicts the id.
use crate::ident::MboxId;
use crate::mbox::gc::Tracker;
use crate::mbox::gossip::TaskContext;
use std::collections::BTreeMap;
use tokio::sync::mpsc::{Receiver, Sender};
use vstd::prelude::*;

verus! {

broadcast use vstd::std_specs::btree::group_btree_axioms;

/// Bounded capacity of every mailbox. Sending is fire-and-forget: full
/// mailboxes drop rather than block the sender.
pub const MBOX_CAPACITY: usize = 1024;

/// The sending half of a channel, `tokio::sync::mpsc::Sender`.
#[verifier::external_type_specification]
#[verifier::external_body]
#[verifier::reject_recursive_types(T)]
pub struct ExSender<T>(tokio::sync::mpsc::Sender<T>);

/// The receiving half of a channel, `tokio::sync::mpsc::Receiver`.
#[verifier::external_type_specification]
#[verifier::external_body]
#[verifier::reject_recursive_types(T)]
pub struct ExReceiver<T>(tokio::sync::mpsc::Receiver<T>);

/// How many messages the channel behind a sending half holds at most.
pub uninterp spec fn channel_bound(tx: Sender<Vec<u8>>) -> nat;

/// Which channel a sending half sends on.
pub uninterp spec fn sends_on(tx: Sender<Vec<u8>>) -> int;

/// Which channel a receiving half receives from.
pub uninterp spec fn receives_from(rx: Receiver<Vec<u8>>) -> int;

/// The messages that the channel was offered through this sending half, in
/// order, each with whether the channel took it.
pub uninterp spec fn offers(tx: Sender<Vec<u8>>) -> Seq<(Seq<u8>, bool)>;

/// What each poll of this receiving half found, in order: a message or nothing.
pub uninterp spec fn polls(rx: Receiver<Vec<u8>>) -> Seq<Option<Seq<u8>>>;

/// What a poll found, by the message's bytes.
pub open spec fn found(m: Option<Vec<u8>>) -> Option<Seq<u8>> {
    match m {
        Some(p) => Some(p@),
        None => None,
    }
}

/// `tokio::sync::mpsc::channel`: the two halves of a fresh channel for at most
/// `capacity` messages, through which nothing has gone yet. It panics on zero
/// and on more than `usize::MAX >> 3`.
#[verifier::external_body]
fn channel(capacity: usize) -> (r: (Sender<Vec<u8>>, Receiver<Vec<u8>>))
    requires
        0 < capacity <= 0x1fff_ffff,
    ensures
        channel_bound(r.0) == capacity,
        sends_on(r.0) == receives_from(r.1),
        offers(r.0) == Seq::<(Seq<u8>, bool)>::empty(),
        polls(r.1) == Seq::<Option<Seq<u8>>>::empty(),
{
    tokio::sync::mpsc::channel::<Vec<u8>>(capacity)
}

/// `tokio::sync::mpsc::Sender::try_send`: offers the channel the message, and
/// says whether the channel took it. It does not where it is full or its
/// receiver is gone; that depends on what the other half did meanwhile, so
/// nothing is said of when it does.
#[verifier::external_body]
fn try_send(tx: &mut Sender<Vec<u8>>, payload: Vec<u8>) -> (sent: bool)
    ensures
        channel_bound(*final(tx)) == channel_bound(*old(tx)),
        sends_on(*final(tx)) == sends_on(*old(tx)),
        offers(*final(tx)) == offers(*old(tx)).push((payload@, sent)),
{
    tx.try_send(payload).is_ok()
}

/// `tokio::sync::mpsc::Receiver::try_recv`: polls the channel and says what the
/// poll found, the next message or nothing. Whether a message is there, and
/// which, depends on what was sent meanwhile, so nothing is said of that.
#[verifier::external_body]
fn try_recv(rx: &mut Receiver<Vec<u8>>) -> (m: Option<Vec<u8>>)
    ensures
        receives_from(*final(rx)) == receives_from(*old(rx)),
        polls(*final(rx)) == polls(*old(rx)).push(found(m)),
{
    rx.try_recv().ok()
}

/// The mailboxes of one node. Id 0 is reserved for the node itself.
pub struct Registry {
    pub next_id: u64,
    pub slots: BTreeMap<u64, Sender<Vec<u8>>>,
}

impl Registry {
    /// Ids given out are below the next one, and none is zero.
    pub open spec fn wf(&self) -> bool {
        &&& self.next_id >= 1
        &&& !self.slots@.contains_key(0)
        &&& forall|id: u64| #[trigger] self.slots@.contains_key(id) ==> id < self.next_id
    }

    pub fn new() -> (r: Self)
        ensures
            r.wf(),
            r.next_id == 1,
            r.slots@ == Map::<u64, Sender<Vec<u8>>>::empty(),
    {
        Registry { next_id: 1, slots: BTreeMap::new() }
    }

    /// How many mailboxes there are.
    pub fn live_count(&self) -> (n: usize)
        ensures
            n == self.slots@.dom().len(),
    {
        self.slots.len()
    }
}

/// Factory for fresh mailboxes.
pub struct Mailbox;

/// Receive half of a mailbox.
pub struct MailboxRecv {
    pub id: MboxId,
    pub rx: Receiver<Vec<u8>>,
}

impl MailboxRecv {
    pub fn id(&self) -> (id: MboxId)
        ensures
            id == self.id,
    {
        self.id
    }

    /// Non-blocking poll. `None` if the channel is empty (or closed).
    pub fn try_recv(&mut self) -> (m: Option<Vec<u8>>)
        ensures
            final(self).id == old(self).id,
            receives_from(final(self).rx) == receives_from(old(self).rx),
            polls(final(self).rx) == polls(old(self).rx).push(found(m)),
    {
        try_recv(&mut self.rx)
    }
}

impl Mailbox {
    /// Allocate a fresh id and a channel under it. Ids increase and are never
    /// `0`. While a task is current the mailbox is recorded as its own, so that
    /// it goes when the task exits; without one no task owns it.
    pub fn new(registry: &mut Registry, tracker: &mut Tracker, current: Option<TaskContext>) -> (r: (
        MboxId,
        MailboxRecv,
    ))
        requires
            old(registry).wf(),
            old(registry).next_id < u64::MAX,
        ensures
            final(registry).wf(),
            r.0.0 == old(registry).next_id,
            r.0.0 != 0,
            !old(registry).slots@.contains_key(r.0.0),
            r.1.id == r.0,
            final(registry).next_id == old(registry).next_id + 1,
            final(registry).slots@.contains_key(r.0.0),
            channel_bound(final(registry).slots@[r.0.0]) == MBOX_CAPACITY,
            sends_on(final(registry).slots@[r.0.0]) == receives_from(r.1.rx),
            offers(final(registry).slots@[r.0.0]) == Seq::<(Seq<u8>, bool)>::empty(),
            polls(r.1.rx) == Seq::<Option<Seq<u8>>>::empty(),
            final(registry).slots@.remove(r.0.0) == old(registry).slots@,
            match current {
                Some(c) => {
                    &&& final(tracker).owned(c.task_id) == old(tracker).owned(c.task_id).push(r.0)
                    &&& forall|other: u64|
                        other != c.task_id ==> #[trigger] final(tracker).owned(other) == old(
                            tracker,
                        ).owned(other)
                },
                None => *final(tracker) == *old(tracker),
            },
    {
        let (tx, rx) = channel(MBOX_CAPACITY);
        let id: u64 = registry.next_id;
        registry.next_id = id + 1;
        registry.slots.insert(id, tx);
        assert(registry.slots@.remove(id) =~= old(registry).slots@);
        if let Some(c) = current {
            tracker.push_owned(c.task_id, MboxId(id));
        }
        (MboxId(id), MailboxRecv { id: MboxId(id), rx })
    }
}

/// Look up the send side of `mbox`. `None` if it was evicted.
pub fn lookup(registry: &Registry, mbox: MboxId) -> (r: Option<&Sender<Vec<u8>>>)
    ensures
        match r {
            Some(tx) => registry.slots@.contains_key(mbox.0) && *tx == registry.slots@[mbox.0],
            None => !registry.slots@.contains_key(mbox.0),
        },
{
    registry.slots.get(&mbox.0)
}

/// Evicts `mbox`: nothing can be delivered to it any more. For when its
/// receiver is dropped, and for when its task exits.
pub fn evict_for_gc(registry: &mut Registry, mbox: MboxId)
    ensures
        final(registry).slots@ == old(registry).slots@.remove(mbox.0),
        final(registry).next_id == old(registry).next_id,
        old(registry).wf() ==> final(registry).wf(),
{
    registry.slots.remove(&mbox.0);
}

/// Whether the mailboxes are those after a message was offered to the one with
/// the given id, if there is one: this offer is the last one made to it, with
/// whether it took the message, and no other mailbox changed.
pub open spec fn offered(
    before: Map<u64, Sender<Vec<u8>>>,
    after: Map<u64, Sender<Vec<u8>>>,
    id: u64,
    payload: Seq<u8>,
    sent: bool,
) -> bool {
    if before.contains_key(id) {
        &&& after.contains_key(id)
        &&& after.remove(id) == before.remove(id)
        &&& channel_bound(after[id]) == channel_bound(before[id])
        &&& sends_on(after[id]) == sends_on(before[id])
        &&& offers(after[id]) == offers(before[id]).push((payload, sent))
    } else {
        !sent && after == before
    }
}

/// Fire-and-forget local delivery. Full or missing mailboxes drop silently:
/// there is no end-to-end ack. Returns whether the mailbox took the message.
pub fn try_deliver_local(registry: &mut Registry, mbox: MboxId, payload: Vec<u8>) -> (sent: bool)
    ensures
        offered(old(registry).slots@, final(registry).slots@, mbox.0, payload@, sent),
        final(registry).next_id == old(registry).next_id,
        old(registry).wf() ==> final(registry).wf(),
{
    let ghost before = registry.slots@;
    match registry.slots.remove(&mbox.0) {
        Some(tx) => {
            let mut tx = tx;
            let sent = try_send(&mut tx, payload);
            registry.slots.insert(mbox.0, tx);
            assert(registry.slots@.remove(mbox.0) =~= before.remove(mbox.0));
            assert forall|id: u64| #[trigger] registry.slots@.contains_key(id) implies
                before.contains_key(id) by {
                if id != mbox.0 {
                    assert(registry.slots@.remove(mbox.0).contains_key(id));
                }
            }
            sent
        },
        None => {
            assert(registry.slots@ =~= before);
            false
        },
    }
}

/// Delivery to one mailbox touches no other, and neither makes nor removes one.
pub proof fn law_others_untouched(
    before: Map<u64, Sender<Vec<u8>>>,
    after: Map<u64, Sender<Vec<u8>>>,
    id: u64,
    payload: Seq<u8>,
    sent: bool,
    other: u64,
)
    requires
        offered(before, after, id, payload, sent),
    ensures
        after.contains_key(other) == before.contains_key(other),
        other != id && before.contains_key(other) ==> after[other] == before[other],
{
    if before.contains_key(id) && other != id {
        assert(after.remove(id).contains_key(other) == before.remove(id).contains_key(other));
        if before.contains_key(other) {
            assert(after.remove(id)[other] == before.remove(id)[other]);
        }
    }
}

/// What a poll of one mailbox found.
pub enum Polled {
    /// A message.
    Message(Vec<u8>),
    /// No sender is left.
    Closed,
    /// Nothing yet.
    Pending,
}

/// What waiting for several mailboxes comes to.
pub enum Selected {
    /// The mailbox at the index has a message.
    Ready(usize, Vec<u8>),
    /// No mailbox will ever have one.
    AllClosed,
    /// Wait on.
    Wait,
}

/// One pass over several mailboxes, lowest index first.
pub struct Selecting {
    /// How many were polled.
    pub polled: usize,
    /// Whether all of them were closed.
    pub all_closed: bool,
}

impl Selecting {
    pub fn new() -> (s: Self)
        ensures
            s.polled == 0,
            s.all_closed,
    {
        Selecting { polled: 0, all_closed: true }
    }

    /// Takes in what the next mailbox's poll found. A message ends the pass:
    /// the mailboxes after it are not polled, so that ties resolve to the
    /// lowest index.
    pub fn step(&mut self, p: Polled) -> (r: Option<Selected>)
        requires
            old(self).polled < usize::MAX,
        ensures
            final(self).polled == old(self).polled + 1,
            match p {
                Polled::Message(m) => r == Some(Selected::Ready(old(self).polled, m)),
                _ => r is None,
            },
            final(self).all_closed == (old(self).all_closed && p !is Pending),
    {
        let at: usize = self.polled;
        self.polled = at + 1;
        match p {
            Polled::Message(m) => Some(Selected::Ready(at, m)),
            Polled::Closed => None,
            Polled::Pending => {
                self.all_closed = false;
                None
            },
        }
    }

    /// What the pass comes to when no mailbox had a message: nothing will come
    /// if all were closed, which none at all are too.
    pub fn finish(&self) -> (r: Selected)
        ensures
            r == if self.all_closed {
                Selected::AllClosed
            } else {
                Selected::Wait
            },
    {
        if self.all_closed {
            Selected::AllClosed
        } else {
            Selected::Wait
        }
    }
}

} // verus!

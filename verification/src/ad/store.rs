//! `AdStore`: central read-mostly map of `NodeAd`s, plus the stream of
//! `AdUpdate` events that its changes produce.
//!
//! Conflict resolution is last-writer-wins on the `(generation, boot_time)`
//! tuple: `generation` is the primary key, `boot_time` breaks ties so a daemon
//! restart cannot reset its ad to an older state.
//!
//! Single-writer-per-key: each peer's slot is only written by gossip, the
//! own-node slot only by discovery. The store does not enforce that discipline;
//! it just makes last-writer-wins correct given the discipline.
use crate::ad::schema::{AdUpdate, AdUpdateView, NodeAd, NodeAdView};
use crate::ident::NodeId;
use crate::time::Duration;
use std::collections::BTreeMap;
use vstd::prelude::*;
use vstd::std_specs::btree::increasing_seq;
use vstd::std_specs::cmp::OrdSpec;
use vstd::std_specs::iter::IteratorSpec;

verus! {

broadcast use vstd::std_specs::btree::group_btree_axioms;

/// Result of a single `upsert` call.
#[derive(Copy, Clone, Debug, PartialEq, Eq, Structural)]
pub enum UpsertOutcome {
    Inserted,
    Updated,
    /// Same `(generation, boot_time)` as existing: refreshed quietly.
    Unchanged,
    /// New ad has older `(generation, boot_time)` than existing: discarded.
    Stale,
    /// Caller tried to upsert into the own-node slot via `upsert` (must use
    /// `update_self` instead).
    IgnoredSelf,
}

/// The ads a node knows of: its own and its peers'.
pub struct AdStore {
    pub own: NodeAd,
    /// Peer ads by node.
    pub peers: BTreeMap<u128, NodeAd>,
    /// When a peer that went away is to be evicted.
    pub pending: BTreeMap<u128, u128>,
    /// What happened and was not handed to subscribers yet, oldest first.
    pub events: Vec<AdUpdate>,
}

/// What an [`AdStore`] holds.
pub struct AdStoreView {
    pub own: NodeAdView,
    pub peers: Map<u128, NodeAdView>,
    pub pending: Map<u128, u128>,
    pub events: Seq<AdUpdateView>,
}

/// What a map of ads says.
pub open spec fn ads_view(m: Map<u128, NodeAd>) -> Map<u128, NodeAdView> {
    m.map_values(|ad: NodeAd| ad@)
}

/// What a list of ads says.
pub open spec fn ads_list(v: Seq<NodeAd>) -> Seq<NodeAdView> {
    Seq::new(v.len(), |i: int| v[i]@)
}

/// What a list of events says.
pub open spec fn events_view(v: Seq<AdUpdate>) -> Seq<AdUpdateView> {
    Seq::new(v.len(), |i: int| v[i]@)
}

impl View for AdStore {
    type V = AdStoreView;

    open spec fn view(&self) -> AdStoreView {
        AdStoreView {
            own: self.own@,
            peers: ads_view(self.peers@),
            pending: self.pending@,
            events: events_view(self.events@),
        }
    }
}

/// Whether `a` is newer than `b`: a higher generation, or the same generation
/// from a later boot.
pub open spec fn newer(a: NodeAdView, b: NodeAdView) -> bool {
    a.generation > b.generation || (a.generation == b.generation && a.boot_time > b.boot_time)
}

/// Whether two ads have the same version.
pub open spec fn same_version(a: NodeAdView, b: NodeAdView) -> bool {
    a.generation == b.generation && a.boot_time == b.boot_time
}

impl AdStoreView {
    /// The ads are filed under their nodes, the own one not among the peers.
    pub open spec fn wf(self) -> bool {
        &&& forall|k: u128| #[trigger]
            self.peers.contains_key(k) ==> self.peers[k].node_id == NodeId(k)
        &&& !self.peers.contains_key(self.own.node_id.0)
        &&& !self.pending.contains_key(self.own.node_id.0)
        &&& self.peers.dom().finite()
    }

    pub open spec fn with_event(self, e: AdUpdateView) -> AdStoreView {
        AdStoreView { events: self.events.push(e), ..self }
    }

    /// What becomes of an ad that arrives.
    pub open spec fn upsert_outcome(self, ad: NodeAdView) -> UpsertOutcome {
        let k = ad.node_id.0;
        if ad.node_id == self.own.node_id {
            UpsertOutcome::IgnoredSelf
        } else if !self.peers.contains_key(k) {
            UpsertOutcome::Inserted
        } else if newer(ad, self.peers[k]) {
            UpsertOutcome::Updated
        } else if same_version(ad, self.peers[k]) {
            UpsertOutcome::Unchanged
        } else {
            UpsertOutcome::Stale
        }
    }

    /// The store after an ad arrived: the ad is kept unless it is stale or the
    /// own, its node's eviction is off, and a new or newer ad is an event.
    pub open spec fn upserted(self, ad: NodeAdView) -> AdStoreView {
        let k = ad.node_id.0;
        let kept = AdStoreView {
            peers: self.peers.insert(k, ad),
            pending: self.pending.remove(k),
            ..self
        };
        match self.upsert_outcome(ad) {
            UpsertOutcome::IgnoredSelf => self,
            UpsertOutcome::Inserted => kept.with_event(AdUpdateView::Inserted(ad)),
            UpsertOutcome::Updated => kept.with_event(AdUpdateView::Updated(ad)),
            UpsertOutcome::Unchanged => kept,
            UpsertOutcome::Stale => AdStoreView { pending: self.pending.remove(k), ..self },
        }
    }

    /// The store after the own ad was replaced: an event if the generation is
    /// another.
    pub open spec fn self_updated(self, ad: NodeAdView) -> AdStoreView {
        let next = AdStoreView { own: ad, ..self };
        if ad.generation == self.own.generation {
            next
        } else {
            next.with_event(AdUpdateView::Updated(ad))
        }
    }

    /// The store after a peer was evicted: an event if its ad was there.
    pub open spec fn evicted(self, peer: NodeId) -> AdStoreView {
        let next = AdStoreView {
            peers: self.peers.remove(peer.0),
            pending: self.pending.remove(peer.0),
            ..self
        };
        if self.peers.contains_key(peer.0) {
            next.with_event(AdUpdateView::Removed(peer))
        } else {
            next
        }
    }

    /// The store after a peer was given `ttl` from `now` on to come back. The
    /// own node is never evicted.
    pub open spec fn marked_stale(self, peer: NodeId, ttl: Duration, now: Duration) -> AdStoreView {
        if peer == self.own.node_id {
            self
        } else {
            let due = if now.nanos + ttl.nanos <= u128::MAX {
                (now.nanos + ttl.nanos) as u128
            } else {
                u128::MAX
            };
            AdStoreView { pending: self.pending.insert(peer.0, due), ..self }
        }
    }

    /// The store after a look at a peer's deadline: the peer is evicted if one
    /// is set and has come.
    pub open spec fn expired(self, peer: NodeId, now: Duration) -> AdStoreView {
        if self.pending.contains_key(peer.0) && self.pending[peer.0] <= now.nanos {
            self.evicted(peer)
        } else {
            self
        }
    }
}

impl AdStore {
    pub fn new(self_ad: NodeAd) -> (s: Self)
        ensures
            s@.own == self_ad@,
            s@.peers == Map::<u128, NodeAdView>::empty(),
            s@.pending == Map::<u128, u128>::empty(),
            s@.events == Seq::<AdUpdateView>::empty(),
            s@.wf(),
    {
        let s = AdStore {
            own: self_ad,
            peers: BTreeMap::new(),
            pending: BTreeMap::new(),
            events: Vec::new(),
        };
        assert(s@.peers =~= Map::empty());
        assert(s@.events =~= Seq::empty());
        s
    }

    pub fn self_ad(&self) -> (ad: NodeAd)
        ensures
            ad@ == self@.own,
    {
        self.own.clone()
    }

    fn push_event(&mut self, e: AdUpdate)
        ensures
            final(self)@ == old(self)@.with_event(e@),
    {
        self.events.push(e);
        assert(self@.events =~= old(self)@.events.push(e@));
    }

    fn put_peer(&mut self, ad: NodeAd)
        ensures
            final(self)@ == (AdStoreView {
                peers: old(self)@.peers.insert(ad@.node_id.0, ad@),
                ..old(self)@
            }),
    {
        let ghost was = self.peers@;
        let k: u128 = ad.node_id.0;
        self.peers.insert(k, ad);
        assert(ads_view(self.peers@) =~= ads_view(was).insert(k, ad@));
    }

    /// Replace the own-node ad. Emits `Updated` only when the generation
    /// actually changes: re-publishing the same generation is a no-op for
    /// watchers.
    pub fn update_self(&mut self, ad: NodeAd)
        requires
            ad@.node_id == old(self)@.own.node_id,
        ensures
            final(self)@ == old(self)@.self_updated(ad@),
            old(self)@.wf() ==> final(self)@.wf(),
    {
        if ad.generation == self.own.generation {
            self.own = ad;
        } else {
            self.own = ad.clone();
            self.push_event(AdUpdate::Updated(ad));
        }
    }

    /// Insert / update a peer ad. Last-writer-wins on `(generation,
    /// boot_time)`: older entries are dropped. Cancels any pending eviction of
    /// this peer.
    pub fn upsert(&mut self, ad: NodeAd) -> (r: UpsertOutcome)
        ensures
            r == old(self)@.upsert_outcome(ad@),
            final(self)@ == old(self)@.upserted(ad@),
            old(self)@.wf() ==> final(self)@.wf(),
    {
        let ghost before = self@;
        let k: u128 = ad.node_id.0;
        if k == self.own.node_id.0 {
            return UpsertOutcome::IgnoredSelf;
        }
        let outcome = match self.peers.get(&k) {
            None => UpsertOutcome::Inserted,
            Some(old_ad) => {
                assert(before.peers[k] == old_ad@);
                if ad.generation > old_ad.generation || (ad.generation == old_ad.generation
                    && ad.boot_time > old_ad.boot_time) {
                    UpsertOutcome::Updated
                } else if ad.generation == old_ad.generation && ad.boot_time == old_ad.boot_time {
                    UpsertOutcome::Unchanged
                } else {
                    UpsertOutcome::Stale
                }
            },
        };
        // The peer is alive: its eviction is off.
        self.pending.remove(&k);
        match outcome {
            UpsertOutcome::Inserted => {
                self.put_peer(ad.clone());
                self.push_event(AdUpdate::Inserted(ad));
            },
            UpsertOutcome::Updated => {
                self.put_peer(ad.clone());
                self.push_event(AdUpdate::Updated(ad));
            },
            UpsertOutcome::Unchanged => {
                self.put_peer(ad);
            },
            _ => {},
        }
        assert(self@ == before.upserted(ad@));
        outcome
    }

    pub fn peer(&self, id: NodeId) -> (r: Option<NodeAd>)
        ensures
            match r {
                Some(ad) => self@.peers.contains_key(id.0) && ad@ == self@.peers[id.0],
                None => !self@.peers.contains_key(id.0),
            },
    {
        match self.peers.get(&id.0) {
            Some(ad) => Some(ad.clone()),
            None => None,
        }
    }

    pub fn peer_count(&self) -> (n: usize)
        ensures
            n == self@.peers.dom().len(),
    {
        assert(self@.peers.dom() =~= self.peers@.dom());
        self.peers.len()
    }

    /// Returns own ad first, then peer ads sorted by NodeId bytes.
    pub fn all_ads(&self) -> (r: Vec<NodeAd>)
        requires
            self@.wf(),
        ensures
            r@.len() == 1 + self@.peers.dom().len(),
            ads_list(r@)[0] == self@.own,
            forall|i: int|
                1 <= i < r@.len() ==> self@.peers.contains_key(r@[i]@.node_id.0)
                    && #[trigger] r@[i]@ == self@.peers[r@[i]@.node_id.0],
            forall|i: int, j: int|
                1 <= i < j < r@.len() ==> #[trigger] r@[i]@.node_id.0 < #[trigger] r@[j]@.node_id.0,
            forall|k: u128|
                self@.peers.contains_key(k) ==> exists|i: int|
                    1 <= i < r@.len() && #[trigger] r@[i]@ == #[trigger] self@.peers[k],
    {
        let mut out: Vec<NodeAd> = Vec::new();
        out.push(self.own.clone());
        assert(self@.peers.dom() =~= self.peers@.dom());
        let items = self.peers.iter();
        let ghost kvs = items.remaining();
        let ghost keys = kvs.map_values(|kv: (&u128, &NodeAd)| *kv.0);
        assert(increasing_seq(keys));
        for kv in it: items
            invariant
                self@.wf(),
                it.seq() == kvs,
                out@.len() == 1 + it.index(),
                out@[0]@ == self@.own,
                forall|i: int| 0 <= i < it.index() ==> #[trigger] out@[i + 1]@ == kvs[i].1@,
        {
            out.push(kv.1.clone());
        }
        proof {
            assert forall|i: int| 1 <= i < out@.len() implies {
                &&& self@.peers.contains_key(*kvs[i - 1].0)
                &&& #[trigger] out@[i]@ == self@.peers[*kvs[i - 1].0]
                &&& out@[i]@.node_id.0 == *kvs[i - 1].0
            } by {
                assert(out@[i - 1 + 1]@ == kvs[i - 1].1@);
                assert(self.peers@.contains_key(*kvs[i - 1].0));
            }
            assert forall|i: int, j: int| 1 <= i < j < out@.len() implies #[trigger] out@[i]@.node_id.0
                < #[trigger] out@[j]@.node_id.0 by {
                assert(keys[i - 1].cmp_spec(&keys[j - 1]) is Less);
            }
            assert forall|k: u128| self@.peers.contains_key(k) implies exists|i: int|
                1 <= i < out@.len() && #[trigger] out@[i]@ == #[trigger] self@.peers[k] by {
                assert(self.peers@.contains_key(k));
                let i = choose|i: int| 0 <= i < kvs.len() && kvs[i] == (&k, &self.peers@[k]);
                assert(out@[i + 1]@ == self@.peers[k]);
            }
        }
        out
    }

    /// Schedule eviction of `peer` after `ttl`. If a fresh ad arrives for the
    /// peer before, the eviction is off. Replaces any earlier schedule for the
    /// same peer.
    pub fn mark_stale(&mut self, peer: NodeId, ttl: Duration, now: Duration)
        ensures
            final(self)@ == old(self)@.marked_stale(peer, ttl, now),
            old(self)@.wf() ==> final(self)@.wf(),
    {
        if peer.0 == self.own.node_id.0 {
            return;
        }
        let due: u128 = now.nanos.saturating_add(ttl.nanos);
        self.pending.insert(peer.0, due);
    }

    /// Evicts `peer` if its time has come.
    pub fn expire(&mut self, peer: NodeId, now: Duration)
        ensures
            final(self)@ == old(self)@.expired(peer, now),
            old(self)@.wf() ==> final(self)@.wf(),
    {
        let due = match self.pending.get(&peer.0) {
            Some(at) => *at <= now.nanos,
            None => false,
        };
        if due {
            self.evict(peer);
        }
    }

    /// Immediate eviction. Idempotent.
    pub fn evict(&mut self, peer: NodeId)
        ensures
            final(self)@ == old(self)@.evicted(peer),
            old(self)@.wf() ==> final(self)@.wf(),
    {
        let ghost before = self@;
        let ghost was = self.peers@;
        self.pending.remove(&peer.0);
        let removed = self.peers.remove(&peer.0);
        assert(ads_view(self.peers@) =~= ads_view(was).remove(peer.0));
        if removed.is_some() {
            self.push_event(AdUpdate::Removed(peer));
        }
        assert(self@ == before.evicted(peer));
    }

    /// Hands out the events that happened since the last call, oldest first.
    pub fn take_events(&mut self) -> (r: Vec<AdUpdate>)
        ensures
            events_view(r@) == old(self)@.events,
            final(self)@ == (AdStoreView { events: Seq::empty(), ..old(self)@ }),
    {
        let mut r: Vec<AdUpdate> = Vec::new();
        r.append(&mut self.events);
        assert(events_view(r@) =~= old(self)@.events);
        assert(self@.events =~= Seq::empty());
        r
    }
}

} // verus!

//! What holds of the ad store whatever arrives in whatever order.
use crate::ad::schema::{AdUpdateView, NodeAdView};
use crate::ad::store::{newer, same_version, AdStoreView};
use crate::ident::NodeId;
use crate::time::Duration;
use vstd::prelude::*;

verus! {

/// Last writer wins: of two ads with different versions the store ends up with
/// the same peers, whichever arrives first.
pub proof fn law_upsert_order(s: AdStoreView, a: NodeAdView, b: NodeAdView)
    requires
        !same_version(a, b),
    ensures
        s.upserted(a).upserted(b).peers == s.upserted(b).upserted(a).peers,
        s.upserted(a).upserted(b).pending == s.upserted(b).upserted(a).pending,
        s.upserted(a).upserted(b).own == s.own,
{
    let x = s.upserted(a).upserted(b);
    let y = s.upserted(b).upserted(a);
    assert(x.peers =~= y.peers);
    assert(x.pending =~= y.pending);
}

/// An ad that arrives again changes nothing and is no event.
pub proof fn law_upsert_again(s: AdStoreView, ad: NodeAdView)
    ensures
        s.upserted(ad).upserted(ad) == s.upserted(ad),
        s.upserted(ad).upsert_outcome(ad) is Unchanged || s.upserted(ad).upsert_outcome(ad) is Stale
            || s.upserted(ad).upsert_outcome(ad) is IgnoredSelf,
{
    let once = s.upserted(ad);
    let k = ad.node_id.0;
    if s.upsert_outcome(ad) !is IgnoredSelf {
        if s.upsert_outcome(ad) !is Stale {
            assert(once.peers.insert(k, ad) =~= once.peers);
        }
        assert(once.pending.remove(k) =~= once.pending);
    }
}

/// The version kept for a peer never goes back while ads arrive.
pub proof fn law_version_monotonic(s: AdStoreView, ad: NodeAdView, k: u128)
    requires
        s.wf(),
        s.peers.contains_key(k),
    ensures
        s.upserted(ad).peers.contains_key(k),
        !newer(s.peers[k], s.upserted(ad).peers[k]),
{
}

/// An ad leaves every other node's slot alone, and never touches the own ad.
pub proof fn law_upsert_local(s: AdStoreView, ad: NodeAdView, k: u128)
    requires
        k != ad.node_id.0,
    ensures
        s.upserted(ad).own == s.own,
        s.upserted(ad).peers.contains_key(k) == s.peers.contains_key(k),
        s.peers.contains_key(k) ==> s.upserted(ad).peers[k] == s.peers[k],
{
}

/// Subscribers hear of an ad exactly when it is new or newer.
pub proof fn law_event_iff_news(s: AdStoreView, ad: NodeAdView)
    ensures
        (s.upserted(ad).events == s.events) == !(s.upsert_outcome(ad) is Inserted
            || s.upsert_outcome(ad) is Updated),
{
    let after = s.upserted(ad).events;
    if s.upsert_outcome(ad) is Inserted || s.upsert_outcome(ad) is Updated {
        assert(after.len() == s.events.len() + 1);
    }
}

/// A fresh ad that arrives before the deadline keeps the peer: looking at the
/// deadline later evicts nothing.
pub proof fn law_fresh_ad_cancels_eviction(
    s: AdStoreView,
    ad: NodeAdView,
    ttl: Duration,
    now: Duration,
    later: Duration,
)
    requires
        ad.node_id != s.own.node_id,
    ensures
        ({
            let marked = s.marked_stale(ad.node_id, ttl, now);
            let fresh = marked.upserted(ad);
            &&& fresh.expired(ad.node_id, later) == fresh
            &&& fresh.peers.contains_key(ad.node_id.0)
        }),
{
}

/// A peer that is not heard of is gone once its time is over, and not before.
pub proof fn law_stale_peer_expires(
    s: AdStoreView,
    peer: NodeId,
    ttl: Duration,
    now: Duration,
    later: Duration,
)
    requires
        peer != s.own.node_id,
        now.nanos + ttl.nanos <= u128::MAX,
    ensures
        ({
            let marked = s.marked_stale(peer, ttl, now);
            &&& later.nanos >= now.nanos + ttl.nanos ==> !marked.expired(
                peer,
                later,
            ).peers.contains_key(peer.0)
            &&& later.nanos < now.nanos + ttl.nanos ==> marked.expired(peer, later) == marked
        }),
{
}

/// Eviction is idempotent: the second time nothing happens.
pub proof fn law_evict_again(s: AdStoreView, peer: NodeId)
    ensures
        s.evicted(peer).evicted(peer) == s.evicted(peer),
{
    let once = s.evicted(peer);
    assert(once.peers.remove(peer.0) =~= once.peers);
    assert(once.pending.remove(peer.0) =~= once.pending);
}

/// The own node is never evicted.
pub proof fn law_self_never_stale(s: AdStoreView, ttl: Duration, now: Duration, later: Duration)
    requires
        s.wf(),
    ensures
        s.marked_stale(s.own.node_id, ttl, now) == s,
        s.expired(s.own.node_id, later) == s,
{
}

/// Whether one version comes before another: by generation, then by boot.
pub open spec fn older_than(a: (u64, u64), b: (u64, u64)) -> bool {
    a.0 < b.0 || (a.0 == b.0 && a.1 < b.1)
}

/// The version of an ad.
pub open spec fn version(ad: NodeAdView) -> (u64, u64) {
    (ad.generation, ad.boot_time)
}

/// What becomes of an ad: the own node's is ignored; one of a node without an ad
/// is inserted; else it is new, known or old, as its version goes.
pub proof fn law_upsert_outcome(s: AdStoreView, ad: NodeAdView)
    ensures
        ({
            let k = ad.node_id.0;
            let own = k == s.own.node_id.0;
            let known = s.peers.contains_key(k);
            let r = s.upsert_outcome(ad);
            &&& r is IgnoredSelf <==> own
            &&& r is Inserted <==> !own && !known
            &&& r is Updated <==> !own && known && older_than(version(s.peers[k]), version(ad))
            &&& r is Unchanged <==> !own && known && version(s.peers[k]) == version(ad)
            &&& r is Stale <==> !own && known && older_than(version(ad), version(s.peers[k]))
        }),
{
}

/// What is kept of an ad: it replaces what is known of its node unless that has a
/// later version; the node's eviction is off either way; and it is told of exactly
/// where it brought a node or a later version.
pub proof fn law_upsert_kept(s: AdStoreView, ad: NodeAdView)
    requires
        ad.node_id.0 != s.own.node_id.0,
    ensures
        ({
            let k = ad.node_id.0;
            let after = s.upserted(ad);
            let known = s.peers.contains_key(k);
            &&& after.peers.contains_key(k)
            &&& known && older_than(version(ad), version(s.peers[k])) ==> after.peers == s.peers
            &&& !(known && older_than(version(ad), version(s.peers[k]))) ==> after.peers[k] == ad
            &&& !after.pending.contains_key(k)
            &&& forall|j: u128|
                j != k ==> (#[trigger] after.pending.contains_key(j) == s.pending.contains_key(j))
            &&& forall|j: u128|
                j != k && s.pending.contains_key(j) ==> #[trigger] after.pending[j] == s.pending[j]
            &&& !known ==> after.events == s.events.push(AdUpdateView::Inserted(ad))
            &&& known && older_than(version(s.peers[k]), version(ad)) ==> after.events
                == s.events.push(AdUpdateView::Updated(ad))
            &&& known && !older_than(version(s.peers[k]), version(ad)) ==> after.events == s.events
        }),
{
}

/// An ad that claims to be the own node's changes nothing.
pub proof fn law_own_ad_protected(s: AdStoreView, ad: NodeAdView)
    requires
        ad.node_id.0 == s.own.node_id.0,
    ensures
        s.upserted(ad) == s,
{
}

/// The own ad is the one last given; watchers hear of it where its generation is
/// another; nothing else changes.
pub proof fn law_own_ad_replaced(s: AdStoreView, ad: NodeAdView)
    ensures
        s.self_updated(ad).own == ad,
        s.self_updated(ad).peers == s.peers,
        s.self_updated(ad).pending == s.pending,
        ad.generation == s.own.generation ==> s.self_updated(ad).events == s.events,
        ad.generation != s.own.generation ==> s.self_updated(ad).events == s.events.push(
            AdUpdateView::Updated(ad),
        ),
{
}

/// An evicted peer is gone with its deadline, and is told of where it was there;
/// all others stay.
pub proof fn law_evicted(s: AdStoreView, peer: NodeId, k: u128)
    ensures
        ({
            let after = s.evicted(peer);
            &&& !after.peers.contains_key(peer.0)
            &&& !after.pending.contains_key(peer.0)
            &&& k != peer.0 ==> after.peers.contains_key(k) == s.peers.contains_key(k)
            &&& k != peer.0 && s.peers.contains_key(k) ==> after.peers[k] == s.peers[k]
            &&& k != peer.0 ==> after.pending.contains_key(k) == s.pending.contains_key(k)
            &&& k != peer.0 && s.pending.contains_key(k) ==> after.pending[k] == s.pending[k]
            &&& s.peers.contains_key(peer.0) ==> after.events == s.events.push(
                AdUpdateView::Removed(peer),
            )
            &&& !s.peers.contains_key(peer.0) ==> after.events == s.events
            &&& after.own == s.own
        }),
{
}

/// A peer that went away keeps its ad until its time is over: `ttl` from now, a
/// deadline set before being moved; all else stays.
pub proof fn law_marked_stale(s: AdStoreView, peer: NodeId, ttl: Duration, now: Duration, k: u128)
    requires
        peer.0 != s.own.node_id.0,
    ensures
        ({
            let after = s.marked_stale(peer, ttl, now);
            &&& after.own == s.own
            &&& after.peers == s.peers
            &&& after.events == s.events
            &&& after.pending.contains_key(peer.0)
            &&& now.nanos + ttl.nanos <= u128::MAX ==> after.pending[peer.0] == now.nanos
                + ttl.nanos
            &&& now.nanos + ttl.nanos > u128::MAX ==> after.pending[peer.0] == u128::MAX
            &&& k != peer.0 ==> after.pending.contains_key(k) == s.pending.contains_key(k)
            &&& k != peer.0 && s.pending.contains_key(k) ==> after.pending[k] == s.pending[k]
        }),
{
}

/// Looking at a deadline evicts its peer where it is set and has come, and does
/// nothing else.
pub proof fn law_expired(s: AdStoreView, peer: NodeId, now: Duration)
    ensures
        s.pending.contains_key(peer.0) && s.pending[peer.0] <= now.nanos ==> s.expired(peer, now)
            == s.evicted(peer),
        s.pending.contains_key(peer.0) && now.nanos < s.pending[peer.0] ==> s.expired(peer, now)
            == s,
        !s.pending.contains_key(peer.0) ==> s.expired(peer, now) == s,
{
}

} // verus!

//! What the functions of mailboxes and services return and leave behind, told of
//! the functions themselves: whatever one did, it was this.
use crate::ident::{Frame, MboxId, NetId, NodeId};
use crate::mbox::directory::{
    apply_local_declare, apply_local_forget, apply_remote_ad, apply_remote_forget,
    bump_local_clock, gc_expired_tombstones, service_lookup, service_lookup_one, snapshot,
    snapshot_view, Directory, Lamport, SnapshotEntry, TaskId,
};
use crate::mbox::directory_effects::{law_collected, law_heard, law_lookup, law_snapshot};
use crate::mbox::error::{MailError, ServiceError};
use crate::mbox::frames::{
    frame_of, mbox_inbound, DeliveryFailureReason, MailDeliveryFailureView, MailSendView,
    MboxFrameError, MboxInboundView, ServiceAd, ServiceAdView, ServiceForget, ServiceForgetView,
};
use crate::mbox::gc::{on_task_exit, record_owned_mbox, Tracker};
use crate::mbox::gossip::{
    clear_current_task, on_inbound_ad, on_inbound_forget, service_declare, service_forget,
    set_current_task, ServiceGossip, ServiceHandle, TaskContext,
};
use crate::mbox::gossip_emit::{clear_sink, emit, frames_view, set_sink, Sink};
use crate::mbox::handler::MboxHandler;
use crate::mbox::mailbox::{
    channel_bound, evict_for_gc, offers, receives_from, sends_on, try_deliver_local, Mailbox,
    MailboxRecv, Polled, Registry, Selected, Selecting,
};
use crate::mbox::send::{init, mail_send, peer_done, Outbound, Post};
use crate::mbox::service_effects::{law_forgets_last, law_owning, is_last_of};
use crate::time::Duration;
use vstd::prelude::*;
use vstd::utf8::encode_utf8;

verus! {

/// The clock goes on by one.
pub proof fn law_clock_bumped(d: &mut Directory, l: Lamport)
    requires
        old(d).clock < u64::MAX,
        call_ensures(bump_local_clock, (d,), l),
    ensures
        l == old(d)@.clock + 1,
        final(d)@.clock == l,
        final(d)@.entries == old(d)@.entries,
{
}

/// A declaration makes the mailbox live under the next stamp; a name of more than
/// 256 bytes is refused and changes nothing.
pub proof fn law_local_declare(
    d: &mut Directory,
    task_id: TaskId,
    name: &str,
    net_id: NetId,
    now: Duration,
    r: Result<(Lamport, bool), ServiceError>,
)
    requires
        old(d).clock < u64::MAX,
        call_ensures(apply_local_declare, (d, task_id, name, net_id, now), r),
    ensures
        r is Ok <==> encode_utf8(name@).len() <= 256,
        r matches Ok((stamp, news)) ==> {
            &&& stamp == old(d)@.clock + 1
            &&& news
            &&& final(d)@.clock == stamp
            &&& final(d)@.live(name@, net_id)
            &&& final(d)@.entries[(name@, net_id)].lamport == stamp
        },
        r is Err ==> final(d)@ == old(d)@,
        forall|n: Seq<char>, id: NetId|
            (n, id) != (name@, net_id) ==> final(d)@.live(n, id) == #[trigger] old(d)@.live(n, id),
{
}

/// Forgetting hides the mailbox, and says whether it was live.
pub proof fn law_local_forget(
    d: &mut Directory,
    task_id: TaskId,
    name: &str,
    net_id: NetId,
    now: Duration,
    r: Result<(Lamport, bool), ServiceError>,
)
    requires
        old(d).clock < u64::MAX,
        call_ensures(apply_local_forget, (d, task_id, name, net_id, now), r),
    ensures
        r is Ok <==> encode_utf8(name@).len() <= 256,
        r matches Ok((stamp, was)) ==> {
            &&& stamp == old(d)@.clock + 1
            &&& was == old(d)@.live(name@, net_id)
            &&& !final(d)@.live(name@, net_id)
            &&& was ==> final(d)@.entries.contains_key((name@, net_id)) && final(d)@.entries[(
                name@,
                net_id,
            )].lamport == stamp
        },
        r is Err ==> final(d)@ == old(d)@,
        forall|n: Seq<char>, id: NetId|
            (n, id) != (name@, net_id) ==> final(d)@.live(n, id) == #[trigger] old(d)@.live(n, id),
{
}

/// News of another node is taken in exactly where it is newer than what is known:
/// an ad makes live.
pub proof fn law_remote_ad(
    d: &mut Directory,
    name: &str,
    net_id: NetId,
    lamport: Lamport,
    now: Duration,
    updated: bool,
)
    requires
        call_ensures(apply_remote_ad, (d, name, net_id, lamport, now), updated),
    ensures
        ({
            let k = (name@, net_id);
            &&& updated <==> encode_utf8(name@).len() <= 256 && (!old(d)@.entries.contains_key(k)
                || old(d)@.entries[k].lamport < lamport)
            &&& updated ==> final(d)@.live(name@, net_id) && final(d)@.entries[k].lamport == lamport
            &&& !updated ==> final(d)@.entries == old(d)@.entries
            &&& encode_utf8(name@).len() <= 256 ==> final(d)@.clock >= lamport && final(d)@.clock
                >= old(d)@.clock
        }),
{
    law_heard(old(d)@, name@, net_id, lamport, false, now, (name@, net_id));
}

/// And a forget hides.
pub proof fn law_remote_forget(
    d: &mut Directory,
    name: &str,
    net_id: NetId,
    lamport: Lamport,
    now: Duration,
    updated: bool,
)
    requires
        call_ensures(apply_remote_forget, (d, name, net_id, lamport, now), updated),
    ensures
        ({
            let k = (name@, net_id);
            &&& updated <==> encode_utf8(name@).len() <= 256 && (!old(d)@.entries.contains_key(k)
                || old(d)@.entries[k].lamport < lamport)
            &&& updated ==> !final(d)@.live(name@, net_id) && final(d)@.entries[k].lamport
                == lamport && final(d)@.entries[k].last_seen == now
            &&& !updated ==> final(d)@.entries == old(d)@.entries
        }),
{
    law_heard(old(d)@, name@, net_id, lamport, true, now, (name@, net_id));
}

/// A lookup finds the live mailboxes of the name and no others, in order.
pub proof fn law_looked_up(d: &Directory, name: &str, r: Vec<NetId>, id: NetId, i: int, j: int)
    requires
        call_ensures(service_lookup, (d, name), r),
    ensures
        r@.contains(id) <==> d@.live(name@, id),
        0 <= i < j < r@.len() ==> r@[i].node.0 < r@[j].node.0 || (r@[i].node.0 == r@[j].node.0
            && r@[i].mbox.0 < r@[j].mbox.0),
{
    law_lookup(d@, name@, r@, id, i, j);
}

/// A lookup of one finds a live mailbox wherever there is one, and changes nothing
/// but whose turn is next.
pub proof fn law_looked_up_one(d: &mut Directory, name: &str, r: Option<NetId>, id: NetId)
    requires
        call_ensures(service_lookup_one, (d, name), r),
    ensures
        r matches Some(found) ==> old(d)@.live(name@, found),
        r is None ==> !old(d)@.live(name@, id),
        final(d)@.entries == old(d)@.entries,
        final(d)@.clock == old(d)@.clock,
{
    if let Some(found) = r {
        let ids = choose|ids: Seq<NetId>| #[trigger]
            crate::mbox::directory::is_lookup(old(d)@, name@, ids) && ids.len() > 0 && found
                == ids[old(d)@.turn(name@, ids.len() as int)] && final(d)@ == old(d)@.turned(
                name@,
                ids.len() as int,
            );
        let at = old(d)@.turn(name@, ids.len() as int);
        vstd::arithmetic::div_mod::lemma_mod_bound(
            old(d)@.cursor(name@) as int,
            ids.len() as int,
        );
        assert(ids.contains(ids[at]));
    } else {
        assert(crate::mbox::directory::is_lookup(old(d)@, name@, Seq::empty()));
        assert(!Seq::<NetId>::empty().contains(id));
    }
}

/// Tombstones are collected sixty seconds after they were made, and nothing else.
pub proof fn law_tombstones_collected(
    d: &mut Directory,
    now: Duration,
    removed: usize,
    name: Seq<char>,
    id: NetId,
)
    requires
        call_ensures(gc_expired_tombstones, (d, now), removed),
    ensures
        final(d)@.live(name, id) == old(d)@.live(name, id),
        old(d)@.entries.contains_key((name, id)) && old(d)@.entries[(name, id)].tombstone ==> (
        final(d)@.entries.contains_key((name, id)) <==> now.nanos < old(d)@.entries[(
            name,
            id,
        )].last_seen.nanos + 60_000_000_000),
        final(d)@.clock == old(d)@.clock,
{
    law_collected(old(d)@, now, (name, id));
}

/// A snapshot has every entry, tombstones too.
pub proof fn law_snapshot_complete(d: &Directory, r: Vec<SnapshotEntry>, name: Seq<char>, id: NetId)
    requires
        call_ensures(snapshot, (d,), r),
    ensures
        d@.entries.contains_key((name, id)) ==> exists|i: int|
            0 <= i < snapshot_view(r@).len() && (#[trigger] snapshot_view(r@)[i]).name == name
                && snapshot_view(r@)[i].net_id == id && snapshot_view(r@)[i].lamport
                == d@.entries[(name, id)].lamport && snapshot_view(r@)[i].tombstone
                == d@.entries[(name, id)].tombstone,
{
    law_snapshot(d@.entries, snapshot_view(r@), (name, id), 0);
}

/// A service is declared for the primary mailbox of the current task on the own
/// node: it is live at once and told of once. Without a task or a node, or under a
/// name that is too long, nothing happens.
pub proof fn law_service_declared(
    g: &mut ServiceGossip,
    self_node: Option<NodeId>,
    name: &str,
    now: Duration,
    r: Result<ServiceHandle, ServiceError>,
)
    requires
        old(g)@.dir.clock < u64::MAX,
        call_ensures(service_declare, (g, self_node, name, now), r),
    ensures
        r is Ok <==> old(g)@.current is Some && self_node is Some && encode_utf8(name@).len()
            <= 256,
        r is Err ==> final(g)@ == old(g)@,
        r matches Ok(h) ==> {
            let ctx = old(g)@.current->Some_0;
            let id = NetId { node: self_node->Some_0, mbox: ctx.primary_mbox };
            &&& h.name@ == name@
            &&& h.net_id == id
            &&& h.task_id == ctx.task_id
            &&& !h.forgotten
            &&& final(g)@.dir.live(name@, id)
            &&& final(g)@.dir.entries[(name@, id)].lamport == old(g)@.dir.clock + 1
            &&& old(g)@.sink.installed ==> final(g)@.sink.queue == old(g)@.sink.queue.push(
                frame_of(
                    MboxInboundView::ServiceAd(
                        ServiceAdView {
                            name: name@,
                            net_id: id,
                            lamport: (old(g)@.dir.clock + 1) as u64,
                        },
                    ),
                ),
            )
        },
{
}

/// The current task forgets its last declaration of the name: it is hidden, no
/// longer listed, and told of once.
pub proof fn law_service_forgotten(
    g: &mut ServiceGossip,
    node: NodeId,
    name: &str,
    now: Duration,
    ctx: TaskContext,
    k: int,
)
    requires
        old(g)@.dir.clock < u64::MAX,
        old(g)@.current == Some(ctx),
        is_last_of(old(g)@.declared, ctx.task_id, name@, k),
        encode_utf8(name@).len() <= 256,
        call_ensures(service_forget, (g, Some(node), name, now), ()),
    ensures
        ({
            let id = old(g)@.declared[k].net_id;
            &&& !final(g)@.dir.live(name@, id)
            &&& final(g)@.declared == old(g)@.declared.take(k) + old(g)@.declared.skip(k + 1)
            &&& old(g)@.sink.installed ==> final(g)@.sink.queue == old(g)@.sink.queue.push(
                frame_of(
                    MboxInboundView::ServiceForget(
                        ServiceForgetView {
                            name: name@,
                            net_id: id,
                            lamport: (old(g)@.dir.clock + 1) as u64,
                        },
                    ),
                ),
            )
        }),
{
    law_forgets_last(old(g)@, ctx, node, name@, now, k);
}

/// Forgetting a handle hides its mailbox under its name and tells of it once, with
/// the stamp of the tombstone; the handle's declaration stays listed until its task
/// exits.
pub proof fn law_handle_forgotten(h: ServiceHandle, g: &mut ServiceGossip, now: Duration)
    requires
        old(g)@.dir.clock < u64::MAX - 1,
        encode_utf8(h.name@).len() <= 256,
        call_ensures(ServiceHandle::forget, (h, g, now), ()),
    ensures
        !final(g)@.dir.live(h.name@, h.net_id),
        final(g)@.dir.entries.contains_key((h.name@, h.net_id)),
        final(g)@.dir.entries[(h.name@, h.net_id)].lamport == final(g)@.dir.clock,
        final(g)@.declared == old(g)@.declared,
        old(g)@.sink.installed ==> final(g)@.sink.queue == old(g)@.sink.queue.push(
            frame_of(
                MboxInboundView::ServiceForget(
                    ServiceForgetView {
                        name: h.name@,
                        net_id: h.net_id,
                        lamport: final(g)@.dir.clock,
                    },
                ),
            ),
        ),
{
}

/// A handle that was forgotten before does nothing when it goes away.
pub proof fn law_handle_dropped(h: &ServiceHandle, g: &mut ServiceGossip, now: Duration)
    requires
        old(g)@.dir.clock < u64::MAX,
        call_ensures(ServiceHandle::on_drop, (h, g, now), ()),
    ensures
        h.forgotten ==> final(g)@ == old(g)@,
        !h.forgotten && encode_utf8(h.name@).len() <= 256 ==> !final(g)@.dir.live(
            h.name@,
            h.net_id,
        ),
{
}

/// A sink that is set takes frames; one that is cleared does not; what is queued
/// stays.
pub proof fn law_sink_set(s: &mut Sink)
    requires
        call_ensures(set_sink, (s,), ()),
    ensures
        final(s)@.installed,
        final(s)@.queue == old(s)@.queue,
        final(s)@.unsunk == old(s)@.unsunk,
{
}

/// And the other way.
pub proof fn law_sink_cleared(s: &mut Sink)
    requires
        call_ensures(clear_sink, (s,), ()),
    ensures
        !final(s)@.installed,
        final(s)@.queue == old(s)@.queue,
        final(s)@.unsunk == old(s)@.unsunk,
{
}

/// Queued frames are handed out once, in order.
pub proof fn law_frames_taken(s: &mut Sink, r: Vec<Frame>)
    requires
        call_ensures(Sink::take_frames, (s,), r),
    ensures
        frames_view(r@) == old(s)@.queue,
        final(s)@.queue.len() == 0,
        final(s)@.installed == old(s)@.installed,
{
}

/// When a task exits its mailboxes are gone, and no others; it owns nothing more.
pub proof fn law_task_exited(
    g: &mut ServiceGossip,
    t: &mut Tracker,
    registry: &mut Registry,
    task_id: TaskId,
    now: Duration,
    id: u64,
)
    requires
        old(g).wf(),
        old(g)@.dir.clock + crate::mbox::gc::of_task(old(g)@.declared, task_id).len() <= u64::MAX,
        call_ensures(on_task_exit, (g, t, registry, task_id, now), ()),
    ensures
        final(registry).slots@.contains_key(id) <==> old(registry).slots@.contains_key(id) && !old(
            t,
        ).owned(task_id).contains(MboxId(id)),
        final(t).owned(task_id).len() == 0,
        !final(t).mboxes@.contains_key(task_id),
        final(registry).next_id == old(registry).next_id,
{
    crate::mbox::service_effects::law_ids_of(old(t).owned(task_id), id);
}

/// An ad from another node is known where it is newer; a forget hides.
pub proof fn law_ad_heard(g: &mut ServiceGossip, ad: &ServiceAd, now: Duration)
    requires
        call_ensures(on_inbound_ad, (g, ad, now), ()),
    ensures
        old(g)@.dir.accepts(ad.name@, ad.net_id, ad.lamport) ==> final(g)@.dir.live(
            ad.name@,
            ad.net_id,
        ),
        final(g)@.sink == old(g)@.sink,
        final(g)@.declared == old(g)@.declared,
{
}

/// And a forget hides.
pub proof fn law_forget_heard(g: &mut ServiceGossip, f: &ServiceForget, now: Duration)
    requires
        call_ensures(on_inbound_forget, (g, f, now), ()),
    ensures
        old(g)@.dir.accepts(f.name@, f.net_id, f.lamport) ==> !final(g)@.dir.live(
            f.name@,
            f.net_id,
        ),
        final(g)@.sink == old(g)@.sink,
        final(g)@.declared == old(g)@.declared,
{
}

/// The current task is the one last set, until it is cleared.
pub proof fn law_current_task(g: &mut ServiceGossip, task_id: TaskId, mbox: MboxId)
    requires
        call_ensures(set_current_task, (g, task_id, mbox), ()),
    ensures
        final(g)@.current == Some(TaskContext { task_id, primary_mbox: mbox }),
        final(g)@.dir == old(g)@.dir,
        final(g)@.declared == old(g)@.declared,
{
}

/// After that there is none.
pub proof fn law_no_current_task(g: &mut ServiceGossip)
    requires
        call_ensures(clear_current_task, (g,), ()),
    ensures
        final(g)@.current is None,
        final(g)@.dir == old(g)@.dir,
        final(g)@.declared == old(g)@.declared,
{
}

/// A mailbox is recorded for its task once; the count is told.
pub proof fn law_mailbox_recorded(t: &mut Tracker, task_id: TaskId, mbox: MboxId, n: usize)
    requires
        call_ensures(record_owned_mbox, (t, task_id, mbox), n),
    ensures
        final(t).owned(task_id).contains(mbox),
        old(t).owned(task_id).contains(mbox) ==> n == old(t).owned(task_id).len(),
        !old(t).owned(task_id).contains(mbox) ==> n == old(t).owned(task_id).len() + 1,
        forall|other: u64|
            other != task_id ==> #[trigger] final(t).owned(other) == old(t).owned(other),
{
    law_owning(old(t).owned(task_id), mbox, mbox);
}

/// A mail: refused where it is larger than 8 MiB, then where the own node is not
/// known; offered to the mailbox where it is for the own node; else on its way to
/// the other node as it was written.
pub proof fn law_mail_sent(
    p: &mut Post,
    to: NetId,
    payload: Vec<u8>,
    r: Result<Option<Outbound>, MailError>,
)
    requires
        call_ensures(mail_send, (p, to, payload), r),
    ensures
        payload@.len() > 8 * 1024 * 1024 ==> (r matches Err(MailError::PayloadTooLarge(n)) && n
            == payload@.len() as usize) && *final(p) == *old(p),
        payload@.len() <= 8 * 1024 * 1024 && old(p).self_node is None ==> (r matches Err(
            MailError::NotInitialized,
        )) && *final(p) == *old(p),
        payload@.len() <= 8 * 1024 * 1024 && old(p).self_node == Some(to.node) ==> r matches Ok(
            None,
        ),
        payload@.len() <= 8 * 1024 * 1024 && old(p).self_node is Some && old(p).self_node
            != Some(to.node) ==> (r matches Ok(Some(o)) && o.to == to.node && o.frame@ == frame_of(
            MboxInboundView::MailSend(
                MailSendView {
                    from: NetId { node: old(p).self_node->Some_0, mbox: MboxId(0) },
                    to,
                    payload: payload@,
                },
            ),
        )) && *final(p) == *old(p),
        final(p).self_node == old(p).self_node,
{
}

/// The own node is set once.
pub proof fn law_node_set(p: &mut Post, n: NodeId)
    requires
        call_ensures(init, (p, n), ()),
    ensures
        old(p).self_node is None ==> final(p).self_node == Some(n),
        old(p).self_node is Some ==> final(p).self_node == old(p).self_node,
        final(p).drops == old(p).drops,
        final(p).registry == old(p).registry,
{
}

/// A mail that no connection took is counted.
pub proof fn law_peer_done(p: &mut Post, sent: bool)
    requires
        call_ensures(peer_done, (p, sent), ()),
    ensures
        sent ==> final(p).drops == old(p).drops,
        !sent && old(p).drops.remote_no_peer < u64::MAX ==> final(p).drops.remote_no_peer
            == old(p).drops.remote_no_peer + 1,
        final(p).drops.local_full == old(p).drops.local_full,
        final(p).drops.local_missing == old(p).drops.local_missing,
{
}

/// What could not be delivered is answered, to the sender's node and with the
/// reason; what was delivered is not, nor is the own node.
pub proof fn law_delivery_reported(
    h: &MboxHandler,
    self_node: Option<NodeId>,
    from: NodeId,
    to: NetId,
    known: bool,
    sent: bool,
    r: Option<Outbound>,
)
    requires
        call_ensures(MboxHandler::delivered, (h, self_node, from, to, known, sent), r),
    ensures
        r is Some <==> h.replies && self_node != Some(from) && !(known && sent),
        r matches Some(o) ==> o.to == from && o.frame@ == frame_of(
            MboxInboundView::MailDeliveryFailure(
                MailDeliveryFailureView {
                    to,
                    reason: if known {
                        DeliveryFailureReason::MboxFull
                    } else {
                        DeliveryFailureReason::UnknownMbox
                    },
                },
            ),
        ),
{
}

/// A frame that arrives: news changes the directory and is not answered; a sync is
/// answered to the peer that asked; what cannot be read, and a report of a failed
/// delivery, does nothing.
pub proof fn law_frame_handled(
    h: &MboxHandler,
    post: &mut Post,
    g: &mut ServiceGossip,
    peer: NodeId,
    frame: &Frame,
    now: Duration,
    r: Option<Outbound>,
)
    requires
        old(g).wf(),
        call_ensures(MboxHandler::on_frame, (h, post, g, peer, frame, now), r),
    ensures
        ({
            let said = mbox_inbound(frame@);
            &&& said is Err ==> r is None && final(g)@ == old(g)@ && *final(post) == *old(post)
            &&& said matches Ok(MboxInboundView::ServiceAd(a)) ==> r is None && final(g)@.dir
                == old(g)@.dir.heard(a.name, a.net_id, a.lamport, false, now) && *final(post)
                == *old(post)
            &&& said matches Ok(MboxInboundView::ServiceForget(f)) ==> r is None && final(g)@.dir
                == old(g)@.dir.heard(f.name, f.net_id, f.lamport, true, now) && *final(post)
                == *old(post)
            &&& said matches Ok(MboxInboundView::ServiceSync) ==> (r matches Some(o) && o.to == peer
                && o.frame.kind == 0x0213) && final(g)@ == old(g)@
            &&& said matches Ok(MboxInboundView::MailDeliveryFailure(_)) ==> r is None && final(g)@
                == old(g)@ && *final(post) == *old(post)
        }),
        final(post).self_node == old(post).self_node,
        final(post).drops == old(post).drops,
{
    if let Ok(MboxInboundView::ServiceSync) = mbox_inbound(frame@) {
        assert(r is Some);
        assert(r->Some_0.frame@.kind == r->Some_0.frame.kind);
    }
}

/// A mail that arrives is offered to the mailbox that it is for. Where there is
/// none, or it does not take the mail, the sender's node is told why, unless
/// replies are off or it is the own node.
pub proof fn law_mail_handled(
    h: &MboxHandler,
    post: &mut Post,
    g: &mut ServiceGossip,
    peer: NodeId,
    frame: &Frame,
    now: Duration,
    r: Option<Outbound>,
    m: MailSendView,
)
    requires
        old(g).wf(),
        mbox_inbound(frame@) == Ok::<MboxInboundView, MboxFrameError>(MboxInboundView::MailSend(m)),
        call_ensures(MboxHandler::on_frame, (h, post, g, peer, frame, now), r),
    ensures
        ({
            let id = m.to.mbox.0;
            let known = old(post).registry.slots@.contains_key(id);
            &&& final(g)@ == old(g)@
            &&& !known ==> final(post).registry.slots@ == old(post).registry.slots@ && (r is Some
                <==> h.replies && old(post).self_node != Some(m.from.node))
            &&& known ==> final(post).registry.slots@.contains_key(id) && ({
                let was = offers(old(post).registry.slots@[id]);
                let now = offers(final(post).registry.slots@[id]);
                &&& now.len() == was.len() + 1
                &&& now.drop_last() == was
                &&& now.last().0 == m.payload
                &&& r is Some <==> !now.last().1 && h.replies && old(post).self_node != Some(
                    m.from.node,
                )
            })
            &&& r matches Some(o) ==> o.to == m.from.node && o.frame@ == frame_of(
                MboxInboundView::MailDeliveryFailure(
                    MailDeliveryFailureView {
                        to: m.to,
                        reason: if known {
                            DeliveryFailureReason::MboxFull
                        } else {
                            DeliveryFailureReason::UnknownMbox
                        },
                    },
                ),
            )
        }),
{
    let sent = choose|sent: bool| #[trigger]
        crate::mbox::handler::mail_handled(*old(post), *final(post), h.replies, m, r, sent);
    let id = m.to.mbox.0;
    if old(post).registry.slots@.contains_key(id) {
        let was = offers(old(post).registry.slots@[id]);
        assert(was.push((m.payload, sent)).drop_last() =~= was);
    }
}

/// A mail for the own node is offered to its mailbox; where it is lost, the reason
/// is counted.
pub proof fn law_local_mail(
    p: &mut Post,
    to: NetId,
    payload: Vec<u8>,
    r: Result<Option<Outbound>, MailError>,
)
    requires
        payload@.len() <= 8 * 1024 * 1024,
        old(p).self_node == Some(to.node),
        call_ensures(mail_send, (p, to, payload), r),
    ensures
        r matches Ok(None),
        !old(p).registry.slots@.contains_key(to.mbox.0) ==> {
            &&& final(p).registry.slots@ == old(p).registry.slots@
            &&& old(p).drops.local_missing < u64::MAX ==> final(p).drops.local_missing
                == old(p).drops.local_missing + 1
            &&& final(p).drops.local_full == old(p).drops.local_full
        },
        old(p).registry.slots@.contains_key(to.mbox.0) ==> {
            let now = offers(final(p).registry.slots@[to.mbox.0]);
            &&& now.len() == offers(old(p).registry.slots@[to.mbox.0]).len() + 1
            &&& now.last().0 == payload@
            &&& final(p).drops.local_missing == old(p).drops.local_missing
            &&& now.last().1 ==> final(p).drops == old(p).drops
            &&& !now.last().1 && old(p).drops.local_full < u64::MAX ==> final(p).drops.local_full
                == old(p).drops.local_full + 1
        },
{
    let sent = choose|sent: bool| #[trigger]
        crate::mbox::send::local_mail(*old(p), *final(p), to, payload@, sent);
    assert(crate::mbox::send::local_mail(*old(p), *final(p), to, payload@, sent));
}

/// A new mailbox has a number of its own, room for 1024 messages and none in it;
/// the others stay; the current task owns it.
pub proof fn law_mailbox_made(
    g: &mut Registry,
    t: &mut Tracker,
    current: Option<TaskContext>,
    r: (MboxId, MailboxRecv),
)
    requires
        old(g).wf(),
        old(g).next_id < u64::MAX,
        call_ensures(Mailbox::new, (g, t, current), r),
    ensures
        !old(g).slots@.contains_key(r.0.0),
        final(g).slots@.contains_key(r.0.0),
        channel_bound(final(g).slots@[r.0.0]) == 1024,
        sends_on(final(g).slots@[r.0.0]) == receives_from(r.1.rx),
        r.1.id == r.0,
        r.0.0 < final(g).next_id,
        forall|id: u64|
            id != r.0.0 ==> #[trigger] final(g).slots@.contains_key(id)
                == old(g).slots@.contains_key(id),
        current matches Some(c) ==> final(t).owned(c.task_id).contains(r.0),
        current is None ==> *final(t) == *old(t),
{
    assert forall|id: u64| id != r.0.0 implies #[trigger] final(g).slots@.contains_key(id)
        == old(g).slots@.contains_key(id) by {
        assert(final(g).slots@.remove(r.0.0).contains_key(id) == old(g).slots@.contains_key(id));
    }
    if let Some(c) = current {
        let all = final(t).owned(c.task_id);
        assert(all[all.len() - 1] == r.0);
    }
}

/// A mailbox that is evicted is gone, and no other.
pub proof fn law_mailbox_evicted(g: &mut Registry, mbox: MboxId)
    requires
        call_ensures(evict_for_gc, (g, mbox), ()),
    ensures
        !final(g).slots@.contains_key(mbox.0),
        forall|id: u64|
            id != mbox.0 ==> #[trigger] final(g).slots@.contains_key(id)
                == old(g).slots@.contains_key(id),
        final(g).next_id == old(g).next_id,
{
}

/// A message is offered to the mailbox that it is for, and to no other.
pub proof fn law_delivery_tried(g: &mut Registry, mbox: MboxId, payload: Vec<u8>, sent: bool)
    requires
        call_ensures(try_deliver_local, (g, mbox, payload), sent),
    ensures
        !old(g).slots@.contains_key(mbox.0) ==> !sent && final(g).slots@ == old(g).slots@,
        old(g).slots@.contains_key(mbox.0) ==> final(g).slots@.contains_key(mbox.0) && offers(
            final(g).slots@[mbox.0],
        ) == offers(old(g).slots@[mbox.0]).push((payload@, sent)),
        forall|id: u64|
            id != mbox.0 ==> #[trigger] final(g).slots@.contains_key(id)
                == old(g).slots@.contains_key(id),
{
    assert forall|id: u64| id != mbox.0 implies #[trigger] final(g).slots@.contains_key(id)
        == old(g).slots@.contains_key(id) by {
        if old(g).slots@.contains_key(mbox.0) {
            assert(final(g).slots@.remove(mbox.0).contains_key(id) == old(g).slots@.remove(
                mbox.0,
            ).contains_key(id));
        }
    }
}

/// Of several mailboxes the first with a message is taken; where none has one, all
/// are closed or there is something to wait for.
pub proof fn law_selected(s: &mut Selecting, p: Polled, r: Option<Selected>)
    requires
        old(s).polled < usize::MAX,
        call_ensures(Selecting::step, (s, p), r),
    ensures
        p matches Polled::Message(m) ==> r == Some(Selected::Ready(old(s).polled, m)),
        !(p is Message) ==> r is None,
        final(s).polled == old(s).polled + 1,
        p is Pending ==> !final(s).all_closed,
        !(p is Pending) ==> final(s).all_closed == old(s).all_closed,
{
}

/// How a round of polling ends.
pub proof fn law_selection_finished(s: &Selecting, r: Selected)
    requires
        call_ensures(Selecting::finish, (s,), r),
    ensures
        s.all_closed ==> r is AllClosed,
        !s.all_closed ==> r is Wait,
{
}

/// A frame that is emitted reaches the sink, or is counted where there is none.
pub proof fn law_frame_emitted(s: &mut Sink, f: Frame)
    requires
        call_ensures(emit, (s, f), ()),
    ensures
        old(s)@.installed ==> final(s)@.queue == old(s)@.queue.push(f@) && final(s)@.unsunk
            == old(s)@.unsunk,
        !old(s)@.installed ==> final(s)@.queue == old(s)@.queue,
        !old(s)@.installed && old(s)@.unsunk < u64::MAX ==> final(s)@.unsunk == old(s)@.unsunk + 1,
        final(s)@.installed == old(s)@.installed,
{
}

} // verus!

//! What each operation on services and mail changes, tells and counts.
use crate::ad::frames as ad_frames;
use crate::ad::schema::{AdGossipView, AdRequestView, NodeAdView};
use crate::ident::{FrameKind, FrameView, MboxId, NetId, NodeId};
use crate::mbox::directory::TaskId;
use crate::mbox::frames::{
    frame_of, mbox_inbound, sendable, DeliveryFailureReason, MailSend, MailSendView,
    MboxFrameError, MboxInboundView, ServiceAdView, ServiceForgetView, ServiceSyncEntryView,
};
use crate::mbox::gc::{ids_of, of_others, of_task, owning};
use crate::mbox::gossip::{
    as_row, last_declared, last_declared_for, DeclaredView, ServiceGossipView, TaskContext,
};
use crate::mbox::gossip_emit::SinkView;
use crate::mbox::handler::{failure, heard_from, reply_for};
use crate::mbox::send::{after_local, counted, mail_of, Drops};
use crate::packed::unpacked;
use crate::time::Duration;
use vstd::prelude::*;
use vstd::utf8::encode_utf8;

verus! {

/// A counter goes up by one, and from the last number to zero.
pub proof fn law_counted(n: u64)
    ensures
        n < u64::MAX ==> counted(n) == n + 1,
        n == u64::MAX ==> counted(n) == 0,
{
}

/// A frame that is emitted is queued last where there is a sink, and else counted
/// as lost.
pub proof fn law_emitted(s: SinkView, f: FrameView)
    ensures
        ({
            let after = s.emitted(f);
            &&& after.installed == s.installed
            &&& s.installed ==> after.queue.len() == s.queue.len() + 1 && after.queue.drop_last()
                == s.queue && after.queue.last() == f && after.unsunk == s.unsunk
            &&& !s.installed ==> after.queue == s.queue && (s.unsunk < u64::MAX ==> after.unsunk
                == s.unsunk + 1)
        }),
{
    if s.installed {
        assert(s.emitted(f).queue.drop_last() =~= s.queue);
    }
}

/// A declaration is known, kept as the task's, and told of once with its stamp.
pub proof fn law_declares(
    g: ServiceGossipView,
    task_id: TaskId,
    name: Seq<char>,
    net_id: NetId,
    now: Duration,
)
    requires
        g.dir.clock < u64::MAX,
    ensures
        ({
            let after = g.declares(task_id, name, net_id, now);
            let stamp = (g.dir.clock + 1) as u64;
            &&& after.dir == g.dir.declared(task_id, name, net_id, now)
            &&& after.dir.live(name, net_id)
            &&& after.dir.clock == stamp
            &&& after.declared.len() == g.declared.len() + 1
            &&& after.declared.drop_last() == g.declared
            &&& after.declared.last().name == name
            &&& after.declared.last().task_id == task_id
            &&& after.declared.last().net_id == net_id
            &&& after.declared.last().lamport == stamp
            &&& g.sink.installed ==> after.sink.queue == g.sink.queue.push(
                frame_of(
                    MboxInboundView::ServiceAd(ServiceAdView { name, net_id, lamport: stamp }),
                ),
            )
            &&& g.out < u64::MAX ==> after.out == g.out + 1
            &&& after.in_applied == g.in_applied
            &&& after.current == g.current
        }),
{
    assert(g.declares(task_id, name, net_id, now).declared.drop_last() =~= g.declared);
}

/// Forgetting leaves a tombstone and tells of it once, with its stamp; the
/// declarations stay. A name that is too long does nothing.
pub proof fn law_forgets(
    g: ServiceGossipView,
    task_id: TaskId,
    name: Seq<char>,
    net_id: NetId,
    now: Duration,
)
    requires
        g.dir.clock < u64::MAX,
    ensures
        ({
            let after = g.forgets(task_id, name, net_id, now);
            let stamp = (g.dir.clock + 1) as u64;
            &&& encode_utf8(name).len() > 256 ==> after == g
            &&& encode_utf8(name).len() <= 256 ==> {
                &&& after.dir.clock == stamp
                &&& after.dir.entries.contains_key((name, net_id))
                &&& after.dir.entries[(name, net_id)].tombstone
                &&& after.dir.entries[(name, net_id)].lamport == stamp
                &&& g.sink.installed ==> after.sink.queue == g.sink.queue.push(
                    frame_of(
                        MboxInboundView::ServiceForget(
                            ServiceForgetView { name, net_id, lamport: stamp },
                        ),
                    ),
                )
                &&& g.out < u64::MAX ==> after.out == g.out + 1
            }
            &&& after.declared == g.declared
            &&& after.in_applied == g.in_applied
            &&& after.current == g.current
        }),
{
}

proof fn lemma_last_declared(ds: Seq<DeclaredView>, task_id: TaskId, name: Seq<char>)
    ensures
        match last_declared(ds, task_id, name) {
            None => forall|i: int|
                0 <= i < ds.len() ==> !((#[trigger] ds[i]).name == name && ds[i].task_id
                    == task_id),
            Some(k) => is_last_of(ds, task_id, name, k),
        },
    decreases ds.len(),
{
    if ds.len() > 0 {
        let init = ds.drop_last();
        lemma_last_declared(init, task_id, name);
        assert(forall|i: int| 0 <= i < init.len() ==> #[trigger] init[i] == ds[i]);
        if !(ds.last().name == name && ds.last().task_id == task_id) {
            if let Some(k) = last_declared(init, task_id, name) {
                assert(init[k] == ds[k]);
                assert forall|i: int| k < i < ds.len() implies !((#[trigger] ds[i]).name == name
                    && ds[i].task_id == task_id) by {
                    if i < init.len() {
                        assert(init[i] == ds[i]);
                    }
                }
            } else {
                assert forall|i: int| 0 <= i < ds.len() implies !((#[trigger] ds[i]).name == name
                    && ds[i].task_id == task_id) by {
                    if i < init.len() {
                        assert(init[i] == ds[i]);
                    }
                }
            }
        }
    }
}

/// Whether this is the task's last declaration of the name.
pub open spec fn is_last_of(ds: Seq<DeclaredView>, task_id: TaskId, name: Seq<char>, k: int) -> bool {
    &&& 0 <= k < ds.len()
    &&& ds[k].name == name
    &&& ds[k].task_id == task_id
    &&& forall|i: int|
        k < i < ds.len() ==> !((#[trigger] ds[i]).name == name && ds[i].task_id == task_id)
}

/// The current task forgets its last declaration of the name: that one and no
/// other is gone, its mailbox is hidden under the name and told of. Where there is
/// none nothing happens.
pub proof fn law_forgets_last(
    g: ServiceGossipView,
    ctx: TaskContext,
    node: NodeId,
    name: Seq<char>,
    now: Duration,
    k: int,
)
    requires
        g.current == Some(ctx),
    ensures
        is_last_of(g.declared, ctx.task_id, name, k) ==> {
            let after = g.forgets_last(Some(node), name, now);
            &&& after.declared == g.declared.take(k) + g.declared.skip(k + 1)
            &&& after == (ServiceGossipView {
                declared: g.declared.remove(k),
                ..g
            }).forgets(ctx.task_id, name, g.declared[k].net_id, now)
        },
        (forall|i: int|
            0 <= i < g.declared.len() ==> !((#[trigger] g.declared[i]).name == name
                && g.declared[i].task_id == ctx.task_id)) ==> g.forgets_last(Some(node), name, now)
            == g,
{
    lemma_last_declared(g.declared, ctx.task_id, name);
    if is_last_of(g.declared, ctx.task_id, name, k) {
        let j = last_declared(g.declared, ctx.task_id, name);
        if j is None {
            assert(g.declared[k].name == name);
        } else if j->Some_0 < k {
            assert(g.declared[k].name == name);
        } else if k < j->Some_0 {
            assert(g.declared[j->Some_0].name == name);
        }
        assert(g.declared.remove(k) =~= g.declared.take(k) + g.declared.skip(k + 1));
    }
    if forall|i: int|
        0 <= i < g.declared.len() ==> !((#[trigger] g.declared[i]).name == name
            && g.declared[i].task_id == ctx.task_id) {
        if let Some(j) = last_declared(g.declared, ctx.task_id, name) {
            assert(g.declared[j].name == name);
        }
    }
}

/// Whether this is the task's last declaration of the mailbox under the name.
pub open spec fn is_last_for(
    ds: Seq<DeclaredView>,
    task_id: TaskId,
    name: Seq<char>,
    net_id: NetId,
    k: int,
) -> bool {
    &&& 0 <= k < ds.len()
    &&& ds[k].name == name
    &&& ds[k].task_id == task_id
    &&& ds[k].net_id == net_id
    &&& forall|i: int|
        k < i < ds.len() ==> !((#[trigger] ds[i]).name == name && ds[i].task_id == task_id
            && ds[i].net_id == net_id)
}

proof fn lemma_last_for(ds: Seq<DeclaredView>, task_id: TaskId, name: Seq<char>, net_id: NetId)
    ensures
        match last_declared_for(ds, task_id, name, net_id) {
            None => forall|i: int|
                0 <= i < ds.len() ==> !((#[trigger] ds[i]).name == name && ds[i].task_id == task_id
                    && ds[i].net_id == net_id),
            Some(k) => is_last_for(ds, task_id, name, net_id, k),
        },
    decreases ds.len(),
{
    if ds.len() > 0 {
        let init = ds.drop_last();
        lemma_last_for(init, task_id, name, net_id);
        assert(forall|i: int| 0 <= i < init.len() ==> #[trigger] init[i] == ds[i]);
        if !(ds.last().name == name && ds.last().task_id == task_id && ds.last().net_id
            == net_id) {
            if let Some(k) = last_declared_for(init, task_id, name, net_id) {
                assert(init[k] == ds[k]);
                assert forall|i: int| k < i < ds.len() implies !((#[trigger] ds[i]).name == name
                    && ds[i].task_id == task_id && ds[i].net_id == net_id) by {
                    if i < init.len() {
                        assert(init[i] == ds[i]);
                    }
                }
            } else {
                assert forall|i: int| 0 <= i < ds.len() implies !((#[trigger] ds[i]).name == name
                    && ds[i].task_id == task_id && ds[i].net_id == net_id) by {
                    if i < init.len() {
                        assert(init[i] == ds[i]);
                    }
                }
            }
        }
    }
}

/// A handle that goes away takes its declaration with it, tells of it and leaves a
/// tombstone. Where the declaration is gone already, a mailbox that is live all the
/// same is hidden and told of, and for one that is not nothing is told.
pub proof fn law_withdraws(
    g: ServiceGossipView,
    task_id: TaskId,
    name: Seq<char>,
    net_id: NetId,
    now: Duration,
    k: int,
)
    requires
        encode_utf8(name).len() <= 256,
    ensures
        ({
            let after = g.withdraws(task_id, name, net_id, now);
            let gone = forall|i: int|
                0 <= i < g.declared.len() ==> !((#[trigger] g.declared[i]).name == name
                    && g.declared[i].task_id == task_id && g.declared[i].net_id == net_id);
            &&& is_last_for(g.declared, task_id, name, net_id, k) ==> after == (ServiceGossipView {
                declared: g.declared.take(k) + g.declared.skip(k + 1),
                ..g
            }).forgets(task_id, name, net_id, now)
            &&& gone && g.dir.live(name, net_id) ==> after == g.forgets(task_id, name, net_id, now)
            &&& gone && !g.dir.live(name, net_id) ==> after.sink == g.sink && after.out == g.out
                && after.dir.entries == g.dir.entries && after.declared == g.declared
        }),
{
    lemma_last_for(g.declared, task_id, name, net_id);
    if is_last_for(g.declared, task_id, name, net_id, k) {
        let j = last_declared_for(g.declared, task_id, name, net_id);
        if j is None {
            assert(g.declared[k].name == name);
        } else if j->Some_0 < k {
            assert(g.declared[k].name == name);
        } else if k < j->Some_0 {
            assert(g.declared[j->Some_0].name == name);
        }
        assert(g.declared.remove(k) =~= g.declared.take(k) + g.declared.skip(k + 1));
    }
    if let Some(j) = last_declared_for(g.declared, task_id, name, net_id) {
        assert(g.declared[j].name == name);
    }
}

/// News changes what the directory knows and nothing else; what was taken in is
/// counted.
pub proof fn law_hears(
    g: ServiceGossipView,
    name: Seq<char>,
    net_id: NetId,
    lamport: u64,
    tombstone: bool,
    now: Duration,
)
    ensures
        ({
            let after = g.hears(name, net_id, lamport, tombstone, now);
            &&& after.dir == g.dir.heard(name, net_id, lamport, tombstone, now)
            &&& after.sink == g.sink
            &&& after.out == g.out
            &&& after.declared == g.declared
            &&& after.current == g.current
            &&& g.dir.accepts(name, net_id, lamport) && g.in_applied < u64::MAX
                ==> after.in_applied == g.in_applied + 1
            &&& !g.dir.accepts(name, net_id, lamport) ==> after.in_applied == g.in_applied
        }),
{
}

/// The entries of an answer are taken in one after the other.
pub proof fn law_hears_all(
    g: ServiceGossipView,
    es: Seq<ServiceSyncEntryView>,
    e: ServiceSyncEntryView,
    now: Duration,
)
    ensures
        g.hears_all(Seq::empty(), now) == g,
        g.hears_all(es.push(e), now) == g.hears_all(es, now).hears(
            e.name,
            e.net_id,
            e.lamport,
            e.tombstone,
            now,
        ),
        as_row(e).name == e.name,
        as_row(e).net_id == e.net_id,
        as_row(e).lamport == e.lamport,
        as_row(e).tombstone == e.tombstone,
{
    assert(es.push(e).drop_last() =~= es);
}

/// What a message does to the directory: an ad makes live, a forget hides, an
/// answer does either for each entry, and mail does nothing.
pub proof fn law_heard_from(g: ServiceGossipView, m: MboxInboundView, now: Duration)
    ensures
        m matches MboxInboundView::ServiceAd(a) ==> heard_from(g, m, now).dir == g.dir.heard(
            a.name,
            a.net_id,
            a.lamport,
            false,
            now,
        ),
        m matches MboxInboundView::ServiceForget(f) ==> heard_from(g, m, now).dir == g.dir.heard(
            f.name,
            f.net_id,
            f.lamport,
            true,
            now,
        ),
        m matches MboxInboundView::ServiceSyncResponse(r) ==> heard_from(g, m, now) == g.hears_all(
            r.entries,
            now,
        ),
        m is MailSend || m is MailDeliveryFailure || m is ServiceSync ==> heard_from(g, m, now)
            == g,
{
}

/// The declarations of a task and those of the others are all there are: each is
/// in one of the two, by its task.
pub proof fn law_split_by_task(ds: Seq<DeclaredView>, task_id: TaskId, d: DeclaredView)
    ensures
        of_task(ds, task_id).len() + of_others(ds, task_id).len() == ds.len(),
        of_task(Seq::empty(), task_id).len() == 0,
        of_others(Seq::empty(), task_id).len() == 0,
        d.task_id == task_id ==> of_task(ds.push(d), task_id) == of_task(ds, task_id).push(d)
            && of_others(ds.push(d), task_id) == of_others(ds, task_id),
        d.task_id != task_id ==> of_others(ds.push(d), task_id) == of_others(ds, task_id).push(d)
            && of_task(ds.push(d), task_id) == of_task(ds, task_id),
    decreases ds.len(),
{
    assert(ds.push(d).drop_last() =~= ds);
    if ds.len() > 0 {
        law_split_by_task(ds.drop_last(), task_id, ds.last());
        assert(ds.drop_last().push(ds.last()) =~= ds);
    }
}

/// A task owns a mailbox once, however often it is recorded.
pub proof fn law_owning(owned: Seq<MboxId>, mbox: MboxId, other: MboxId)
    ensures
        owning(owned, mbox).contains(mbox),
        owned.contains(mbox) ==> owning(owned, mbox) == owned,
        !owned.contains(mbox) ==> owning(owned, mbox).len() == owned.len() + 1,
        other != mbox ==> (owning(owned, mbox).contains(other) <==> owned.contains(other)),
{
    let all = owning(owned, mbox);
    if !owned.contains(mbox) {
        assert(all[owned.len() as int] == mbox);
    }
    if other != mbox {
        if owned.contains(other) {
            let i = choose|i: int| 0 <= i < owned.len() && owned[i] == other;
            assert(all[i] == other);
        }
        if all.contains(other) {
            let i = choose|i: int| 0 <= i < all.len() && all[i] == other;
            assert(owned[i] == other);
        }
    }
}

/// The mailboxes of a task by number.
pub proof fn law_ids_of(ms: Seq<MboxId>, id: u64)
    ensures
        ids_of(ms).contains(id) <==> ms.contains(MboxId(id)),
{
    if ms.contains(MboxId(id)) {
        let i = choose|i: int| 0 <= i < ms.len() && ms[i] == MboxId(id);
        assert(ms[i].0 == id);
    }
    if ids_of(ms).contains(id) {
        let i = choose|i: int| 0 <= i < ms.len() && (#[trigger] ms[i]).0 == id;
        assert(ms[i] == MboxId(id));
    }
}

/// What became of a mail: an unknown mailbox before a full one, and nothing to
/// report of one that was taken.
pub proof fn law_failure(sent: bool)
    ensures
        failure(false, sent) == Some(DeliveryFailureReason::UnknownMbox),
        failure(true, false) == Some(DeliveryFailureReason::MboxFull),
        failure(true, true) is None,
{
}

/// The sender's node is told, of the address that it wrote to and of the reason,
/// where replies are on and it is not the own node.
pub proof fn law_bounce(
    replies: bool,
    self_node: Option<NodeId>,
    m: MailSendView,
    known: bool,
    sent: bool,
)
    ensures
        ({
            let r = reply_for(replies, self_node, m, known, sent);
            let owed = replies && self_node != Some(m.from.node) && !(known && sent);
            &&& r is Some <==> owed
            &&& r matches Some((to, f)) ==> to == m.from.node && f.to == m.to && (f.reason
                is UnknownMbox <==> !known) && (f.reason is MboxFull <==> known)
        }),
{
}

/// A local mail that is lost is counted by what it was lost for, and by nothing
/// else.
pub proof fn law_drops(d: Drops, known: bool, sent: bool)
    ensures
        ({
            let after = after_local(d, known, sent);
            &&& after.remote_no_peer == d.remote_no_peer
            &&& known ==> after.local_missing == d.local_missing
            &&& !known && d.local_missing < u64::MAX ==> after.local_missing == d.local_missing + 1
            &&& !known || sent ==> after.local_full == d.local_full
            &&& known && !sent && d.local_full < u64::MAX ==> after.local_full == d.local_full + 1
        }),
{
}

/// A mail to another node carries the address and the payload, and comes from the
/// own node.
pub proof fn law_mail_of(own: NodeId, to: NetId, payload: Seq<u8>)
    ensures
        mail_of(own, to, payload).from.node == own,
        mail_of(own, to, payload).to == to,
        mail_of(own, to, payload).payload == payload,
{
}

/// Each message travels under a kind of its own.
pub proof fn law_message_kinds(m: MboxInboundView)
    ensures
        frame_of(m).kind == match m {
            MboxInboundView::MailSend(_) => 0x0200u16,
            MboxInboundView::MailDeliveryFailure(_) => 0x0201u16,
            MboxInboundView::ServiceAd(_) => 0x0210u16,
            MboxInboundView::ServiceForget(_) => 0x0211u16,
            MboxInboundView::ServiceSync => 0x0212u16,
            MboxInboundView::ServiceSyncResponse(_) => 0x0213u16,
        },
        m is ServiceSync ==> frame_of(m).payload.len() == 0,
{
}

/// A frame of a kind outside the mailbox range is out of range, one of a kind in it
/// that no message has is unknown, and a mail of more than 8 MiB is too large.
pub proof fn law_message_errors(f: FrameView)
    ensures
        mbox_inbound(f) == Err::<MboxInboundView, MboxFrameError>(
            MboxFrameError::OutOfRange { kind: f.kind },
        ) <==> !(0x0200 <= f.kind <= 0x02ff),
        mbox_inbound(f) == Err::<MboxInboundView, MboxFrameError>(
            MboxFrameError::UnknownFrameKind { kind: f.kind },
        ) <==> 0x0200 <= f.kind <= 0x02ff && f.kind != 0x0200 && f.kind != 0x0201 && f.kind
            != 0x0210 && f.kind != 0x0211 && f.kind != 0x0212 && f.kind != 0x0213,
        f.kind == 0x0200 ==> (unpacked::<MailSend>(f.payload) matches Ok(m) ==> (mbox_inbound(
            f,
        ) is Err <==> m.payload.len() > 8 * 1024 * 1024)),
        f.kind == 0x0200 ==> (unpacked::<MailSend>(f.payload) matches Ok(m) ==> (m.payload.len() > 8
            * 1024 * 1024 ==> mbox_inbound(f) is Err && mbox_inbound(f)->Err_0
            is PayloadTooLarge)),
{
}

/// A mail can be sent up to 8 MiB.
pub proof fn law_mail_size(m: MailSendView)
    ensures
        sendable(MboxInboundView::MailSend(m)) <==> m.payload.len() <= 8 * 1024 * 1024,
{
}

/// The number of each reason on the wire.
pub proof fn law_reason_number(r: DeliveryFailureReason)
    ensures
        r.number() == match r {
            DeliveryFailureReason::UnknownMbox => 0u32,
            DeliveryFailureReason::MboxFull => 1u32,
            DeliveryFailureReason::NodeUnreachable => 2u32,
        },
{
}

/// The frames of the ads have theirs, and those of another range or kind are told
/// apart.
pub proof fn law_ad_kinds(ad: NodeAdView, g: AdGossipView, r: AdRequestView, f: FrameView)
    ensures
        ad_frames::node_ad_frame(ad).kind == 0x0100,
        ad_frames::ad_gossip_frame(g).kind == 0x0101,
        ad_frames::request_frame(r).kind == 0x0102,
        !(0x0100 <= f.kind <= 0x01ff) ==> ad_frames::inbound(f) == Err::<
            ad_frames::AdInboundView,
            ad_frames::AdFrameError,
        >(ad_frames::AdFrameError::OutOfRange { kind: f.kind }),
        0x0103 <= f.kind <= 0x01ff ==> ad_frames::inbound(f) == Err::<
            ad_frames::AdInboundView,
            ad_frames::AdFrameError,
        >(ad_frames::AdFrameError::UnknownFrameKind { kind: f.kind }),
        0x0100 <= f.kind <= 0x0102 ==> (ad_frames::inbound(f) matches Err(e) ==> e is Codec),
{
}

/// The number of each kind on the wire: the ads from 0x0100 on, mail from 0x0200,
/// services from 0x0210, files from 0x0400.
pub proof fn law_kind_number(k: FrameKind)
    ensures
        k.number() == match k {
            FrameKind::NodeAd => 0x0100u16,
            FrameKind::AdGossip => 0x0101u16,
            FrameKind::AdRequest => 0x0102u16,
            FrameKind::MailSend => 0x0200u16,
            FrameKind::MailDeliveryFailure => 0x0201u16,
            FrameKind::ServiceAd => 0x0210u16,
            FrameKind::ServiceForget => 0x0211u16,
            FrameKind::ServiceSync => 0x0212u16,
            FrameKind::ServiceSyncResponse => 0x0213u16,
            FrameKind::NineReq => 0x0400u16,
            FrameKind::NineRsp => 0x0401u16,
        },
{
}

} // verus!

//! What holds of declaring and forgetting services.
use crate::ident::{NetId, NodeId};
use crate::mbox::directory::too_long;
use crate::mbox::frames::{
    law_mbox_roundtrip, mbox_inbound, MboxFrameError, MboxInboundView, ServiceAdView,
    ServiceForgetView,
};
use crate::mbox::gossip::{
    ad_frame, forget_frame, last_declared, last_declared_for, DeclaredView, ServiceGossipView,
    TaskContext,
};
use crate::time::Duration;
use vstd::prelude::*;

verus! {

/// Whether the declaration is the task's of the name.
pub open spec fn declares_name(d: DeclaredView, ctx: TaskContext, name: Seq<char>) -> bool {
    d.name == name && d.task_id == ctx.task_id
}

proof fn lemma_last_declared(ds: Seq<DeclaredView>, ctx: TaskContext, name: Seq<char>, i: int)
    requires
        0 <= i < ds.len(),
        declares_name(ds[i], ctx, name),
        forall|j: int| i < j < ds.len() ==> !declares_name(#[trigger] ds[j], ctx, name),
    ensures
        last_declared(ds, ctx.task_id, name) == Some(i),
    decreases ds.len(),
{
    let rest = ds.drop_last();
    if i < ds.len() - 1 {
        assert(!declares_name(ds[ds.len() - 1], ctx, name));
        assert forall|j: int| i < j < rest.len() implies !declares_name(
            #[trigger] rest[j],
            ctx,
            name,
        ) by {
            assert(rest[j] == ds[j]);
        }
        lemma_last_declared(rest, ctx, name, i);
    }
}

proof fn lemma_undeclared(ds: Seq<DeclaredView>, ctx: TaskContext, name: Seq<char>)
    requires
        forall|j: int| 0 <= j < ds.len() ==> !declares_name(#[trigger] ds[j], ctx, name),
    ensures
        last_declared(ds, ctx.task_id, name) is None,
    decreases ds.len(),
{
    if ds.len() > 0 {
        let rest = ds.drop_last();
        assert(!declares_name(ds[ds.len() - 1], ctx, name));
        assert forall|j: int| 0 <= j < rest.len() implies !declares_name(
            #[trigger] rest[j],
            ctx,
            name,
        ) by {
            assert(rest[j] == ds[j]);
        }
        lemma_undeclared(rest, ctx, name);
    }
}

/// Forgetting the only declaration that the current task made of a name hides
/// its mailbox and emits one forget frame, stamped later than the declaration
/// and as the tombstone is; forgetting the name again changes and emits nothing.
pub proof fn law_forget_tells_once(
    g: ServiceGossipView,
    self_node: Option<NodeId>,
    ctx: TaskContext,
    name: Seq<char>,
    i: int,
    now: Duration,
)
    requires
        g.sound(),
        g.dir.clock < u64::MAX,
        g.sink.installed,
        g.current == Some(ctx),
        self_node is Some,
        0 <= i < g.declared.len(),
        declares_name(g.declared[i], ctx, name),
        forall|j: int|
            0 <= j < g.declared.len() && j != i ==> !declares_name(
                #[trigger] g.declared[j],
                ctx,
                name,
            ),
    ensures
        ({
            let after = g.forgets_last(self_node, name, now);
            let net_id = g.declared[i].net_id;
            let stamp = (g.dir.clock + 1) as u64;
            &&& !after.dir.live(name, net_id)
            &&& after.dir.entries[(name, net_id)].lamport == stamp
            &&& stamp > g.declared[i].lamport
            &&& after.sink.queue == g.sink.queue.push(forget_frame(name, net_id, stamp))
            &&& after.declared == g.declared.remove(i)
            &&& forall|node: Option<NodeId>, later: Duration| #[trigger]
                after.forgets_last(node, name, later) == after
        }),
{
    lemma_last_declared(g.declared, ctx, name, i);
    let after = g.forgets_last(self_node, name, now);
    assert forall|j: int| 0 <= j < after.declared.len() implies !declares_name(
        #[trigger] after.declared[j],
        ctx,
        name,
    ) by {
        if j < i {
            assert(after.declared[j] == g.declared[j]);
        } else {
            assert(after.declared[j] == g.declared[j + 1]);
        }
    }
    lemma_undeclared(after.declared, ctx, name);
}

/// The same right after a declaration: what the current task declares under a
/// new name and then forgets is told of once each way.
pub proof fn law_declare_then_forget(
    g: ServiceGossipView,
    node: NodeId,
    ctx: TaskContext,
    name: Seq<char>,
    t1: Duration,
    t2: Duration,
)
    requires
        g.sound(),
        g.dir.clock < u64::MAX - 1,
        g.sink.installed,
        g.current == Some(ctx),
        !too_long(name),
        forall|j: int|
            0 <= j < g.declared.len() ==> !declares_name(#[trigger] g.declared[j], ctx, name),
    ensures
        ({
            let net_id = NetId { node, mbox: ctx.primary_mbox };
            let declared = g.declares(ctx.task_id, name, net_id, t1);
            let after = declared.forgets_last(Some(node), name, t2);
            &&& declared.dir.live(name, net_id)
            &&& !after.dir.live(name, net_id)
            &&& after.declared == g.declared
            &&& after.sink.queue == declared.sink.queue.push(
                forget_frame(name, net_id, (g.dir.clock + 2) as u64),
            )
        }),
{
    let net_id = NetId { node, mbox: ctx.primary_mbox };
    let declared = g.declares(ctx.task_id, name, net_id, t1);
    let i = g.declared.len() as int;
    assert forall|j: int| 0 <= j < declared.declared.len() && j != i implies !declares_name(
        #[trigger] declared.declared[j],
        ctx,
        name,
    ) by {
        assert(declared.declared[j] == g.declared[j]);
    }
    assert(declared.sound()) by {
        assert forall|j: int| 0 <= j < declared.declared.len() implies (
        #[trigger] declared.declared[j]).lamport <= declared.dir.clock && !too_long(
            declared.declared[j].name,
        ) by {
            if j < i {
                assert(declared.declared[j] == g.declared[j]);
            }
        }
    }
    law_forget_tells_once(declared, Some(node), ctx, name, i, t2);
    assert(declared.declared.remove(i) =~= g.declared);
}

/// What one node announces or takes back, another reads as it was sent.
pub proof fn law_news_travels(name: Seq<char>, net_id: NetId, lamport: u64)
    requires
        !too_long(name),
    ensures
        mbox_inbound(ad_frame(name, net_id, lamport)) == Ok::<MboxInboundView, MboxFrameError>(
            MboxInboundView::ServiceAd(ServiceAdView { name, net_id, lamport }),
        ),
        mbox_inbound(forget_frame(name, net_id, lamport)) == Ok::<MboxInboundView, MboxFrameError>(
            MboxInboundView::ServiceForget(ServiceForgetView { name, net_id, lamport }),
        ),
{
    law_mbox_roundtrip(MboxInboundView::ServiceAd(ServiceAdView { name, net_id, lamport }));
    law_mbox_roundtrip(MboxInboundView::ServiceForget(ServiceForgetView { name, net_id, lamport }));
}

/// Forgetting does nothing without a current task, without an own node, and for
/// a name that the current task has not declared.
pub proof fn law_forget_undeclared(
    g: ServiceGossipView,
    self_node: Option<NodeId>,
    name: Seq<char>,
    now: Duration,
)
    requires
        g.current matches Some(ctx) ==> self_node is None || forall|j: int|
            0 <= j < g.declared.len() ==> !declares_name(#[trigger] g.declared[j], ctx, name),
    ensures
        g.forgets_last(self_node, name, now) == g,
{
    if let Some(ctx) = g.current {
        if self_node is Some {
            lemma_undeclared(g.declared, ctx, name);
        }
    }
}

/// A handle that goes away does what forgetting its name does, as long as its
/// declaration is the current task's last of that name.
pub proof fn law_drop_forgets(
    g: ServiceGossipView,
    self_node: Option<NodeId>,
    ctx: TaskContext,
    name: Seq<char>,
    i: int,
    now: Duration,
)
    requires
        g.current == Some(ctx),
        self_node is Some,
        0 <= i < g.declared.len(),
        declares_name(g.declared[i], ctx, name),
        forall|j: int|
            i < j < g.declared.len() ==> !declares_name(#[trigger] g.declared[j], ctx, name),
    ensures
        g.withdraws(ctx.task_id, name, g.declared[i].net_id, now) == g.forgets_last(
            self_node,
            name,
            now,
        ),
{
    lemma_last_declared(g.declared, ctx, name, i);
    lemma_last_declared_for(g.declared, ctx, name, i);
}

proof fn lemma_last_declared_for(ds: Seq<DeclaredView>, ctx: TaskContext, name: Seq<char>, i: int)
    requires
        0 <= i < ds.len(),
        declares_name(ds[i], ctx, name),
        forall|j: int| i < j < ds.len() ==> !declares_name(#[trigger] ds[j], ctx, name),
    ensures
        last_declared_for(ds, ctx.task_id, name, ds[i].net_id) == Some(i),
    decreases ds.len(),
{
    let rest = ds.drop_last();
    if i < ds.len() - 1 {
        assert(!declares_name(ds[ds.len() - 1], ctx, name));
        assert forall|j: int| i < j < rest.len() implies !declares_name(
            #[trigger] rest[j],
            ctx,
            name,
        ) by {
            assert(rest[j] == ds[j]);
        }
        lemma_last_declared_for(rest, ctx, name, i);
    }
}

} // verus!

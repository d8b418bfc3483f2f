//! Service-directory gossip engine.
//! - Outbound: a local declare or forget is broadcast to every peer.
//! - On-connect sync: when a peer comes up it is asked for everything it knows,
//!   and answers with all its entries.
//! - Inbound: the Lamport rules decide. Nothing is passed on: whoever declared
//!   it told everyone.
use crate::ident::{FrameView, MboxId, NetId, NodeId};
use crate::mbox::directory::{
    apply_local_declare, apply_local_forget, apply_remote_ad, apply_remote_forget, is_snapshot,
    retract, snapshot, snapshot_view, too_long, Directory, DirectoryView, Info, Key, OwnedView,
    SnapshotEntryView, TaskId,
};
use crate::mbox::error::ServiceError;
use crate::mbox::frames::{
    encode_service_ad, encode_service_forget, frame_of, MboxInboundView, ServiceAd, ServiceAdView,
    ServiceForget, ServiceForgetView, ServiceSyncEntry, ServiceSyncEntryView, ServiceSyncResponse,
};
use crate::mbox::gossip_emit::{emit, Sink, SinkView};
use crate::mbox::send::{count, counted};
use crate::text::text_eq;
use crate::time::Duration;
use vstd::prelude::*;
use vstd::utf8::encode_utf8;

verus! {

/// Whose services are being declared.
#[derive(Copy, Clone, Debug, PartialEq, Eq, Structural)]
pub struct TaskContext {
    pub task_id: TaskId,
    pub primary_mbox: MboxId,
}

/// A declaration that was not taken back yet.
#[derive(Debug, PartialEq, Eq)]
pub struct Declared {
    pub name: String,
    pub task_id: TaskId,
    pub net_id: NetId,
    pub lamport: u64,
}

/// What a [`Declared`] says.
pub struct DeclaredView {
    pub name: Seq<char>,
    pub task_id: TaskId,
    pub net_id: NetId,
    pub lamport: u64,
}

impl View for Declared {
    type V = DeclaredView;

    open spec fn view(&self) -> DeclaredView {
        DeclaredView {
            name: self.name@,
            task_id: self.task_id,
            net_id: self.net_id,
            lamport: self.lamport,
        }
    }
}

/// What a list of declarations says.
pub open spec fn declared_view(v: Seq<Declared>) -> Seq<DeclaredView> {
    Seq::new(v.len(), |i: int| v[i]@)
}

/// The gossip engine of one node.
pub struct ServiceGossip {
    pub dir: Directory,
    /// Oldest first.
    pub declared: Vec<Declared>,
    pub current: Option<TaskContext>,
    pub sink: Sink,
    /// Frames broadcast.
    pub out: u64,
    /// Inbound news that changed the directory.
    pub in_applied: u64,
}

/// What a [`ServiceGossip`] holds.
pub struct ServiceGossipView {
    pub dir: DirectoryView,
    pub declared: Seq<DeclaredView>,
    pub current: Option<TaskContext>,
    pub sink: SinkView,
    pub out: u64,
    pub in_applied: u64,
}

impl View for ServiceGossip {
    type V = ServiceGossipView;

    open spec fn view(&self) -> ServiceGossipView {
        ServiceGossipView {
            dir: self.dir@,
            declared: declared_view(self.declared@),
            current: self.current,
            sink: self.sink@,
            out: self.out,
            in_applied: self.in_applied,
        }
    }
}

/// The frame that announces a service.
pub open spec fn ad_frame(name: Seq<char>, net_id: NetId, lamport: u64) -> FrameView {
    frame_of(MboxInboundView::ServiceAd(ServiceAdView { name, net_id, lamport }))
}

/// The frame that takes a service back.
pub open spec fn forget_frame(name: Seq<char>, net_id: NetId, lamport: u64) -> FrameView {
    frame_of(MboxInboundView::ServiceForget(ServiceForgetView { name, net_id, lamport }))
}

/// The position of the task's last declaration of the name.
pub open spec fn last_declared(ds: Seq<DeclaredView>, task_id: TaskId, name: Seq<char>) -> Option<
    int,
>
    decreases ds.len(),
{
    if ds.len() == 0 {
        None
    } else if ds.last().name == name && ds.last().task_id == task_id {
        Some(ds.len() - 1)
    } else {
        last_declared(ds.drop_last(), task_id, name)
    }
}

/// The position of the task's last declaration of the mailbox under the name.
pub open spec fn last_declared_for(
    ds: Seq<DeclaredView>,
    task_id: TaskId,
    name: Seq<char>,
    net_id: NetId,
) -> Option<int>
    decreases ds.len(),
{
    if ds.len() == 0 {
        None
    } else if ds.last().name == name && ds.last().task_id == task_id && ds.last().net_id == net_id {
        Some(ds.len() - 1)
    } else {
        last_declared_for(ds.drop_last(), task_id, name, net_id)
    }
}

impl ServiceGossipView {
    /// Whether the declarations are such as can be made: none is from the
    /// future, so that the clock is at least at its stamp, and no name is too
    /// long.
    pub open spec fn sound(self) -> bool {
        forall|i: int|
            0 <= i < self.declared.len() ==> (#[trigger] self.declared[i]).lamport
                <= self.dir.clock && !too_long(self.declared[i].name)
    }

    /// The engine after a frame was broadcast.
    pub open spec fn broadcast(self, f: FrameView) -> ServiceGossipView {
        ServiceGossipView { sink: self.sink.emitted(f), out: counted(self.out), ..self }
    }

    /// The engine after a service was declared by a task.
    pub open spec fn declares(
        self,
        task_id: TaskId,
        name: Seq<char>,
        net_id: NetId,
        now: Duration,
    ) -> ServiceGossipView {
        let lamport = (self.dir.clock + 1) as u64;
        ServiceGossipView {
            dir: self.dir.declared(task_id, name, net_id, now),
            declared: self.declared.push(DeclaredView { name, task_id, net_id, lamport }),
            ..self
        }.broadcast(ad_frame(name, net_id, lamport))
    }

    /// The engine after a declared service was forgotten and everyone told, with
    /// the stamp of the tombstone. A name that is too long was never declared.
    pub open spec fn forgets(
        self,
        task_id: TaskId,
        name: Seq<char>,
        net_id: NetId,
        now: Duration,
    ) -> ServiceGossipView {
        if too_long(name) {
            self
        } else {
            let lamport = (self.dir.clock + 1) as u64;
            ServiceGossipView {
                dir: self.dir.retracted(task_id, name, net_id, now),
                ..self
            }.broadcast(forget_frame(name, net_id, lamport))
        }
    }

    /// The engine after the handle of a declaration went away: the declaration is
    /// gone, and the service forgotten and everyone told. Where the declaration
    /// was gone already, a service that is live all the same is forgotten and
    /// told of, and there is nothing to tell of one that is not.
    pub open spec fn withdraws(
        self,
        task_id: TaskId,
        name: Seq<char>,
        net_id: NetId,
        now: Duration,
    ) -> ServiceGossipView {
        match last_declared_for(self.declared, task_id, name, net_id) {
            Some(i) => ServiceGossipView {
                declared: self.declared.remove(i),
                ..self
            }.forgets(task_id, name, net_id, now),
            None => if too_long(name) {
                self
            } else if self.dir.live(name, net_id) {
                self.forgets(task_id, name, net_id, now)
            } else {
                ServiceGossipView {
                    dir: self.dir.forgotten(task_id, name, net_id, now),
                    ..self
                }
            },
        }
    }

    /// The engine after the current task forgot its last declaration of a name.
    pub open spec fn forgets_last(
        self,
        self_node: Option<NodeId>,
        name: Seq<char>,
        now: Duration,
    ) -> ServiceGossipView {
        match (self.current, self_node) {
            (Some(ctx), Some(_)) => match last_declared(self.declared, ctx.task_id, name) {
                None => self,
                Some(i) => ServiceGossipView {
                    declared: self.declared.remove(i),
                    ..self
                }.forgets(ctx.task_id, name, self.declared[i].net_id, now),
            },
            _ => self,
        }
    }

    /// The engine after news came in.
    pub open spec fn hears(
        self,
        name: Seq<char>,
        net_id: NetId,
        lamport: u64,
        tombstone: bool,
        now: Duration,
    ) -> ServiceGossipView {
        ServiceGossipView {
            dir: self.dir.heard(name, net_id, lamport, tombstone, now),
            in_applied: if self.dir.accepts(name, net_id, lamport) {
                counted(self.in_applied)
            } else {
                self.in_applied
            },
            ..self
        }
    }

    /// The engine after the first `k` entries of an answer came in.
    pub open spec fn hears_all(
        self,
        es: Seq<ServiceSyncEntryView>,
        now: Duration,
    ) -> ServiceGossipView
        decreases es.len(),
    {
        if es.len() == 0 {
            self
        } else {
            let e = es.last();
            self.hears_all(es.drop_last(), now).hears(e.name, e.net_id, e.lamport, e.tombstone, now)
        }
    }
}

impl ServiceGossip {
    pub open spec fn wf(&self) -> bool {
        self.dir.wf() && self@.sound()
    }

    pub fn new() -> (g: Self)
        ensures
            g.wf(),
            g@.dir.entries == Map::<Key, Info>::empty(),
            g@.dir.by_task == Seq::<OwnedView>::empty(),
            g@.dir.cursors == Map::<Seq<char>, usize>::empty(),
            g@.dir.clock == 0,
            g@.declared == Seq::<DeclaredView>::empty(),
            g@.current is None,
            g@.sink == (SinkView { installed: false, queue: Seq::empty(), unsunk: 0 }),
            g@.out == 0,
            g@.in_applied == 0,
    {
        let g = ServiceGossip {
            dir: Directory::new(),
            declared: Vec::new(),
            current: None,
            sink: Sink::new(),
            out: 0,
            in_applied: 0,
        };
        assert(g@.declared =~= Seq::empty());
        g
    }

    fn broadcast_ad(&mut self, ad: &ServiceAd)
        ensures
            final(self)@ == old(self)@.broadcast(ad_frame(ad.name@, ad.net_id, ad.lamport)),
            final(self).dir == old(self).dir,
            final(self).declared == old(self).declared,
    {
        if let Ok(frame) = encode_service_ad(ad) {
            self.out = count(self.out);
            emit(&mut self.sink, frame);
        }
    }

    fn broadcast_forget(&mut self, f: &ServiceForget)
        ensures
            final(self)@ == old(self)@.broadcast(forget_frame(f.name@, f.net_id, f.lamport)),
            final(self).dir == old(self).dir,
            final(self).declared == old(self).declared,
    {
        if let Ok(frame) = encode_service_forget(f) {
            self.out = count(self.out);
            emit(&mut self.sink, frame);
        }
    }

    /// Forgets a declared service and tells everyone.
    pub fn forget_and_tell(&mut self, task_id: TaskId, name: &str, net_id: NetId, now: Duration)
        requires
            old(self).wf(),
            old(self)@.dir.clock < u64::MAX,
        ensures
            final(self).wf(),
            final(self)@ == old(self)@.forgets(task_id, name@, net_id, now),
            final(self).declared == old(self).declared,
    {
        if let Ok(lamport) = retract(&mut self.dir, task_id, name, net_id, now) {
            self.broadcast_forget(&ServiceForget { name: name.to_owned(), net_id, lamport });
        }
    }

    /// Takes a declaration back, forgets its service and tells everyone; without
    /// the declaration, tells only of a service that was live.
    fn withdraw(&mut self, task_id: TaskId, name: &str, net_id: NetId, now: Duration)
        requires
            old(self).wf(),
            old(self)@.dir.clock < u64::MAX,
        ensures
            final(self).wf(),
            final(self)@ == old(self)@.withdraws(task_id, name@, net_id, now),
    {
        let ghost all = declared_view(self.declared@);
        let mut i: usize = self.declared.len();
        assert(all.take(i as int) =~= all);
        while i > 0
            invariant
                i <= self.declared@.len(),
                all == declared_view(self.declared@),
                last_declared_for(all, task_id, name@, net_id) == last_declared_for(
                    all.take(i as int),
                    task_id,
                    name@,
                    net_id,
                ),
                self.wf(),
                *self == *old(self),
                old(self)@.dir.clock < u64::MAX,
            decreases i,
        {
            i = i - 1;
            let ghost part = all.take(i + 1);
            assert(part.last() == self.declared@[i as int]@);
            assert(part.drop_last() =~= all.take(i as int));
            let hit = self.declared[i].task_id == task_id && self.declared[i].net_id == net_id
                && text_eq(self.declared[i].name.as_str(), name);
            if hit {
                self.declared.remove(i);
                assert(declared_view(self.declared@) =~= all.remove(i as int));
                self.forget_and_tell(task_id, name, net_id, now);
                return;
            }
        }
        let ghost before = self@;
        if let Ok((lamport, changed)) = apply_local_forget(
            &mut self.dir,
            task_id,
            name,
            net_id,
            now,
        ) {
            if changed {
                assert(self@.dir.entries =~= before.dir.retracted(
                    task_id,
                    name@,
                    net_id,
                    now,
                ).entries);
                self.broadcast_forget(&ServiceForget { name: name.to_owned(), net_id, lamport });
            }
        }
    }
}

/// Installs the current task's identity.
pub fn set_current_task(g: &mut ServiceGossip, task_id: TaskId, primary_mbox: MboxId)
    ensures
        final(g)@ == (ServiceGossipView {
            current: Some(TaskContext { task_id, primary_mbox }),
            ..old(g)@
        }),
        old(g).wf() ==> final(g).wf(),
{
    g.current = Some(TaskContext { task_id, primary_mbox });
}

/// Clears the current task.
pub fn clear_current_task(g: &mut ServiceGossip)
    ensures
        final(g)@ == (ServiceGossipView { current: None, ..old(g)@ }),
        old(g).wf() ==> final(g).wf(),
{
    g.current = None;
}

/// Handle of a declared service. When it goes away, the service is forgotten.
#[derive(Debug, PartialEq, Eq)]
pub struct ServiceHandle {
    pub name: String,
    pub task_id: TaskId,
    pub net_id: NetId,
    pub forgotten: bool,
}

/// Declare `name` as a service backed by the current task's primary mailbox,
/// and tell everyone. Without a current task, or without an own node, the error
/// carries a length that no name has.
pub fn service_declare(
    g: &mut ServiceGossip,
    self_node: Option<NodeId>,
    name: &str,
    now: Duration,
) -> (r: Result<ServiceHandle, ServiceError>)
    requires
        old(g).wf(),
        old(g)@.dir.clock < u64::MAX,
    ensures
        final(g).wf(),
        match (old(g)@.current, self_node) {
            (None, _) => {
                &&& r == Err::<ServiceHandle, ServiceError>(ServiceError::NameTooLong(usize::MAX))
                &&& final(g)@ == old(g)@
            },
            (Some(_), None) => {
                &&& r == Err::<ServiceHandle, ServiceError>(
                    ServiceError::NameTooLong((usize::MAX - 1) as usize),
                )
                &&& final(g)@ == old(g)@
            },
            (Some(ctx), Some(node)) => if too_long(name@) {
                &&& r == Err::<ServiceHandle, ServiceError>(
                    ServiceError::NameTooLong(encode_utf8(name@).len() as usize),
                )
                &&& final(g)@ == old(g)@
            } else {
                let net_id = NetId { node, mbox: ctx.primary_mbox };
                &&& r is Ok
                &&& r->Ok_0.name@ == name@
                &&& r->Ok_0.task_id == ctx.task_id
                &&& r->Ok_0.net_id == net_id
                &&& !r->Ok_0.forgotten
                &&& final(g)@ == old(g)@.declares(ctx.task_id, name@, net_id, now)
            },
        },
{
    let ctx = match g.current {
        Some(c) => c,
        None => {
            return Err(ServiceError::NameTooLong(usize::MAX));
        },
    };
    let node = match self_node {
        Some(n) => n,
        None => {
            return Err(ServiceError::NameTooLong(usize::MAX - 1));
        },
    };
    let net_id = NetId { node, mbox: ctx.primary_mbox };
    let lamport: u64 = match apply_local_declare(&mut g.dir, ctx.task_id, name, net_id, now) {
        Ok((l, _)) => l,
        Err(e) => {
            return Err(e);
        },
    };
    let ghost had = g.declared@;
    let d = Declared { name: name.to_owned(), task_id: ctx.task_id, net_id, lamport };
    g.declared.push(d);
    assert(declared_view(g.declared@) =~= declared_view(had).push(d@));
    g.broadcast_ad(&ServiceAd { name: name.to_owned(), net_id, lamport });
    Ok(ServiceHandle { name: name.to_owned(), task_id: ctx.task_id, net_id, forgotten: false })
}

/// Idempotent local forget by name. If the current task declared the name more
/// than once, forgets the most recent declaration.
pub fn service_forget(
    g: &mut ServiceGossip,
    self_node: Option<NodeId>,
    name: &str,
    now: Duration,
)
    requires
        old(g).wf(),
        old(g)@.dir.clock < u64::MAX,
    ensures
        final(g).wf(),
        final(g)@ == old(g)@.forgets_last(self_node, name@, now),
{
    let ctx = match g.current {
        Some(c) => c,
        None => {
            return;
        },
    };
    if self_node.is_none() {
        return;
    }
    let ghost all = declared_view(g.declared@);
    let mut i: usize = g.declared.len();
    assert(all.take(i as int) =~= all);
    while i > 0
        invariant
            i <= g.declared@.len(),
            all == declared_view(g.declared@),
            last_declared(all, ctx.task_id, name@) == last_declared(
                all.take(i as int),
                ctx.task_id,
                name@,
            ),
            g.wf(),
            *g == *old(g),
            old(g)@.dir.clock < u64::MAX,
            old(g)@.current == Some(ctx),
            self_node is Some,
        decreases i,
    {
        i = i - 1;
        let ghost now_part = all.take(i + 1);
        assert(now_part.last() == g.declared@[i as int]@);
        assert(now_part.drop_last() =~= all.take(i as int));
        let hit = g.declared[i].task_id == ctx.task_id && text_eq(
            g.declared[i].name.as_str(),
            name,
        );
        if hit {
            let d = g.declared.remove(i);
            assert(declared_view(g.declared@) =~= all.remove(i as int));
            assert(d@ == all[i as int]);
            g.forget_and_tell(ctx.task_id, name, d.net_id, now);
            return;
        }
    }
}

impl ServiceHandle {
    pub fn name(&self) -> (r: &str)
        ensures
            r@ == self.name@,
    {
        self.name.as_str()
    }

    pub fn net_id(&self) -> (r: NetId)
        ensures
            r == self.net_id,
    {
        self.net_id
    }

    /// Explicit forget: the service is forgotten and everyone told, with the
    /// second of two stamps. Nothing is left to do when the handle goes away; the
    /// declaration stays listed until it is forgotten by name or its task exits.
    pub fn forget(self, g: &mut ServiceGossip, now: Duration)
        requires
            old(g).wf(),
            old(g)@.dir.clock < u64::MAX - 1,
        ensures
            final(g).wf(),
            final(g)@ == if too_long(self.name@) {
                old(g)@
            } else {
                ServiceGossipView {
                    dir: old(g)@.dir.forgotten(self.task_id, self.name@, self.net_id, now),
                    ..old(g)@
                }.forgets(self.task_id, self.name@, self.net_id, now)
            },
    {
        let _ = apply_local_forget(&mut g.dir, self.task_id, self.name.as_str(), self.net_id, now);
        g.forget_and_tell(self.task_id, self.name.as_str(), self.net_id, now);
    }

    /// What happens when the handle goes away: the service is forgotten as
    /// [`service_forget`] forgets it, unless it was already.
    pub fn on_drop(&self, g: &mut ServiceGossip, now: Duration)
        requires
            old(g).wf(),
            old(g)@.dir.clock < u64::MAX,
        ensures
            final(g).wf(),
            final(g)@ == if self.forgotten {
                old(g)@
            } else {
                old(g)@.withdraws(self.task_id, self.name@, self.net_id, now)
            },
    {
        if !self.forgotten {
            g.withdraw(self.task_id, self.name.as_str(), self.net_id, now);
        }
    }
}

/// An inbound ad. Applies the Lamport rules; does not pass it on.
pub fn on_inbound_ad(g: &mut ServiceGossip, ad: &ServiceAd, now: Duration)
    requires
        old(g).wf(),
    ensures
        final(g).wf(),
        final(g)@ == old(g)@.hears(ad.name@, ad.net_id, ad.lamport, false, now),
{
    if apply_remote_ad(&mut g.dir, ad.name.as_str(), ad.net_id, ad.lamport, now) {
        g.in_applied = count(g.in_applied);
    }
}

/// An inbound forget. Applies the Lamport rules; does not pass it on.
pub fn on_inbound_forget(g: &mut ServiceGossip, f: &ServiceForget, now: Duration)
    requires
        old(g).wf(),
    ensures
        final(g).wf(),
        final(g)@ == old(g)@.hears(f.name@, f.net_id, f.lamport, true, now),
{
    if apply_remote_forget(&mut g.dir, f.name.as_str(), f.net_id, f.lamport, now) {
        g.in_applied = count(g.in_applied);
    }
}

/// An entry of an answer as a snapshot row.
pub open spec fn as_row(e: ServiceSyncEntryView) -> SnapshotEntryView {
    SnapshotEntryView {
        name: e.name,
        net_id: e.net_id,
        lamport: e.lamport,
        tombstone: e.tombstone,
    }
}

/// Whether the entries of an answer to a sync are everything that the directory
/// knows.
pub open spec fn answers_sync(d: DirectoryView, es: Seq<ServiceSyncEntryView>) -> bool {
    is_snapshot(d.entries, es.map_values(|e: ServiceSyncEntryView| as_row(e)))
}

/// The answer to a peer that comes up: every entry, live and tombstoned.
pub fn build_sync_response(g: &ServiceGossip) -> (r: ServiceSyncResponse)
    requires
        g.wf(),
    ensures
        answers_sync(g@.dir, r@.entries),
{
    let rows = snapshot(&g.dir);
    let ghost all = snapshot_view(rows@);
    let mut entries: Vec<ServiceSyncEntry> = Vec::new();
    let mut i: usize = 0;
    while i < rows.len()
        invariant
            i <= rows@.len(),
            all == snapshot_view(rows@),
            entries@.len() == i,
            forall|k: int| 0 <= k < i ==> as_row(#[trigger] entries@[k]@) == all[k],
        decreases rows@.len() - i,
    {
        let row = &rows[i];
        assert(all[i as int] == row@);
        entries.push(
            ServiceSyncEntry {
                name: row.name.clone(),
                net_id: row.net_id,
                lamport: row.lamport,
                tombstone: row.tombstone,
            },
        );
        i = i + 1;
    }
    let r = ServiceSyncResponse { entries };
    assert(r@.entries.map_values(|e: ServiceSyncEntryView| as_row(e)) =~= all);
    r
}

/// The answer of a peer: each entry by the Lamport rules, tombstones as forgets.
pub fn on_inbound_sync_response(g: &mut ServiceGossip, resp: &ServiceSyncResponse, now: Duration)
    requires
        old(g).wf(),
    ensures
        final(g).wf(),
        final(g)@ == old(g)@.hears_all(resp@.entries, now),
{
    let ghost all = resp@.entries;
    let mut i: usize = 0;
    assert(all.take(0) =~= Seq::empty());
    while i < resp.entries.len()
        invariant
            i <= resp.entries@.len(),
            all == resp@.entries,
            all.len() == resp.entries@.len(),
            g.wf(),
            g@ == old(g)@.hears_all(all.take(i as int), now),
        decreases resp.entries@.len() - i,
    {
        let e = &resp.entries[i];
        assert(all.take(i + 1).drop_last() =~= all.take(i as int));
        assert(all.take(i + 1).last() == e@);
        let applied = if e.tombstone {
            apply_remote_forget(&mut g.dir, e.name.as_str(), e.net_id, e.lamport, now)
        } else {
            apply_remote_ad(&mut g.dir, e.name.as_str(), e.net_id, e.lamport, now)
        };
        if applied {
            g.in_applied = count(g.in_applied);
        }
        i = i + 1;
    }
    assert(all.take(i as int) =~= all);
}

} // verus!

//! cgroup-v2 hierarchy: what is written where. `classicd.slice/` is laid down
//! once at daemon startup; per-task `.scope` directories are created before fork
//! with cpu/memory/pids controllers enabled and `max` limits.
//!
//! The work is given as a list of steps; whoever has the file system carries
//! them out in order and stops at the first that fails.
use crate::ident::MboxId;
use crate::render::{dec, dec_text, signed_dec, signed_text};
use vstd::prelude::*;
use vstd::string::StringExecFns;

verus! {

/// Bound on per-task PID count.
pub const PIDS_MAX: u32 = 1024;

/// One step on the file system. Paths are relative to its root.
#[derive(Debug, PartialEq, Eq)]
pub enum Step {
    /// Create the directory and its parents.
    CreateDir(String),
    /// Write the text to the file.
    Write(String, String),
    /// Remove the directory.
    RemoveDir(String),
}

/// What a [`Step`] says.
pub enum StepView {
    CreateDir(Seq<char>),
    Write(Seq<char>, Seq<char>),
    RemoveDir(Seq<char>),
}

impl View for Step {
    type V = StepView;

    open spec fn view(&self) -> StepView {
        match *self {
            Step::CreateDir(p) => StepView::CreateDir(p@),
            Step::Write(p, t) => StepView::Write(p@, t@),
            Step::RemoveDir(p) => StepView::RemoveDir(p@),
        }
    }
}

/// What a list of steps says.
pub open spec fn steps_view(v: Seq<Step>) -> Seq<StepView> {
    Seq::new(v.len(), |i: int| v[i]@)
}

/// The controllers switched on for the subtree, as the kernel reads them.
pub const SUBTREE_CONTROL: &'static str = "+cpu +memory +pids\n";

/// The cgroup-v2 mount, relative to the root.
pub const CGROUP_REL: &'static str = "sys/fs/cgroup";

/// The slice of all tasks.
pub open spec fn slice_path() -> Seq<char> {
    CGROUP_REL@ + "/classicd.slice"@
}

/// The scope of one task.
pub open spec fn scope_path(mbox: MboxId) -> Seq<char> {
    slice_path() + "/task-"@ + dec(mbox.0 as nat) + ".scope"@
}

fn joined(dir: &str, name: &str) -> (p: String)
    ensures
        p@ == dir@ + name@,
{
    let mut p = dir.to_owned();
    p.append(name);
    p
}

/// The slice of all tasks.
pub fn slice_rel() -> (p: String)
    ensures
        p@ == slice_path(),
{
    joined(CGROUP_REL, "/classicd.slice")
}

/// The scope of one task.
pub fn scope_rel(mbox: MboxId) -> (p: String)
    ensures
        p@ == scope_path(mbox),
{
    let mut p = slice_rel();
    p.append("/task-");
    p.append(dec_text(mbox.0).as_str());
    p.append(".scope");
    p
}

/// One-time daemon-startup setup. Re-running on an existing hierarchy writes
/// the same bytes to both control files, which the kernel accepts as a
/// re-statement.
pub fn ensure_slice() -> (r: Vec<Step>)
    ensures
        steps_view(r@) == seq![
            StepView::CreateDir(slice_path()),
            StepView::Write(CGROUP_REL@ + "/cgroup.subtree_control"@, SUBTREE_CONTROL@),
            StepView::Write(slice_path() + "/cgroup.subtree_control"@, SUBTREE_CONTROL@),
        ],
{
    let mut steps: Vec<Step> = Vec::new();
    let slice = slice_rel();
    let top = joined(CGROUP_REL, "/cgroup.subtree_control");
    let inner = joined(slice.as_str(), "/cgroup.subtree_control");
    steps.push(Step::CreateDir(slice));
    steps.push(Step::Write(top, SUBTREE_CONTROL.to_owned()));
    steps.push(Step::Write(inner, SUBTREE_CONTROL.to_owned()));
    assert(steps_view(steps@) =~= seq![
        StepView::CreateDir(slice_path()),
        StepView::Write(CGROUP_REL@ + "/cgroup.subtree_control"@, SUBTREE_CONTROL@),
        StepView::Write(slice_path() + "/cgroup.subtree_control"@, SUBTREE_CONTROL@),
    ]);
    steps
}

/// The steps that make a task's scope: the directory, `max`/`max`/`1024`
/// controller limits, and the helper's pid so that any later fork is born
/// inside the cgroup.
pub open spec fn scope_steps(mbox: MboxId, helper_pid: i32) -> Seq<StepView> {
    let scope = scope_path(mbox);
    seq![
        StepView::CreateDir(scope),
        StepView::Write(scope + "/memory.max"@, "max\n"@),
        StepView::Write(scope + "/cpu.max"@, "max\n"@),
        StepView::Write(scope + "/pids.max"@, dec(PIDS_MAX as nat) + "\n"@),
        StepView::Write(scope + "/cgroup.procs"@, signed_dec(helper_pid as int) + "\n"@),
    ]
}

/// A task's scope directory. It is removed once: when it is torn down or when
/// it is dropped.
#[derive(Debug, PartialEq, Eq)]
pub struct ScopeHandle {
    pub rel_path: String,
    /// Whether the scope was torn down.
    pub consumed: bool,
}

/// The steps that make a task's scope, and the handle to it once they are done.
pub fn create_scope(mbox: MboxId, helper_pid: i32) -> (r: (Vec<Step>, ScopeHandle))
    ensures
        steps_view(r.0@) == scope_steps(mbox, helper_pid),
        r.1.rel_path@ == scope_path(mbox),
        !r.1.consumed,
{
    let scope = scope_rel(mbox);
    let mut pids = dec_text(PIDS_MAX as u64);
    pids.append("\n");
    let mut pid = signed_text(helper_pid);
    pid.append("\n");
    let mut steps: Vec<Step> = Vec::new();
    steps.push(Step::CreateDir(scope.clone()));
    steps.push(Step::Write(joined(scope.as_str(), "/memory.max"), "max\n".to_owned()));
    steps.push(Step::Write(joined(scope.as_str(), "/cpu.max"), "max\n".to_owned()));
    steps.push(Step::Write(joined(scope.as_str(), "/pids.max"), pids));
    steps.push(Step::Write(joined(scope.as_str(), "/cgroup.procs"), pid));
    assert(steps_view(steps@) =~= scope_steps(mbox, helper_pid));
    (steps, ScopeHandle { rel_path: scope, consumed: false })
}

impl ScopeHandle {
    /// What is left to do when the handle goes away.
    pub open spec fn on_drop(&self) -> Option<StepView> {
        if self.consumed {
            None
        } else {
            Some(StepView::RemoveDir(self.rel_path@))
        }
    }

    pub fn rel_path(&self) -> (p: &str)
        ensures
            p@ == self.rel_path@,
    {
        self.rel_path.as_str()
    }

    /// Explicit teardown: the step that removes the directory. Nothing is left
    /// to do afterwards.
    pub fn teardown(&mut self) -> (s: Step)
        ensures
            s@ == StepView::RemoveDir(old(self).rel_path@),
            final(self).rel_path@ == old(self).rel_path@,
            final(self).on_drop() is None,
    {
        self.consumed = true;
        Step::RemoveDir(self.rel_path.clone())
    }

    /// What is left to do when the handle goes away: removing the directory,
    /// unless it was torn down.
    pub fn drop_step(&self) -> (s: Option<Step>)
        ensures
            match self.on_drop() {
                None => s is None,
                Some(v) => s is Some && s->Some_0@ == v,
            },
    {
        if self.consumed {
            None
        } else {
            Some(Step::RemoveDir(self.rel_path.clone()))
        }
    }
}

/// Two tasks never share a scope.
pub proof fn law_scopes_distinct(a: MboxId, b: MboxId)
    requires
        scope_path(a) == scope_path(b),
    ensures
        a == b,
{
    let head = slice_path() + "/task-"@;
    let x = dec(a.0 as nat);
    let y = dec(b.0 as nat);
    let tail = ".scope"@;
    let p = scope_path(a);
    assert(p.len() == head.len() + x.len() + tail.len());
    assert(p.len() == head.len() + y.len() + tail.len());
    assert(x =~= p.subrange(head.len() as int, (head.len() + x.len()) as int));
    assert(y =~= scope_path(b).subrange(head.len() as int, (head.len() + y.len()) as int));
    crate::render::lemma_dec_injective(a.0 as nat, b.0 as nat);
}

} // verus!

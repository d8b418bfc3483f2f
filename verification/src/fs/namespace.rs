//! Per-spawn namespace assembly. Mounts a local root plus any number of remote
//! bind-mounts into a single rooted tree, which is then surfaced under
//! `/run/classic/ns/<MboxId>`.
use crate::ident::{MboxId, NodeId};
use crate::render::{dec, dec_text};
use crate::scan::{pieces, split, split_all};
use crate::text::{chars_of, same_chars, spells, text_of};
use vstd::prelude::*;
use vstd::string::StringExecFns;

verus! {

/// Source of one mount inside an assembled namespace: the daemon's own tree, or
/// a client of a remote one.
pub enum MountSource<T, C> {
    Local(T),
    Remote {
        node: NodeId,
        client: C,
        /// Path on the remote root the mount projects from. Empty means "the
        /// remote's root".
        remote_root: String,
    },
}

/// A wish to see another node's tree.
#[derive(Debug, PartialEq, Eq)]
pub struct BindRemote {
    pub node: NodeId,
    /// Absolute, non-root mount point inside the assembled namespace.
    pub at: String,
}

/// What a spawn asks for.
pub struct SpawnSpec {
    pub mbox: MboxId,
    pub bind_remote: Vec<BindRemote>,
}

/// Why a namespace could not be assembled.
#[derive(Debug, PartialEq, Eq)]
pub enum NamespaceError {
    /// The mount point is relative or the root.
    BadMountPoint,
    DuplicateMountPoint(String),
    SelfBind(NodeId),
    RemoteAttachFailed(NodeId),
}

/// What a [`NamespaceError`] says.
pub enum NamespaceErrorView {
    BadMountPoint,
    DuplicateMountPoint(Seq<char>),
    SelfBind(NodeId),
    RemoteAttachFailed(NodeId),
}

impl View for NamespaceError {
    type V = NamespaceErrorView;

    open spec fn view(&self) -> NamespaceErrorView {
        match *self {
            NamespaceError::BadMountPoint => NamespaceErrorView::BadMountPoint,
            NamespaceError::DuplicateMountPoint(p) => NamespaceErrorView::DuplicateMountPoint(p@),
            NamespaceError::SelfBind(n) => NamespaceErrorView::SelfBind(n),
            NamespaceError::RemoteAttachFailed(n) => NamespaceErrorView::RemoteAttachFailed(n),
        }
    }
}

/// What came of an attempt to reach a remote.
pub enum Attach<C> {
    /// It is alive; this is the client for it.
    Attached(C),
    /// There is no client for it.
    Unresolved(NamespaceError),
    /// There is a client, but the remote did not let it attach.
    Refused,
}

/// One mount.
pub struct Mount<T, C> {
    pub at: String,
    pub source: MountSource<T, C>,
}

/// What a [`MountSource`] says.
pub enum SourceView<T, C> {
    Local(T),
    Remote { node: NodeId, client: C, remote_root: Seq<char> },
}

/// What a [`Mount`] says.
pub struct MountView<T, C> {
    pub at: Seq<char>,
    pub source: SourceView<T, C>,
}

impl<T, C> View for Mount<T, C> {
    type V = MountView<T, C>;

    open spec fn view(&self) -> MountView<T, C> {
        MountView {
            at: self.at@,
            source: match self.source {
                MountSource::Local(t) => SourceView::Local(t),
                MountSource::Remote { node, client, remote_root } => SourceView::Remote {
                    node,
                    client,
                    remote_root: remote_root@,
                },
            },
        }
    }
}

/// What a list of mounts says.
pub open spec fn mounts_view<T, C>(v: Seq<Mount<T, C>>) -> Seq<MountView<T, C>> {
    Seq::new(v.len(), |i: int| v[i]@)
}

/// An assembled namespace. Mounts come deepest first.
pub struct Namespace<T, C> {
    pub mbox: MboxId,
    pub mounts: Vec<Mount<T, C>>,
    /// Where the namespace is surfaced.
    pub fuse_mountpoint: String,
}

/// Whether a piece of a path names something: repeated slashes and `.` do not.
pub open spec fn names(piece: Seq<char>) -> bool {
    piece.len() > 0 && piece != "."@
}

/// The pieces that name something.
pub open spec fn naming(ps: Seq<Seq<char>>) -> Seq<Seq<char>>
    decreases ps.len(),
{
    if ps.len() == 0 {
        Seq::empty()
    } else if names(ps.last()) {
        naming(ps.drop_last()).push(ps.last())
    } else {
        naming(ps.drop_last())
    }
}

/// The elements of a path.
pub open spec fn parts(path: Seq<char>) -> Seq<Seq<char>> {
    naming(split(path, '/'))
}

/// Whether a path starts at the root.
pub open spec fn absolute(path: Seq<char>) -> bool {
    path.len() > 0 && path[0] == '/'
}

/// The elements joined to an absolute path.
pub open spec fn joined(ps: Seq<Seq<char>>) -> Seq<char>
    decreases ps.len(),
{
    if ps.len() == 0 {
        "/"@
    } else if ps.len() == 1 {
        "/"@ + ps[0]
    } else {
        joined(ps.drop_last()) + "/"@ + ps.last()
    }
}

/// Whether one list of elements starts with another.
pub open spec fn leads(prefix: Seq<Seq<char>>, ps: Seq<Seq<char>>) -> bool {
    prefix.len() <= ps.len() && ps.take(prefix.len() as int) == prefix
}

fn path_parts(path: &str) -> (r: Vec<Vec<char>>)
    ensures
        pieces(r@) == parts(path@),
{
    let ps = split_all(&chars_of(path), '/');
    let ghost all = pieces(ps@);
    let mut out: Vec<Vec<char>> = Vec::new();
    let mut i: usize = 0;
    assert(all.take(0) =~= Seq::empty());
    assert(pieces(out@) =~= Seq::empty());
    while i < ps.len()
        invariant
            i <= ps@.len(),
            all == pieces(ps@),
            pieces(out@) == naming(all.take(i as int)),
        decreases ps@.len() - i,
    {
        let ghost was = out@;
        assert(all.take(i + 1).drop_last() =~= all.take(i as int));
        assert(all.take(i + 1).last() == ps@[i as int]@);
        if ps[i].len() > 0 && !spells(&ps[i], ".") {
            out.push(ps[i].clone());
            assert(pieces(out@) =~= pieces(was).push(ps@[i as int]@));
        }
        i = i + 1;
    }
    assert(all.take(i as int) =~= all);
    out
}

fn is_absolute(path: &str) -> (r: bool)
    ensures
        r == absolute(path@),
{
    let cs = chars_of(path);
    cs.len() > 0 && cs[0] == '/'
}

fn is_prefix(prefix: &Vec<Vec<char>>, ps: &Vec<Vec<char>>) -> (r: bool)
    ensures
        r == leads(pieces(prefix@), pieces(ps@)),
{
    if prefix.len() > ps.len() {
        return false;
    }
    let mut i: usize = 0;
    while i < prefix.len()
        invariant
            i <= prefix@.len() <= ps@.len(),
            forall|k: int| 0 <= k < i ==> #[trigger] pieces(prefix@)[k] == pieces(ps@)[k],
        decreases prefix@.len() - i,
    {
        if !same_chars(&prefix[i], &ps[i]) {
            assert(pieces(ps@).take(prefix@.len() as int)[i as int] != pieces(prefix@)[i as int]);
            return false;
        }
        i = i + 1;
    }
    assert(pieces(ps@).take(prefix@.len() as int) =~= pieces(prefix@));
    true
}

fn join_from(ps: &Vec<Vec<char>>, from: usize) -> (s: String)
    requires
        from <= ps@.len(),
    ensures
        s@ == joined(pieces(ps@).skip(from as int)),
{
    let ghost all = pieces(ps@).skip(from as int);
    let mut s = "/".to_owned();
    let mut i: usize = from;
    assert(all.take(0) =~= Seq::empty());
    while i < ps.len()
        invariant
            from <= i <= ps@.len(),
            all == pieces(ps@).skip(from as int),
            s@ == joined(all.take(i - from)),
        decreases ps@.len() - i,
    {
        let ghost k = i - from;
        assert(all.take(k + 1).drop_last() =~= all.take(k));
        assert(all.take(k + 1).last() == ps@[i as int]@);
        if i > from {
            s.append("/");
        }
        s.append(text_of(&ps[i]).as_str());
        proof {
            if i == from {
                assert(all.take(1).len() == 1);
            }
        }
        i = i + 1;
    }
    assert(all.take(i - from) =~= all);
    s
}

/// How deep a mount point is.
pub open spec fn depth<T, C>(m: MountView<T, C>) -> nat {
    parts(m.at).len()
}

/// Where a mount goes in a list that is sorted deepest first: before the first
/// shallower one.
pub open spec fn depth_place<T, C>(s: Seq<MountView<T, C>>, x: MountView<T, C>) -> int
    decreases s.len(),
{
    if s.len() == 0 || depth(s[0]) < depth(x) {
        0
    } else {
        1 + depth_place(s.skip(1), x)
    }
}

/// The mounts deepest first; those of one depth stay in order.
pub open spec fn by_depth<T, C>(s: Seq<MountView<T, C>>) -> Seq<MountView<T, C>>
    decreases s.len(),
{
    if s.len() == 0 {
        Seq::empty()
    } else {
        let init = by_depth(s.drop_last());
        init.insert(depth_place(init, s.last()), s.last())
    }
}

/// The mount of the own tree.
pub open spec fn root_mount<T, C>(local: T) -> MountView<T, C> {
    MountView { at: "/"@, source: SourceView::Local(local) }
}

/// The mount of a remote tree.
pub open spec fn remote_mount<T, C>(b: BindRemote, client: C) -> MountView<T, C> {
    MountView {
        at: b.at@,
        source: SourceView::Remote { node: b.node, client, remote_root: Seq::empty() },
    }
}

/// What is wrong with a wish before the remote is asked.
pub open spec fn bind_fault<T, C>(
    mounts: Seq<MountView<T, C>>,
    local_node: NodeId,
    b: BindRemote,
) -> Option<NamespaceErrorView> {
    if b.node == local_node {
        Some(NamespaceErrorView::SelfBind(b.node))
    } else if !absolute(b.at@) || parts(b.at@).len() == 0 {
        Some(NamespaceErrorView::BadMountPoint)
    } else if exists|i: int|
        0 <= i < mounts.len() && parts((#[trigger] mounts[i]).at) == parts(b.at@) {
        Some(NamespaceErrorView::DuplicateMountPoint(b.at@))
    } else {
        None
    }
}

/// The mounts after the first `k` wishes, in the order of the wishes, or what
/// is wrong with the first bad one. `asked` is what came of asking each remote.
pub open spec fn gathered<T, C>(
    local: T,
    local_node: NodeId,
    binds: Seq<BindRemote>,
    asked: Seq<Attach<C>>,
    k: nat,
) -> Result<Seq<MountView<T, C>>, NamespaceErrorView>
    decreases k,
{
    if k == 0 {
        Ok(seq![root_mount(local)])
    } else {
        match gathered(local, local_node, binds, asked, (k - 1) as nat) {
            Err(e) => Err(e),
            Ok(mounts) => {
                let b = binds[k - 1];
                match bind_fault(mounts, local_node, b) {
                    Some(e) => Err(e),
                    None => match asked[k - 1] {
                        Attach::Attached(client) => Ok(mounts.push(remote_mount(b, client))),
                        Attach::Unresolved(e) => Err(e@),
                        Attach::Refused => Err(NamespaceErrorView::RemoteAttachFailed(b.node)),
                    },
                }
            },
        }
    }
}

/// Whether the remote of the `k`-th wish is asked at all.
pub open spec fn is_asked<T, C>(
    local: T,
    local_node: NodeId,
    binds: Seq<BindRemote>,
    asked: Seq<Attach<C>>,
    k: nat,
) -> bool {
    gathered(local, local_node, binds, asked, k) matches Ok(mounts) && bind_fault(
        mounts,
        local_node,
        binds[k as int],
    ) is None
}

/// Whether `asked` holds, for each remote that is asked, what the resolver gave.
pub open spec fn resolver_gave<T, C, F: Fn(NodeId) -> Attach<C>>(
    f: F,
    local: T,
    local_node: NodeId,
    binds: Seq<BindRemote>,
    asked: Seq<Attach<C>>,
) -> bool {
    &&& asked.len() == binds.len()
    &&& forall|k: nat|
        k < binds.len() && #[trigger] is_asked(local, local_node, binds, asked, k) ==> call_ensures(
            f,
            (binds[k as int].node,),
            asked[k as int],
        )
}

proof fn lemma_gathered_prefix<T, C>(
    local: T,
    local_node: NodeId,
    binds: Seq<BindRemote>,
    a: Seq<Attach<C>>,
    b: Seq<Attach<C>>,
    k: nat,
)
    requires
        k <= a.len(),
        k <= b.len(),
        forall|i: int| 0 <= i < k ==> a[i] == b[i],
    ensures
        gathered(local, local_node, binds, a, k) == gathered(local, local_node, binds, b, k),
    decreases k,
{
    if k > 0 {
        lemma_gathered_prefix(local, local_node, binds, a, b, (k - 1) as nat);
    }
}

proof fn lemma_gathered_err<T, C>(
    local: T,
    local_node: NodeId,
    binds: Seq<BindRemote>,
    asked: Seq<Attach<C>>,
    k: nat,
    n: nat,
)
    requires
        k <= n,
        gathered(local, local_node, binds, asked, k) is Err,
    ensures
        gathered(local, local_node, binds, asked, n) == gathered(
            local,
            local_node,
            binds,
            asked,
            k,
        ),
    decreases n,
{
    if k < n {
        lemma_gathered_err(local, local_node, binds, asked, k, (n - 1) as nat);
    }
}

/// Fills up what was never asked.
spec fn padded<C>(asked: Seq<Attach<C>>, n: nat) -> Seq<Attach<C>> {
    Seq::new(
        n,
        |i: int|
            if i < asked.len() {
                asked[i]
            } else {
                arbitrary()
            },
    )
}

proof fn lemma_depth_place<T, C>(s: Seq<MountView<T, C>>, x: MountView<T, C>, n: int)
    requires
        0 <= n <= s.len(),
        forall|k: int| 0 <= k < n ==> depth(#[trigger] s[k]) >= depth(x),
        n < s.len() ==> depth(s[n]) < depth(x),
    ensures
        depth_place(s, x) == n,
    decreases n,
{
    if n > 0 {
        let t = s.skip(1);
        assert forall|k: int| 0 <= k < n - 1 implies depth(#[trigger] t[k]) >= depth(x) by {
            assert(t[k] == s[k + 1]);
        }
        lemma_depth_place(t, x, n - 1);
    }
}

fn sort_by_depth<T, C>(v: Vec<Mount<T, C>>) -> (r: Vec<Mount<T, C>>)
    ensures
        mounts_view(r@) == by_depth(mounts_view(v@)),
{
    let ghost all = mounts_view(v@);
    let mut rest = v;
    let mut out: Vec<Mount<T, C>> = Vec::new();
    let ghost mut k: int = 0;
    assert(all.take(0) =~= Seq::empty());
    assert(mounts_view(out@) =~= Seq::empty());
    assert(all.skip(0) =~= mounts_view(rest@));
    while rest.len() > 0
        invariant
            0 <= k <= all.len(),
            mounts_view(rest@) == all.skip(k),
            mounts_view(out@) == by_depth(all.take(k)),
        decreases rest@.len(),
    {
        assert(all.skip(k).len() > 0) by {
            assert(mounts_view(rest@).len() == rest@.len());
        }
        let ghost was = rest@;
        let x = rest.remove(0);
        let ghost had = mounts_view(out@);
        let deep: usize = path_parts(x.at.as_str()).len();
        assert(deep == depth(x@)) by {
            assert(pieces(Seq::<Vec<char>>::empty()).len() == 0);
        }
        let mut i: usize = 0;
        loop
            invariant
                i <= out@.len(),
                had == mounts_view(out@),
                deep == depth(x@),
                forall|j: int| 0 <= j < i ==> depth(#[trigger] had[j]) >= depth(x@),
            ensures
                i <= out@.len(),
                forall|j: int| 0 <= j < i ==> depth(#[trigger] had[j]) >= depth(x@),
                i < out@.len() ==> depth(had[i as int]) < depth(x@),
            decreases out@.len() - i,
        {
            if i >= out.len() {
                break;
            }
            let other: usize = path_parts(out[i].at.as_str()).len();
            assert(had[i as int] == out@[i as int]@);
            assert(other == depth(had[i as int]));
            if other < deep {
                break;
            }
            i = i + 1;
        }
        proof {
            lemma_depth_place(had, x@, i as int);
        }
        out.insert(i, x);
        proof {
            assert(mounts_view(out@) =~= had.insert(i as int, x@));
            assert(all.skip(k)[0] == x@);
            assert(all.take(k + 1).drop_last() =~= all.take(k));
            assert(all.take(k + 1).last() == x@);
            assert(mounts_view(was).len() == all.skip(k).len());
            assert forall|j: int| 0 <= j < rest@.len() implies mounts_view(rest@)[j] == all.skip(
                k + 1,
            )[j] by {
                assert(rest@[j] == was[j + 1]);
                assert(mounts_view(was)[j + 1] == all.skip(k)[j + 1]);
            }
            assert(mounts_view(rest@) =~= all.skip(k + 1));
            k = k + 1;
        }
    }
    assert(k == all.len()) by {
        assert(mounts_view(rest@).len() == 0);
    }
    assert(all.take(k) =~= all);
    out
}

fn check_bind<T, C>(mounts: &Vec<Mount<T, C>>, local_node: NodeId, b: &BindRemote) -> (r: Option<
    NamespaceError,
>)
    ensures
        match bind_fault(mounts_view(mounts@), local_node, *b) {
            None => r is None,
            Some(e) => r is Some && r->Some_0@ == e,
        },
{
    if b.node == local_node {
        return Some(NamespaceError::SelfBind(b.node));
    }
    let ps = path_parts(b.at.as_str());
    assert(pieces(ps@).len() == ps@.len());
    if !is_absolute(b.at.as_str()) || ps.len() == 0 {
        return Some(NamespaceError::BadMountPoint);
    }
    let ghost all = mounts_view(mounts@);
    let mut i: usize = 0;
    while i < mounts.len()
        invariant
            i <= mounts@.len(),
            all == mounts_view(mounts@),
            pieces(ps@) == parts(b.at@),
            forall|k: int| 0 <= k < i ==> parts((#[trigger] all[k]).at) != parts(b.at@),
            b.node != local_node,
            absolute(b.at@),
            parts(b.at@).len() > 0,
        decreases mounts@.len() - i,
    {
        let other = path_parts(mounts[i].at.as_str());
        assert(all[i as int].at == mounts@[i as int].at@);
        if other.len() == ps.len() && is_prefix(&other, &ps) {
            assert(pieces(ps@).take(other@.len() as int) =~= pieces(ps@));
            assert(parts(all[i as int].at) == parts(b.at@));
            return Some(NamespaceError::DuplicateMountPoint(b.at.clone()));
        }
        assert(parts(all[i as int].at) != parts(b.at@)) by {
            if parts(all[i as int].at) == parts(b.at@) {
                assert(pieces(other@).len() == other@.len());
                assert(pieces(ps@).len() == ps@.len());
                assert(pieces(ps@).take(other@.len() as int) =~= pieces(ps@));
            }
        }
        i = i + 1;
    }
    None
}

/// Where a task's namespace is surfaced.
pub open spec fn mountpoint_of(mbox: MboxId) -> Seq<char> {
    "/run/classic/ns/"@ + dec(mbox.0 as nat)
}

impl<T, C> Namespace<T, C> {
    /// Build a namespace. Each wish is checked, then its remote is asked; the
    /// first fault ends it. The mounts are then ordered deepest first.
    pub fn build_for_spawn<F: Fn(NodeId) -> Attach<C>>(
        spec: &SpawnSpec,
        local: T,
        local_node: NodeId,
        resolve_remote: F,
    ) -> (r: Result<Self, NamespaceError>)
        requires
            forall|n: NodeId| call_requires(resolve_remote, (n,)),
        ensures
            exists|asked: Seq<Attach<C>>| #[trigger]
                resolver_gave(resolve_remote, local, local_node, spec.bind_remote@, asked)
                    && match gathered(
                    local,
                    local_node,
                    spec.bind_remote@,
                    asked,
                    spec.bind_remote@.len(),
                ) {
                    Err(e) => r is Err && r->Err_0@ == e,
                    Ok(mounts) => {
                        &&& r is Ok
                        &&& r->Ok_0.mbox == spec.mbox
                        &&& mounts_view(r->Ok_0.mounts@) == by_depth(mounts)
                        &&& r->Ok_0.fuse_mountpoint@ == mountpoint_of(spec.mbox)
                    },
                },
    {
        let ghost binds = spec.bind_remote@;
        let ghost n = binds.len();
        let ghost mut asked: Seq<Attach<C>> = Seq::empty();
        let ghost own = local;
        let mut mounts: Vec<Mount<T, C>> = Vec::new();
        mounts.push(Mount { at: "/".to_owned(), source: MountSource::Local(local) });
        assert(mounts_view(mounts@) =~= seq![root_mount::<T, C>(own)]);
        let mut k: usize = 0;
        while k < spec.bind_remote.len()
            invariant
                k <= n,
                binds == spec.bind_remote@,
                n == binds.len(),
                own == local,
                asked.len() == k,
                forall|m: NodeId| call_requires(resolve_remote, (m,)),
                forall|i: int|
                    0 <= i < k ==> call_ensures(
                        resolve_remote,
                        (binds[i].node,),
                        #[trigger] asked[i],
                    ),
                gathered(own, local_node, binds, asked, k as nat) == Ok::<
                    Seq<MountView<T, C>>,
                    NamespaceErrorView,
                >(mounts_view(mounts@)),
            decreases n - k,
        {
            let b = &spec.bind_remote[k];
            if let Some(e) = check_bind(&mounts, local_node, b) {
                proof {
                    let all = padded(asked, n);
                    lemma_gathered_prefix(own, local_node, binds, asked, all, k as nat);
                    assert(gathered(own, local_node, binds, all, (k + 1) as nat) is Err);
                    lemma_gathered_err(own, local_node, binds, all, (k + 1) as nat, n);
                    lemma_asked(
                        resolve_remote,
                        own,
                        local_node,
                        binds,
                        asked,
                        all,
                        k as nat,
                        (k + 1) as nat,
                    );
                }
                return Err(e);
            }
            let got = resolve_remote(b.node);
            let ghost had = asked;
            proof {
                asked = had.push(got);
                lemma_gathered_prefix(own, local_node, binds, had, asked, k as nat);
                assert forall|i: int| 0 <= i < k + 1 implies call_ensures(
                    resolve_remote,
                    (binds[i].node,),
                    #[trigger] asked[i],
                ) by {
                    if i < k {
                        assert(asked[i] == had[i]);
                    }
                }
            }
            match got {
                Attach::Attached(client) => {
                    let ghost was = mounts@;
                    let m = Mount {
                        at: b.at.clone(),
                        source: MountSource::Remote {
                            node: b.node,
                            client,
                            remote_root: String::new(),
                        },
                    };
                    mounts.push(m);
                    assert(m@ == remote_mount::<T, C>(*b, client)) by {
                        assert(m@.source->remote_root =~= Seq::empty());
                    }
                    assert(mounts_view(mounts@) =~= mounts_view(was).push(m@));
                },
                Attach::Unresolved(e) => {
                    proof {
                        let all = padded(asked, n);
                        lemma_gathered_prefix(own, local_node, binds, asked, all, (k + 1) as nat);
                        lemma_gathered_err(own, local_node, binds, all, (k + 1) as nat, n);
                        lemma_asked(
                            resolve_remote,
                            own,
                            local_node,
                            binds,
                            asked,
                            all,
                            (k + 1) as nat,
                            (k + 1) as nat,
                        );
                    }
                    return Err(e);
                },
                Attach::Refused => {
                    proof {
                        let all = padded(asked, n);
                        lemma_gathered_prefix(own, local_node, binds, asked, all, (k + 1) as nat);
                        lemma_gathered_err(own, local_node, binds, all, (k + 1) as nat, n);
                        lemma_asked(
                            resolve_remote,
                            own,
                            local_node,
                            binds,
                            asked,
                            all,
                            (k + 1) as nat,
                            (k + 1) as nat,
                        );
                    }
                    return Err(NamespaceError::RemoteAttachFailed(b.node));
                },
            }
            k = k + 1;
        }
        assert(resolver_gave(resolve_remote, own, local_node, binds, asked));
        let mounts = sort_by_depth(mounts);
        let mut at = "/run/classic/ns/".to_owned();
        at.append(dec_text(spec.mbox.0).as_str());
        Ok(Namespace { mbox: spec.mbox, mounts, fuse_mountpoint: at })
    }

    /// Resolve `path` to the mount that the caller should walk through and the
    /// path inside it: the first mount, and so a deepest one, that the path
    /// starts with.
    pub fn route(&self, path: &str) -> (r: Option<(&Mount<T, C>, String)>)
        ensures
            match routed(mounts_view(self.mounts@), path@) {
                None => r is None,
                Some(i) => {
                    &&& r is Some
                    &&& *r->Some_0.0 == self.mounts@[i]
                    &&& r->Some_0.1@ == joined(
                        parts(path@).skip(parts(self.mounts@[i].at@).len() as int),
                    )
                },
            },
    {
        let ghost all = mounts_view(self.mounts@);
        if !is_absolute(path) {
            proof {
                lemma_relative_unrouted(all, path@);
            }
            return None;
        }
        let ps = path_parts(path);
        let mut i: usize = 0;
        assert(all.skip(0) =~= all);
        while i < self.mounts.len()
            invariant
                i <= self.mounts@.len(),
                all == mounts_view(self.mounts@),
                absolute(path@),
                pieces(ps@) == parts(path@),
                routed(all, path@) == match routed(all.skip(i as int), path@) {
                    Some(k) => Some(k + i),
                    None => None,
                },
            decreases self.mounts@.len() - i,
        {
            let m = &self.mounts[i];
            assert(all.skip(i as int)[0] == m@);
            assert(all.skip(i as int).skip(1) =~= all.skip(i + 1));
            let at = path_parts(m.at.as_str());
            if is_absolute(m.at.as_str()) && is_prefix(&at, &ps) {
                assert(pieces(at@).len() == at@.len());
                assert(pieces(ps@).len() == ps@.len());
                let rest = join_from(&ps, at.len());
                return Some((m, rest));
            }
            i = i + 1;
        }
        assert(all.skip(i as int).len() == 0);
        None
    }

    /// The handle for surfacing the namespace. Nothing is mounted by it; the
    /// caller makes the directory.
    pub fn mount_fuse(&self) -> (h: FuseHandle)
        ensures
            h.mountpoint@ == self.fuse_mountpoint@,
            !h.mounted,
    {
        FuseHandle { mountpoint: self.fuse_mountpoint.clone(), mounted: false }
    }

    /// What to remove when the namespace goes: the directory, unless something
    /// is mounted there.
    pub fn unmount(handle: FuseHandle) -> (dir: Option<String>)
        ensures
            match dir {
                Some(d) => !handle.mounted && d@ == handle.mountpoint@,
                None => handle.mounted,
            },
    {
        if handle.mounted {
            None
        } else {
            Some(handle.mountpoint)
        }
    }
}

proof fn lemma_asked<T, C, F: Fn(NodeId) -> Attach<C>>(
    f: F,
    local: T,
    local_node: NodeId,
    binds: Seq<BindRemote>,
    asked: Seq<Attach<C>>,
    all: Seq<Attach<C>>,
    k: nat,
    stop: nat,
)
    requires
        all == padded(asked, binds.len()),
        asked.len() == k <= binds.len(),
        forall|i: int|
            0 <= i < k ==> call_ensures(f, (binds[i].node,), #[trigger] asked[i]),
        gathered(local, local_node, binds, all, stop) is Err,
        stop == k || stop == k + 1 && !is_asked(local, local_node, binds, all, k),
    ensures
        resolver_gave(f, local, local_node, binds, all),
{
    assert forall|m: nat|
        m < binds.len() && #[trigger] is_asked(local, local_node, binds, all, m) implies call_ensures(
        f,
        (binds[m as int].node,),
        all[m as int],
    ) by {
        if m >= stop {
            lemma_gathered_err(local, local_node, binds, all, stop, m);
        }
        assert(m < k);
        assert(all[m as int] == asked[m as int]);
    }
}

/// The position of the first mount that the path starts with.
pub open spec fn routed<T, C>(mounts: Seq<MountView<T, C>>, path: Seq<char>) -> Option<int>
    decreases mounts.len(),
{
    if mounts.len() == 0 {
        None
    } else if absolute(path) && absolute(mounts[0].at) && leads(parts(mounts[0].at), parts(path)) {
        Some(0)
    } else {
        match routed(mounts.skip(1), path) {
            Some(i) => Some(i + 1),
            None => None,
        }
    }
}

proof fn lemma_relative_unrouted<T, C>(mounts: Seq<MountView<T, C>>, path: Seq<char>)
    requires
        !absolute(path),
    ensures
        routed(mounts, path) is None,
    decreases mounts.len(),
{
    if mounts.len() > 0 {
        lemma_relative_unrouted(mounts.skip(1), path);
    }
}

/// Placeholder for a mounted namespace.
pub struct FuseHandle {
    pub mountpoint: String,
    /// True only when something is really mounted there.
    pub mounted: bool,
}

proof fn lemma_depth_place_range<T, C>(s: Seq<MountView<T, C>>, x: MountView<T, C>)
    ensures
        0 <= depth_place(s, x) <= s.len(),
        forall|k: int| 0 <= k < depth_place(s, x) ==> depth(#[trigger] s[k]) >= depth(x),
        depth_place(s, x) < s.len() ==> depth(s[depth_place(s, x)]) < depth(x),
    decreases s.len(),
{
    if s.len() > 0 && depth(s[0]) >= depth(x) {
        let t = s.skip(1);
        lemma_depth_place_range(t, x);
        assert forall|k: int| 0 <= k < depth_place(s, x) implies depth(#[trigger] s[k]) >= depth(
            x,
        ) by {
            if k > 0 {
                assert(s[k] == t[k - 1]);
            }
        }
    }
}

/// Ordering only moves mounts, and no mount is followed by a deeper one.
pub proof fn law_deepest_first<T, C>(s: Seq<MountView<T, C>>)
    ensures
        forall|i: int, j: int|
            0 <= i < j < by_depth(s).len() ==> depth(#[trigger] by_depth(s)[i]) >= depth(
                #[trigger] by_depth(s)[j],
            ),
        by_depth(s).to_multiset() == s.to_multiset(),
        by_depth(s).len() == s.len(),
    decreases s.len(),
{
    broadcast use {vstd::seq_lib::group_to_multiset_ensures, vstd::multiset::group_multiset_axioms};

    if s.len() > 0 {
        let x = s.last();
        let init = by_depth(s.drop_last());
        law_deepest_first(s.drop_last());
        lemma_depth_place_range(init, x);
        let p = depth_place(init, x);
        let all = init.insert(p, x);
        vstd::seq_lib::to_multiset_insert(init, p, x);
        assert(s =~= s.drop_last().push(x));
        assert forall|i: int, j: int| 0 <= i < j < all.len() implies depth(#[trigger] all[i])
            >= depth(#[trigger] all[j]) by {
            let i0 = if i < p {
                i
            } else {
                i - 1
            };
            let j0 = if j < p {
                j
            } else {
                j - 1
            };
            if i == p {
                assert(all[j] == init[j0]);
                assert(depth(init[p]) >= depth(init[j0]) || j0 == p);
            } else if j == p {
                assert(all[i] == init[i0]);
            } else {
                assert(all[i] == init[i0] && all[j] == init[j0]);
            }
        }
    } else {
        assert(by_depth(s) =~= s);
    }
}

/// A path goes to the deepest mount that it starts with, so the longest prefix
/// wins.
pub proof fn law_longest_prefix<T, C>(s: Seq<MountView<T, C>>, path: Seq<char>, j: int)
    requires
        0 <= j < by_depth(s).len(),
        absolute(path),
        absolute(by_depth(s)[j].at),
        leads(parts(by_depth(s)[j].at), parts(path)),
    ensures
        routed(by_depth(s), path) matches Some(i) && 0 <= i <= j && leads(
            parts(by_depth(s)[i].at),
            parts(path),
        ) && depth(by_depth(s)[i]) >= depth(by_depth(s)[j]),
{
    law_deepest_first(s);
    lemma_routed(by_depth(s), path, j);
}

proof fn lemma_routed<T, C>(mounts: Seq<MountView<T, C>>, path: Seq<char>, j: int)
    requires
        0 <= j < mounts.len(),
        absolute(path),
        absolute(mounts[j].at),
        leads(parts(mounts[j].at), parts(path)),
    ensures
        routed(mounts, path) matches Some(i) && 0 <= i <= j && leads(
            parts(mounts[i].at),
            parts(path),
        ),
    decreases mounts.len(),
{
    if j > 0 && !(absolute(mounts[0].at) && leads(parts(mounts[0].at), parts(path))) {
        assert(mounts.skip(1)[j - 1] == mounts[j]);
        lemma_routed(mounts.skip(1), path, j - 1);
    }
}

/// Every absolute path leads somewhere: at worst to the own root.
pub proof fn law_always_routed<T, C>(
    local: T,
    local_node: NodeId,
    binds: Seq<BindRemote>,
    asked: Seq<Attach<C>>,
    path: Seq<char>,
)
    requires
        absolute(path),
        gathered(local, local_node, binds, asked, binds.len()) is Ok,
    ensures
        routed(
            by_depth(gathered(local, local_node, binds, asked, binds.len())->Ok_0),
            path,
        ) is Some,
{
    broadcast use vstd::seq_lib::group_to_multiset_ensures;

    let s = gathered(local, local_node, binds, asked, binds.len())->Ok_0;
    lemma_root_kept(local, local_node, binds, asked, binds.len());
    law_deepest_first(s);
    let root = root_mount::<T, C>(local);
    assert(s.contains(root)) by {
        assert(s[0] == root);
    }
    assert(by_depth(s).to_multiset().count(root) > 0);
    assert(by_depth(s).contains(root));
    let j = choose|j: int| 0 <= j < by_depth(s).len() && by_depth(s)[j] == root;
    lemma_root_parts();
    assert(parts(path).take(0) =~= parts(root.at));
    lemma_routed(by_depth(s), path, j);
}

proof fn lemma_root_kept<T, C>(
    local: T,
    local_node: NodeId,
    binds: Seq<BindRemote>,
    asked: Seq<Attach<C>>,
    k: nat,
)
    requires
        gathered(local, local_node, binds, asked, k) is Ok,
    ensures
        gathered(local, local_node, binds, asked, k)->Ok_0.len() > 0,
        gathered(local, local_node, binds, asked, k)->Ok_0[0] == root_mount::<T, C>(local),
    decreases k,
{
    if k > 0 {
        lemma_root_kept(local, local_node, binds, asked, (k - 1) as nat);
    }
}

proof fn lemma_root_parts()
    ensures
        absolute("/"@),
        parts("/"@) == Seq::<Seq<char>>::empty(),
{
    reveal_strlit("/");
    let s = "/"@;
    assert(s =~= seq!['/']);
    crate::scan::lemma_split_at(s, '/', 0);
    let e = Seq::<char>::empty();
    assert(s.take(0) =~= e && s.skip(1) =~= e);
    crate::scan::lemma_no_split(e, '/');
    assert(split(e, '/') =~= seq![e]);
    assert(split(s, '/') =~= seq![e, e]);
    let two = seq![e, e];
    assert(two.drop_last() =~= seq![e]);
    assert(seq![e].drop_last() =~= Seq::empty());
    reveal_with_fuel(naming, 3);
}

} // verus!

//! What holds of paths, mounts and routes, told by the names that a path is made
//! of.
use crate::fs::namespace::{
    absolute, bind_fault, by_depth, depth, gathered, joined, law_deepest_first, leads,
    mountpoint_of, naming, names, parts, routed, Attach, BindRemote, MountView, NamespaceErrorView,
    SourceView,
};
use crate::ident::{MboxId, NodeId};
use crate::scan::{dec_u64, lemma_split_shrinks, split, split_once, strip};
use crate::scan_laws::{lacks, law_dec_read, law_joined_split, law_split_once, law_strip};
use vstd::prelude::*;

verus! {

/// Whether the text can name something in a directory.
pub open spec fn proper(name: Seq<char>) -> bool {
    name.len() > 0 && lacks(name, '/') && name != seq!['.']
}

/// Whether all of them can.
pub open spec fn all_proper(ns: Seq<Seq<char>>) -> bool {
    forall|i: int| 0 <= i < ns.len() ==> proper(#[trigger] ns[i])
}

/// Each name behind a slash.
pub open spec fn slashed(ns: Seq<Seq<char>>) -> Seq<char>
    decreases ns.len(),
{
    if ns.len() == 0 {
        Seq::empty()
    } else {
        slashed(ns.drop_last()) + seq!['/'] + ns.last()
    }
}

/// The path that leads through the names from the root.
pub open spec fn path_of(ns: Seq<Seq<char>>) -> Seq<char> {
    if ns.len() == 0 {
        seq!['/']
    } else {
        slashed(ns)
    }
}

proof fn lemma_split_pair(a: Seq<char>, b: Seq<char>, c: char)
    ensures
        split(a + seq![c] + b, c) == split(a, c) + split(b, c),
    decreases a.len(),
{
    law_joined_split(a, c);
    lemma_split_shrinks(a, c);
    let s = a + seq![c] + b;
    match split_once(a, c) {
        None => {
            assert(split(a, c) =~= seq![a]);
            assert(split(a, c)[0] == a);
            law_split_once(a, c, b);
        },
        Some((x, y)) => {
            assert(split(a, c)[0] == x);
            assert(lacks(x, c));
            lemma_split_pair(y, b, c);
            let ps = split(a, c);
            assert(ps.skip(1) =~= split(y, c));
            law_joined_split(y, c);
            assert(a =~= x + seq![c] + y);
            assert(s =~= x + seq![c] + (y + seq![c] + b));
            law_split_once(x, c, y + seq![c] + b);
            assert(seq![x] + (split(y, c) + split(b, c)) =~= (seq![x] + split(y, c)) + split(b, c));
        },
    }
}

proof fn lemma_naming_pair(a: Seq<Seq<char>>, b: Seq<Seq<char>>)
    ensures
        naming(a + b) == naming(a) + naming(b),
    decreases b.len(),
{
    if b.len() == 0 {
        assert(a + b =~= a);
        assert(naming(a) + naming(b) =~= naming(a));
    } else {
        lemma_naming_pair(a, b.drop_last());
        assert((a + b).drop_last() =~= a + b.drop_last());
        assert((a + b).last() == b.last());
        assert((naming(a) + naming(b.drop_last())).push(b.last()) =~= naming(a) + naming(
            b.drop_last(),
        ).push(b.last()));
    }
}

/// A slash parts a path in two: its elements are those before it and those
/// behind it.
pub proof fn law_elements_at_slash(a: Seq<char>, b: Seq<char>)
    ensures
        parts(a + seq!['/'] + b) == parts(a) + parts(b),
{
    lemma_split_pair(a, b, '/');
    lemma_naming_pair(split(a, '/'), split(b, '/'));
}

/// A path of one piece: a name is its own element, whatever characters it has;
/// nothing, and a lone dot, are none.
pub proof fn law_single_element(name: Seq<char>)
    ensures
        proper(name) ==> parts(name) == seq![name],
        parts(Seq::empty()).len() == 0,
        parts(seq!['.']).len() == 0,
{
    reveal_strlit(".");
    assert("."@ =~= seq!['.']);
    lemma_one_piece(Seq::empty());
    lemma_one_piece(seq!['.']);
    if proper(name) {
        lemma_one_piece(name);
        assert(parts(name) =~= seq![name]);
    }
}

proof fn lemma_one_piece(s: Seq<char>)
    requires
        lacks(s, '/'),
    ensures
        split(s, '/') == seq![s],
        naming(seq![s]) == if names(s) {
            seq![s]
        } else {
            Seq::empty()
        },
{
    law_split_once(s, '/', Seq::empty());
    assert(split(s, '/') =~= seq![s]);
    assert(seq![s].drop_last() =~= Seq::empty());
    assert(naming(seq![s].drop_last()) =~= Seq::empty());
    assert(naming(seq![s]) =~= if names(s) {
        seq![s]
    } else {
        Seq::empty()
    });
}

/// The elements of a path are the names that it was made of.
pub proof fn law_elements(ns: Seq<Seq<char>>)
    requires
        all_proper(ns),
    ensures
        parts(path_of(ns)) == ns,
        absolute(path_of(ns)),
{
    if ns.len() == 0 {
        law_single_element(Seq::empty());
        law_elements_at_slash(Seq::empty(), Seq::empty());
        assert(Seq::<char>::empty() + seq!['/'] + Seq::<char>::empty() =~= seq!['/']);
        assert(parts(seq!['/']) =~= ns);
    } else {
        lemma_slashed(ns);
    }
}

proof fn lemma_slashed(ns: Seq<Seq<char>>)
    requires
        all_proper(ns),
    ensures
        parts(slashed(ns)) == ns,
        ns.len() > 0 ==> absolute(slashed(ns)),
    decreases ns.len(),
{
    if ns.len() == 0 {
        law_single_element(Seq::empty());
        assert(parts(slashed(ns)) =~= ns);
    } else {
        let init = ns.drop_last();
        assert forall|i: int| 0 <= i < init.len() implies proper(#[trigger] init[i]) by {
            assert(init[i] == ns[i]);
        }
        lemma_slashed(init);
        let name = ns[ns.len() - 1];
        assert(proper(name));
        law_single_element(name);
        law_elements_at_slash(slashed(init), name);
        assert(init + seq![name] =~= ns);
    }
}

/// Slashes in a row, a slash at the end and single dots change nothing.
pub proof fn law_idle_pieces(a: Seq<char>, b: Seq<char>)
    ensures
        parts(a + seq!['/', '/'] + b) == parts(a + seq!['/'] + b),
        parts(a + seq!['/', '.', '/'] + b) == parts(a + seq!['/'] + b),
        parts(a + seq!['/']) == parts(a),
        parts(a + seq!['/', '.']) == parts(a),
{
    let e = Seq::<char>::empty();
    let dot = seq!['.'];
    law_single_element(e);
    law_elements_at_slash(a, b);
    law_elements_at_slash(a, e);
    law_elements_at_slash(a + seq!['/'] + e, b);
    law_elements_at_slash(a, dot);
    law_elements_at_slash(a + seq!['/'] + dot, b);
    assert(a + seq!['/'] + e + seq!['/'] + b =~= a + seq!['/', '/'] + b);
    assert(a + seq!['/'] + dot + seq!['/'] + b =~= a + seq!['/', '.', '/'] + b);
    assert(a + seq!['/'] + e =~= a + seq!['/']);
    assert(a + seq!['/'] + dot =~= a + seq!['/', '.']);
    assert(parts(a) + parts(e) =~= parts(a));
    assert(parts(a) + parts(dot) =~= parts(a));
}

/// A path starts at the root exactly where its first character is a slash.
pub proof fn law_absolute(s: Seq<char>)
    ensures
        absolute(seq!['/'] + s),
        s.len() > 0 && s[0] != '/' ==> !absolute(s),
        !absolute(Seq::empty()),
{
}

/// Names joined again are the path that leads through them.
pub proof fn law_joined(ns: Seq<Seq<char>>)
    ensures
        joined(ns) == path_of(ns),
    decreases ns.len(),
{
    reveal_strlit("/");
    assert("/"@ =~= seq!['/']);
    if ns.len() == 1 {
        assert(ns.drop_last() =~= Seq::empty());
        assert(slashed(ns.drop_last()) =~= Seq::<char>::empty());
        assert(slashed(ns) =~= seq!['/'] + ns[0]);
    } else if ns.len() > 1 {
        law_joined(ns.drop_last());
    }
}

/// Whether one list of names starts with another.
pub open spec fn begins(ns: Seq<Seq<char>>, with: Seq<Seq<char>>) -> bool {
    exists|rest: Seq<Seq<char>>| ns == #[trigger] (with + rest)
}

/// Whether `at` holds the names of each mount point.
pub open spec fn mounted_at<T, C>(
    mounts: Seq<MountView<T, C>>,
    at: Seq<Seq<Seq<char>>>,
) -> bool {
    &&& at.len() == mounts.len()
    &&& forall|i: int|
        0 <= i < at.len() ==> all_proper(#[trigger] at[i]) && mounts[i].at == path_of(at[i])
}

/// A path goes to the mount that it lies under, the deepest where there are
/// several, and what is left of it is the path behind the mount point: whole
/// names count, whatever their characters. It goes nowhere only where it lies
/// under no mount.
pub proof fn law_route<T, C>(
    s: Seq<MountView<T, C>>,
    at: Seq<Seq<Seq<char>>>,
    ns: Seq<Seq<char>>,
)
    requires
        mounted_at(by_depth(s), at),
        all_proper(ns),
    ensures
        match routed(by_depth(s), path_of(ns)) {
            None => forall|i: int| 0 <= i < at.len() ==> !begins(ns, #[trigger] at[i]),
            Some(i) => {
                &&& 0 <= i < at.len()
                &&& begins(ns, at[i])
                &&& forall|j: int|
                    0 <= j < at.len() && begins(ns, #[trigger] at[j]) ==> at[j].len()
                        <= at[i].len()
                &&& forall|rest: Seq<Seq<char>>|
                    ns == #[trigger] (at[i] + rest) ==> joined(
                        parts(path_of(ns)).skip(parts(by_depth(s)[i].at).len() as int),
                    ) == path_of(rest)
            },
        },
{
    let mounts = by_depth(s);
    law_elements(ns);
    law_deepest_first(s);
    assert forall|i: int| 0 <= i < at.len() implies parts(mounts[i].at) == (#[trigger] at[i])
        && absolute(mounts[i].at) && (leads(parts(mounts[i].at), ns) <==> begins(ns, at[i])) by {
        law_elements(at[i]);
        lemma_begins(ns, at[i]);
    }
    lemma_first_routed(mounts, path_of(ns));
    if let Some(i) = routed(mounts, path_of(ns)) {
        assert(begins(ns, at[i]));
        assert forall|j: int| 0 <= j < at.len() && begins(ns, #[trigger] at[j]) implies at[j].len()
            <= at[i].len() by {
            assert(depth(mounts[j]) == at[j].len());
            assert(depth(mounts[i]) == at[i].len());
            assert(leads(parts(mounts[j].at), ns));
        }
        assert forall|rest: Seq<Seq<char>>| ns == #[trigger] (at[i] + rest) implies joined(
            parts(path_of(ns)).skip(parts(mounts[i].at).len() as int),
        ) == path_of(rest) by {
            assert(ns.skip(at[i].len() as int) =~= rest);
            law_joined(rest);
        }
    }
}

proof fn lemma_begins(ns: Seq<Seq<char>>, with: Seq<Seq<char>>)
    ensures
        leads(with, ns) <==> begins(ns, with),
{
    if leads(with, ns) {
        assert(ns =~= with + ns.skip(with.len() as int));
    }
    if begins(ns, with) {
        let rest = choose|rest: Seq<Seq<char>>| ns == #[trigger] (with + rest);
        assert(ns.take(with.len() as int) =~= with);
    }
}

proof fn lemma_first_routed<T, C>(mounts: Seq<MountView<T, C>>, path: Seq<char>)
    ensures
        match routed(mounts, path) {
            None => forall|i: int|
                0 <= i < mounts.len() ==> !(absolute(path) && absolute((#[trigger] mounts[i]).at)
                    && leads(parts(mounts[i].at), parts(path))),
            Some(i) => {
                &&& 0 <= i < mounts.len()
                &&& absolute(path)
                &&& absolute(mounts[i].at)
                &&& leads(parts(mounts[i].at), parts(path))
                &&& forall|j: int|
                    0 <= j < i ==> !(absolute((#[trigger] mounts[j]).at) && leads(
                        parts(mounts[j].at),
                        parts(path),
                    ))
            },
        },
    decreases mounts.len(),
{
    if mounts.len() > 0 {
        let t = mounts.skip(1);
        lemma_first_routed(t, path);
        assert(forall|j: int| 1 <= j < mounts.len() ==> #[trigger] mounts[j] == t[j - 1]);
    }
}

/// A path that does not start at the root goes nowhere.
pub proof fn law_relative_not_routed<T, C>(mounts: Seq<MountView<T, C>>, path: Seq<char>)
    requires
        path.len() == 0 || path[0] != '/',
    ensures
        routed(mounts, path) is None,
{
    lemma_first_routed(mounts, path);
}

/// Where a namespace is built, the own tree is mounted at the root and after it
/// each remote where it was asked to be: none of them the own node, each at an
/// absolute path below the root, no two at the same place, and each attached.
pub proof fn law_built<T, C>(
    local: T,
    local_node: NodeId,
    binds: Seq<BindRemote>,
    asked: Seq<Attach<C>>,
    k: nat,
)
    requires
        k <= binds.len(),
        asked.len() == binds.len(),
        gathered(local, local_node, binds, asked, k) is Ok,
    ensures
        ({
            let mounts = gathered(local, local_node, binds, asked, k)->Ok_0;
            &&& mounts.len() == k + 1
            &&& mounts[0].source == SourceView::<T, C>::Local(local)
            &&& parts(mounts[0].at).len() == 0
            &&& absolute(mounts[0].at)
            &&& forall|i: int|
                0 <= i < k ==> {
                    &&& (#[trigger] binds[i]).node != local_node
                    &&& absolute(binds[i].at@)
                    &&& parts(binds[i].at@).len() > 0
                    &&& mounts[i + 1].at == binds[i].at@
                    &&& asked[i] matches Attach::Attached(client) && mounts[i + 1].source
                        == (SourceView::<T, C>::Remote {
                        node: binds[i].node,
                        client,
                        remote_root: Seq::empty(),
                    })
                }
            &&& forall|i: int, j: int|
                0 <= i < j < k ==> parts((#[trigger] binds[i]).at@) != parts(
                    (#[trigger] binds[j]).at@,
                )
        }),
    decreases k,
{
    if k == 0 {
        reveal_strlit("/");
        assert("/"@ =~= path_of(Seq::empty()));
        law_elements(Seq::empty());
    } else {
        let j = (k - 1) as nat;
        law_built(local, local_node, binds, asked, j);
        let before = gathered(local, local_node, binds, asked, j)->Ok_0;
        let mounts = gathered(local, local_node, binds, asked, k)->Ok_0;
        assert(bind_fault(before, local_node, binds[k - 1]) is None);
        assert(mounts[0] == before[0]);
        assert forall|i: int| 0 <= i < k implies {
            &&& (#[trigger] binds[i]).node != local_node
            &&& absolute(binds[i].at@)
            &&& parts(binds[i].at@).len() > 0
            &&& mounts[i + 1].at == binds[i].at@
            &&& asked[i] matches Attach::Attached(client) && mounts[i + 1].source == (SourceView::<
                T,
                C,
            >::Remote { node: binds[i].node, client, remote_root: Seq::empty() })
        } by {
            if i < j {
                assert(mounts[i + 1] == before[i + 1]);
            }
        }
        assert forall|a: int, b: int| 0 <= a < b < k implies parts((#[trigger] binds[a]).at@)
            != parts((#[trigger] binds[b]).at@) by {
            if b == j {
                assert(before[a + 1].at == binds[a].at@);
            }
        }
    }
}

/// Whether the wish is a good one by itself: not for the own node, an absolute
/// path below the root, and the remote answered.
pub open spec fn good_wish<C>(local_node: NodeId, b: BindRemote, a: Attach<C>) -> bool {
    &&& b.node != local_node
    &&& absolute(b.at@)
    &&& parts(b.at@).len() > 0
    &&& a is Attached
}

/// Good wishes at different places are all granted.
pub proof fn law_good_wishes_granted<T, C>(
    local: T,
    local_node: NodeId,
    binds: Seq<BindRemote>,
    asked: Seq<Attach<C>>,
    k: nat,
)
    requires
        k <= binds.len(),
        asked.len() == binds.len(),
        forall|i: int| 0 <= i < k ==> good_wish(local_node, #[trigger] binds[i], asked[i]),
        forall|i: int, j: int|
            0 <= i < j < k ==> parts((#[trigger] binds[i]).at@) != parts((#[trigger] binds[j]).at@),
    ensures
        gathered(local, local_node, binds, asked, k) is Ok,
    decreases k,
{
    if k > 0 {
        let j = (k - 1) as nat;
        law_good_wishes_granted(local, local_node, binds, asked, j);
        law_built(local, local_node, binds, asked, j);
        let before = gathered(local, local_node, binds, asked, j)->Ok_0;
        let b = binds[k - 1];
        assert(good_wish(local_node, b, asked[k - 1]));
        assert forall|i: int| 0 <= i < before.len() implies parts((#[trigger] before[i]).at)
            != parts(b.at@) by {
            if i > 0 {
                let a = binds[i - 1];
                assert(before[i].at == a.at@);
            }
        }
        assert(bind_fault(before, local_node, b) is None);
    }
}

/// Whether this is what is wrong with the `k`-th wish after good ones: it is for
/// the own node; it is no absolute path below the root; it is at the place of the
/// root or of an earlier wish; the remote could not be asked or did not answer.
pub open spec fn wrong_with<C>(
    local_node: NodeId,
    binds: Seq<BindRemote>,
    asked: Seq<Attach<C>>,
    k: int,
    e: NamespaceErrorView,
) -> bool {
    let b = binds[k];
    let lies_below = absolute(b.at@) && parts(b.at@).len() > 0;
    let taken = exists|i: int| 0 <= i < k && parts((#[trigger] binds[i]).at@) == parts(b.at@);
    let asks = b.node != local_node && lies_below && !taken;
    ||| b.node == local_node && e == NamespaceErrorView::SelfBind(b.node)
    ||| b.node != local_node && !lies_below && e is BadMountPoint
    ||| b.node != local_node && lies_below && taken && e
        == NamespaceErrorView::DuplicateMountPoint(b.at@)
    ||| asks && (asked[k] matches Attach::Unresolved(u) && u@ == e)
    ||| asks && asked[k] is Refused && e == NamespaceErrorView::RemoteAttachFailed(b.node)
}

/// A namespace that is not built fails at the first wish that is not good, with
/// what is wrong with it.
pub proof fn law_not_built<T, C>(
    local: T,
    local_node: NodeId,
    binds: Seq<BindRemote>,
    asked: Seq<Attach<C>>,
    k: nat,
) -> (bad: int)
    requires
        k <= binds.len(),
        asked.len() == binds.len(),
        gathered(local, local_node, binds, asked, k) is Err,
    ensures
        0 <= bad < k,
        gathered(local, local_node, binds, asked, bad as nat) is Ok,
        wrong_with(
            local_node,
            binds,
            asked,
            bad,
            gathered(local, local_node, binds, asked, k)->Err_0,
        ),
    decreases k,
{
    let j = (k - 1) as nat;
    if gathered(local, local_node, binds, asked, j) is Err {
        law_not_built(local, local_node, binds, asked, j)
    } else {
        law_built(local, local_node, binds, asked, j);
        let before = gathered(local, local_node, binds, asked, j)->Ok_0;
        let b = binds[k - 1];
        if exists|i: int| 0 <= i < before.len() && parts((#[trigger] before[i]).at) == parts(b.at@) {
            let i = choose|i: int|
                0 <= i < before.len() && parts((#[trigger] before[i]).at) == parts(b.at@);
            if i > 0 {
                let a = binds[i - 1];
                assert(before[i].at == a.at@);
                assert(parts(a.at@) == parts(b.at@));
            }
        } else {
            assert forall|i: int| 0 <= i < k - 1 implies parts((#[trigger] binds[i]).at@) != parts(
                b.at@,
            ) by {
                assert(before[i + 1].at == binds[i].at@);
            }
        }
        k - 1
    }
}

/// Each task's namespace is surfaced in a directory of its own, by its number.
pub proof fn law_mountpoint(mbox: MboxId)
    ensures
        strip(mountpoint_of(mbox), "/run/classic/ns/"@) matches Some(t) && dec_u64(t) == Some(
            mbox.0,
        ),
{
    law_dec_read(mbox.0 as nat);
    law_strip("/run/classic/ns/"@, crate::render::dec(mbox.0 as nat), Seq::empty());
}

} // verus!

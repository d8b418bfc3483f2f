//! What the plain trees hold, and what every stat of a read-only tree leaves blank.
use crate::fs::namespace::{by_depth, depth, depth_place, law_deepest_first, MountView};
use crate::fs::synthetic::SyntheticTree;
use crate::fs::tree::{EmptyTree, NodeId, StubTree, Tree};
use crate::fs::types::{DirEntryView, Qid, Stat};
use vstd::prelude::*;
use vstd::utf8::{decode_utf8, valid_utf8};

verus! {

/// Whether the stat says nothing of owners, devices, blocks, times and versions.
pub open spec fn bare(s: Stat) -> bool {
    &&& s.uid == 0 && s.gid == 0 && s.rdev == 0
    &&& s.blksize == 0 && s.blocks == 0
    &&& s.atime_sec == 0 && s.atime_nsec == 0
    &&& s.mtime_sec == 0 && s.mtime_nsec == 0
    &&& s.ctime_sec == 0 && s.ctime_nsec == 0
    &&& s.btime_sec == 0 && s.btime_nsec == 0
    &&& s.gen == 0 && s.data_version == 0
}

/// In the synthetic tree what has an identity has attributes, with that identity
/// and nothing that a synthetic file does not have; a directory has no size.
pub proof fn law_bare_stats(t: SyntheticTree, n: NodeId)
    ensures
        t.attributes(n) is Some <==> t.identity(n) is Some,
        t.attributes(n) matches Some(s) ==> bare(s) && Some(s.qid) == t.identity(n) && s.nlink == 1,
        t.identity(n) matches Some(q) ==> q.path == n && q.version == 0,
        t.directory(n) ==> (t.attributes(n) matches Some(s) && (n < 0x1000 ==> s.size == 0)),
{
}

/// The empty tree is a root directory with nothing in it.
pub proof fn law_empty_tree(
    t: EmptyTree,
    n: NodeId,
    name: Seq<char>,
    offset: u64,
    count: u32,
)
    ensures
        t.child(n, name) is None,
        t.identity(n) is Some <==> n == 0,
        t.identity(0) == Some(Qid { type_: 0x80, version: 0, path: 0 }),
        t.attributes(0) matches Some(s) && s.mode == 0o040555 && bare(s),
        t.attributes(n) is Some <==> n == 0,
        t.directory(n) <==> n == 0,
        t.listing(0, offset) matches Ok(es) && es.len() == 0,
        n != 0 ==> t.listing(n, offset) == Err::<Seq<DirEntryView>, u32>(2),
        t.content(n, offset, count) == Err::<Seq<u8>, u32>(21),
        t.link(n) is None,
{
}

/// The stub tree is a root directory with one child: a file that reads its
/// content, or a symlink that points where its content says.
pub proof fn law_stub_tree(t: StubTree, name: Seq<char>, n: NodeId, offset: u64, count: u32)
    ensures
        t.child(0, t.child_name@) == Some(1u64),
        name != t.child_name@ || n != 0 ==> t.child(n, name) is None,
        t.directory(n) <==> n == 0,
        t.identity(n) is Some <==> n == 0 || n == 1,
        t.identity(0) == Some(Qid { type_: 0x80, version: 0, path: 0 }),
        t.identity(1) matches Some(q) && q.path == 1 && q.version == 0 && (t.child_is_symlink
            ==> q.type_ == 0x02) && (!t.child_is_symlink ==> q.type_ == 0x00),
        t.attributes(1) matches Some(s) && bare(s) && (t.child_is_symlink ==> s.mode == 0o120777)
            && (!t.child_is_symlink ==> s.mode == 0o100444) && (t.child_content@.len() <= u64::MAX
            ==> s.size == t.child_content@.len()),
        t.attributes(0) matches Some(s) && bare(s) && s.mode == 0o040555,
        t.content(0, offset, count) == Err::<Seq<u8>, u32>(21),
        n > 1 ==> t.content(n, offset, count) == Err::<Seq<u8>, u32>(2),
        t.content(1, offset, count) matches Ok(d) && d.len() <= count && forall|k: int|
            0 <= k < d.len() ==> #[trigger] d[k] == t.child_content@[offset + k],
        t.content(1, offset, count) matches Ok(d) ==> (d.len() == count || d.len() + offset
            >= t.child_content@.len()),
        n != 0 ==> t.listing(n, offset) == Err::<Seq<DirEntryView>, u32>(20),
        offset > 0 ==> (t.listing(0, offset) matches Ok(es) && es.len() == 0),
        t.listing(0, 0) matches Ok(es) && es.len() == 1 && es[0].name == t.child_name@
            && es[0].offset == 1 && Some(es[0].qid) == t.identity(1) && es[0].ty == (
        if t.child_is_symlink {
            10u8
        } else {
            8u8
        }),
        t.link(1) is Some <==> t.child_is_symlink && valid_utf8(t.child_content@),
        t.link(1) matches Some(x) ==> x == decode_utf8(t.child_content@),
        n != 1 ==> t.link(n) is None,
{
}

/// The mounts of one depth, in order.
pub open spec fn at_depth<T, C>(s: Seq<MountView<T, C>>, d: nat) -> Seq<MountView<T, C>>
    decreases s.len(),
{
    if s.len() == 0 {
        Seq::empty()
    } else if depth(s.last()) == d {
        at_depth(s.drop_last(), d).push(s.last())
    } else {
        at_depth(s.drop_last(), d)
    }
}

proof fn lemma_at_depth_pair<T, C>(a: Seq<MountView<T, C>>, b: Seq<MountView<T, C>>, d: nat)
    ensures
        at_depth(a + b, d) == at_depth(a, d) + at_depth(b, d),
    decreases b.len(),
{
    if b.len() == 0 {
        assert(a + b =~= a);
        assert(at_depth(a, d) + at_depth(b, d) =~= at_depth(a, d));
    } else {
        lemma_at_depth_pair(a, b.drop_last(), d);
        assert((a + b).drop_last() =~= a + b.drop_last());
        assert((a + b).last() == b.last());
        assert(at_depth(a + b, d) =~= at_depth(a, d) + at_depth(b, d));
    }
}

proof fn lemma_none_at_depth<T, C>(s: Seq<MountView<T, C>>, d: nat)
    requires
        forall|i: int| 0 <= i < s.len() ==> depth(#[trigger] s[i]) != d,
    ensures
        at_depth(s, d) == Seq::<MountView<T, C>>::empty(),
    decreases s.len(),
{
    if s.len() > 0 {
        assert(depth(s[s.len() - 1]) != d);
        assert forall|i: int| 0 <= i < s.drop_last().len() implies depth(
            #[trigger] s.drop_last()[i],
        ) != d by {
            assert(s.drop_last()[i] == s[i]);
        }
        lemma_none_at_depth(s.drop_last(), d);
    }
}

proof fn lemma_place<T, C>(s: Seq<MountView<T, C>>, x: MountView<T, C>)
    ensures
        0 <= depth_place(s, x) <= s.len(),
        depth_place(s, x) < s.len() ==> depth(s[depth_place(s, x)]) < depth(x),
    decreases s.len(),
{
    if s.len() > 0 && depth(s[0]) >= depth(x) {
        lemma_place(s.skip(1), x);
    }
}

/// Mounts of one depth stay in the order in which they were asked for.
pub proof fn law_depth_order_stable<T, C>(s: Seq<MountView<T, C>>, d: nat)
    ensures
        at_depth(by_depth(s), d) == at_depth(s, d),
    decreases s.len(),
{
    if s.len() == 0 {
        assert(by_depth(s) =~= s);
    } else {
        let init = by_depth(s.drop_last());
        let x = s.last();
        let p = depth_place(init, x);
        law_depth_order_stable(s.drop_last(), d);
        law_deepest_first(s.drop_last());
        lemma_place(init, x);
        let a = init.take(p);
        let b = init.skip(p);
        assert(by_depth(s) =~= a + seq![x] + b);
        assert(init =~= a + b);
        lemma_at_depth_pair(a, b, d);
        lemma_at_depth_pair(a + seq![x], b, d);
        lemma_at_depth_pair(a, seq![x], d);
        assert(s =~= s.drop_last() + seq![x]);
        lemma_at_depth_pair(s.drop_last(), seq![x], d);
        if depth(x) == d {
            assert forall|i: int| 0 <= i < b.len() implies depth(#[trigger] b[i]) != d by {
                assert(b[i] == init[p + i]);
                if i > 0 {
                    assert(depth(init[p]) >= depth(init[p + i]));
                }
            }
            lemma_none_at_depth(b, d);
            assert(at_depth(a, d) + at_depth(b, d) =~= at_depth(a, d));
            assert(at_depth(a, d) + at_depth(seq![x], d) + at_depth(b, d) =~= at_depth(a, d)
                + at_depth(b, d) + at_depth(seq![x], d));
        } else {
            assert forall|i: int| 0 <= i < seq![x].len() implies depth(#[trigger] seq![x][i]) != d by {
            }
            lemma_none_at_depth(seq![x], d);
            assert(at_depth(a, d) + Seq::<MountView<T, C>>::empty() + at_depth(b, d) =~= at_depth(
                a,
                d,
            ) + at_depth(b, d));
            assert(at_depth(s.drop_last(), d) + Seq::<MountView<T, C>>::empty() =~= at_depth(
                s.drop_last(),
                d,
            ));
        }
    }
}

} // verus!

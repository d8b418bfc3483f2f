//! Sorting: numbers by size, named things by name.
use crate::text::{
    before, is_before, lemma_before_irreflexive, lemma_before_total, lemma_before_transitive,
};
use vstd::prelude::*;

verus! {

broadcast use {vstd::seq_lib::group_to_multiset_ensures, vstd::multiset::group_multiset_axioms};

/// Whether no number is followed by a smaller one.
pub open spec fn ascending(s: Seq<u32>) -> bool {
    forall|i: int, j: int| 0 <= i < j < s.len() ==> s[i] <= s[j]
}

/// Whether every number is followed by larger ones only.
pub open spec fn increasing(s: Seq<u32>) -> bool {
    forall|i: int, j: int| 0 <= i < j < s.len() ==> s[i] < s[j]
}

/// The numbers in ascending order.
pub fn sort_u32(v: &Vec<u32>) -> (r: Vec<u32>)
    ensures
        ascending(r@),
        r@.to_multiset() == v@.to_multiset(),
{
    let mut out: Vec<u32> = Vec::new();
    let mut k: usize = 0;
    assert(v@.take(0) =~= out@);
    while k < v.len()
        invariant
            k <= v@.len(),
            ascending(out@),
            out@.to_multiset() == v@.take(k as int).to_multiset(),
        decreases v@.len() - k,
    {
        let x: u32 = v[k];
        let ghost was = out@;
        let mut i: usize = 0;
        while i < out.len() && out[i] <= x
            invariant
                i <= out@.len(),
                forall|j: int| 0 <= j < i ==> out@[j] <= x,
            decreases out@.len() - i,
        {
            i = i + 1;
        }
        out.insert(i, x);
        proof {
            assert(out@ =~= was.insert(i as int, x));
            vstd::seq_lib::to_multiset_insert(was, i as int, x);
            assert(v@.take(k + 1) =~= v@.take(k as int).push(x));
        }
        k = k + 1;
    }
    assert(v@.take(k as int) =~= v@);
    out
}

/// The numbers without those that repeat the one before.
pub fn dedup_u32(v: &Vec<u32>) -> (r: Vec<u32>)
    requires
        ascending(v@),
    ensures
        increasing(r@),
        forall|x: u32| r@.contains(x) <==> v@.contains(x),
{
    let mut out: Vec<u32> = Vec::new();
    let mut k: usize = 0;
    while k < v.len()
        invariant
            k <= v@.len(),
            ascending(v@),
            increasing(out@),
            out@.len() > 0 ==> k > 0 && out@.last() == v@[k - 1],
            out@.len() == 0 ==> k == 0,
            forall|j: int| 0 <= j < k ==> out@.contains(#[trigger] v@[j]),
            forall|j: int| 0 <= j < out@.len() ==> v@.contains(#[trigger] out@[j]),
        decreases v@.len() - k,
    {
        let n: usize = out.len();
        let ghost was = out@;
        if n == 0 || out[n - 1] != v[k] {
            out.push(v[k]);
            assert(out@[n as int] == v@[k as int]);
            assert forall|j: int| 0 <= j < k implies out@.contains(#[trigger] v@[j]) by {
                let i = choose|i: int| 0 <= i < was.len() && was[i] == v@[j];
                assert(out@[i] == v@[j]);
            }
        }
        assert(out@.contains(v@[k as int])) by {
            assert(out@[out@.len() - 1] == v@[k as int]);
        }
        k = k + 1;
    }
    out
}

/// Something with a name.
pub trait Named: View {
    spec fn name_of(v: Self::V) -> Seq<char>;

    fn name(&self) -> (r: &str)
        ensures
            r@ == Self::name_of(self@),
    ;
}

/// What a list of named things says.
pub open spec fn views<T: Named>(s: Seq<T>) -> Seq<T::V> {
    Seq::new(s.len(), |i: int| s[i]@)
}

/// Where a thing goes in a list: before the first that its name comes before.
pub open spec fn place<T: Named>(s: Seq<T::V>, x: T::V) -> int
    decreases s.len(),
{
    if s.len() == 0 || before(T::name_of(x), T::name_of(s[0])) {
        0
    } else {
        1 + place::<T>(s.skip(1), x)
    }
}

/// The things in the order of their names; those with the same name stay in the
/// order in which they came.
pub open spec fn sorted<T: Named>(s: Seq<T::V>) -> Seq<T::V>
    decreases s.len(),
{
    if s.len() == 0 {
        Seq::empty()
    } else {
        let init = sorted::<T>(s.drop_last());
        init.insert(place::<T>(init, s.last()), s.last())
    }
}

/// Whether no name is followed by one that comes before it.
pub open spec fn in_order<T: Named>(s: Seq<T::V>) -> bool {
    forall|i: int, j: int|
        0 <= i < j < s.len() ==> !before(T::name_of(#[trigger] s[j]), T::name_of(#[trigger] s[i]))
}

proof fn lemma_place<T: Named>(s: Seq<T::V>, x: T::V, n: int)
    requires
        0 <= n <= s.len(),
        forall|k: int| 0 <= k < n ==> !before(T::name_of(x), T::name_of(#[trigger] s[k])),
        n < s.len() ==> before(T::name_of(x), T::name_of(s[n])),
    ensures
        place::<T>(s, x) == n,
    decreases n,
{
    if n > 0 {
        let t = s.skip(1);
        assert forall|k: int| 0 <= k < n - 1 implies !before(
            T::name_of(x),
            T::name_of(#[trigger] t[k]),
        ) by {
            assert(t[k] == s[k + 1]);
        }
        lemma_place::<T>(t, x, n - 1);
    }
}

proof fn lemma_place_range<T: Named>(s: Seq<T::V>, x: T::V)
    ensures
        0 <= place::<T>(s, x) <= s.len(),
        forall|k: int|
            0 <= k < place::<T>(s, x) ==> !before(T::name_of(x), T::name_of(#[trigger] s[k])),
        place::<T>(s, x) < s.len() ==> before(T::name_of(x), T::name_of(s[place::<T>(s, x)])),
    decreases s.len(),
{
    if s.len() > 0 && !before(T::name_of(x), T::name_of(s[0])) {
        let t = s.skip(1);
        lemma_place_range::<T>(t, x);
        let n = place::<T>(s, x);
        assert forall|k: int| 0 <= k < n implies !before(
            T::name_of(x),
            T::name_of(#[trigger] s[k]),
        ) by {
            if k > 0 {
                assert(s[k] == t[k - 1]);
            }
        }
    }
}

/// Whether no two things have the same name.
pub open spec fn names_differ<T: Named>(s: Seq<T::V>) -> bool {
    forall|i: int, j: int|
        0 <= i < j < s.len() ==> T::name_of(#[trigger] s[i]) != T::name_of(#[trigger] s[j])
}

proof fn lemma_sorted_member<T: Named>(s: Seq<T::V>, k: int)
    requires
        0 <= k < sorted::<T>(s).len(),
    ensures
        exists|i: int| 0 <= i < s.len() && #[trigger] s[i] == sorted::<T>(s)[k],
    decreases s.len(),
{
    let x = s.last();
    let rest = s.drop_last();
    let init = sorted::<T>(rest);
    lemma_place_range::<T>(init, x);
    let p = place::<T>(init, x);
    if k == p {
        assert(s[s.len() - 1] == sorted::<T>(s)[k]);
    } else {
        let k0 = if k < p {
            k
        } else {
            k - 1
        };
        lemma_sorted_member::<T>(rest, k0);
        let i = choose|i: int| 0 <= i < rest.len() && #[trigger] rest[i] == init[k0];
        assert(s[i] == sorted::<T>(s)[k]);
    }
}

proof fn lemma_sorted_differ<T: Named>(s: Seq<T::V>)
    requires
        names_differ::<T>(s),
    ensures
        names_differ::<T>(sorted::<T>(s)),
    decreases s.len(),
{
    if s.len() > 0 {
        let x = s.last();
        let rest = s.drop_last();
        let init = sorted::<T>(rest);
        assert forall|i: int, j: int| 0 <= i < j < rest.len() implies T::name_of(
            #[trigger] rest[i],
        ) != T::name_of(#[trigger] rest[j]) by {
            assert(rest[i] == s[i] && rest[j] == s[j]);
        }
        lemma_sorted_differ::<T>(rest);
        lemma_place_range::<T>(init, x);
        let p = place::<T>(init, x);
        let all = init.insert(p, x);
        assert forall|k: int| 0 <= k < init.len() implies T::name_of(#[trigger] init[k])
            != T::name_of(x) by {
            lemma_sorted_member::<T>(rest, k);
            let i = choose|i: int| 0 <= i < rest.len() && #[trigger] rest[i] == init[k];
            assert(s[i] == init[k] && s[s.len() - 1] == x);
        }
        assert forall|i: int, j: int| 0 <= i < j < all.len() implies T::name_of(#[trigger] all[i])
            != T::name_of(#[trigger] all[j]) by {
            let a = if i < p {
                i
            } else {
                i - 1
            };
            let b = if j < p {
                j
            } else {
                j - 1
            };
            if i == p {
                assert(all[j] == init[b]);
            } else if j == p {
                assert(all[i] == init[a]);
            } else {
                assert(all[i] == init[a] && all[j] == init[b]);
            }
        }
    }
}

/// Things with different names are in strictly ascending order once sorted.
pub proof fn law_sorted_strictly<T: Named>(s: Seq<T::V>)
    requires
        names_differ::<T>(s),
    ensures
        forall|i: int, j: int|
            0 <= i < j < s.len() ==> before(
                T::name_of(#[trigger] sorted::<T>(s)[i]),
                T::name_of(#[trigger] sorted::<T>(s)[j]),
            ),
{
    law_sorted::<T>(s);
    lemma_sorted_differ::<T>(s);
    let o = sorted::<T>(s);
    assert forall|i: int, j: int| 0 <= i < j < s.len() implies before(
        T::name_of(#[trigger] o[i]),
        T::name_of(#[trigger] o[j]),
    ) by {
        if !before(T::name_of(o[i]), T::name_of(o[j])) {
            lemma_before_total(T::name_of(o[i]), T::name_of(o[j]));
        }
    }
}

/// What is sorted is among what was there.
pub proof fn law_sorted_members<T: Named>(s: Seq<T::V>, k: int)
    requires
        0 <= k < s.len(),
    ensures
        exists|i: int| 0 <= i < s.len() && #[trigger] s[i] == sorted::<T>(s)[k],
        exists|i: int| 0 <= i < s.len() && #[trigger] sorted::<T>(s)[i] == s[k],
    decreases s.len(),
{
    law_sorted::<T>(s);
    lemma_sorted_member::<T>(s, k);
    let x = s.last();
    let rest = s.drop_last();
    let init = sorted::<T>(rest);
    law_sorted::<T>(rest);
    lemma_place_range::<T>(init, x);
    let p = place::<T>(init, x);
    if k == s.len() - 1 {
        assert(sorted::<T>(s)[p] == s[k]);
    } else {
        law_sorted_members::<T>(rest, k);
        let i = choose|i: int| 0 <= i < rest.len() && #[trigger] init[i] == rest[k];
        let i1 = if i < p {
            i
        } else {
            i + 1
        };
        assert(sorted::<T>(s)[i1] == s[k]);
    }
}

/// Sorting only moves things, and leaves them in the order of their names.
pub proof fn law_sorted<T: Named>(s: Seq<T::V>)
    ensures
        in_order::<T>(sorted::<T>(s)),
        sorted::<T>(s).to_multiset() == s.to_multiset(),
        sorted::<T>(s).len() == s.len(),
    decreases s.len(),
{
    if s.len() > 0 {
        let x = s.last();
        let init = sorted::<T>(s.drop_last());
        law_sorted::<T>(s.drop_last());
        lemma_place_range::<T>(init, x);
        let p = place::<T>(init, x);
        let all = init.insert(p, x);
        vstd::seq_lib::to_multiset_insert(init, p, x);
        assert(s =~= s.drop_last().push(x));
        assert forall|i: int, j: int| 0 <= i < j < all.len() implies !before(
            T::name_of(#[trigger] all[j]),
            T::name_of(#[trigger] all[i]),
        ) by {
            let a = T::name_of(all[i]);
            let b = T::name_of(all[j]);
            if i == p {
                // x comes before init[p], which does not come after init[j - 1].
                if before(b, a) {
                    let q = T::name_of(init[p]);
                    lemma_before_transitive(b, a, q);
                    if j - 1 == p {
                        lemma_before_irreflexive(q);
                    }
                }
            } else if j == p {
                assert(all[i] == init[i]);
            } else {
                let i0 = if i < p {
                    i
                } else {
                    i - 1
                };
                let j0 = if j < p {
                    j
                } else {
                    j - 1
                };
                assert(all[i] == init[i0]);
                assert(all[j] == init[j0]);
            }
        }
    } else {
        assert(sorted::<T>(s) =~= s);
    }
}

/// Sorts by name; things with the same name stay in order.
pub fn sort_named<T: Named>(v: Vec<T>) -> (r: Vec<T>)
    ensures
        views(r@) == sorted::<T>(views(v@)),
{
    let ghost all = views(v@);
    let mut rest = v;
    let mut out: Vec<T> = Vec::new();
    let ghost mut k: int = 0;
    assert(all.take(0) =~= Seq::empty());
    assert(views(out@) =~= Seq::empty());
    assert(all.skip(0) =~= views(rest@));
    while rest.len() > 0
        invariant
            0 <= k <= all.len(),
            views(rest@) == all.skip(k),
            views(out@) == sorted::<T>(all.take(k)),
        decreases rest@.len(),
    {
        assert(all.skip(k).len() > 0) by {
            assert(views(rest@).len() == rest@.len());
        }
        let ghost was = rest@;
        let x = rest.remove(0);
        let ghost had = views(out@);
        let mut i: usize = 0;
        while i < out.len() && !is_before(x.name(), out[i].name())
            invariant
                i <= out@.len(),
                had == views(out@),
                forall|j: int|
                    0 <= j < i ==> !before(T::name_of(x@), T::name_of(#[trigger] had[j])),
            decreases out@.len() - i,
        {
            assert(had[i as int] == out@[i as int]@);
            i = i + 1;
        }
        assert(i < out@.len() ==> had[i as int] == out@[i as int]@);
        proof {
            lemma_place::<T>(had, x@, i as int);
        }
        out.insert(i, x);
        proof {
            assert(views(out@) =~= had.insert(i as int, x@));
            assert(all.skip(k)[0] == x@);
            assert(all.take(k + 1).drop_last() =~= all.take(k));
            assert(all.take(k + 1).last() == x@);
            assert forall|j: int| 0 <= j < rest@.len() implies views(rest@)[j] == all.skip(
                k + 1,
            )[j] by {
                assert(rest@[j] == was[j + 1]);
                assert(views(was)[j + 1] == all.skip(k)[j + 1]);
            }
            assert(views(was).len() == all.skip(k).len());
            assert(views(rest@) =~= all.skip(k + 1));
            k = k + 1;
        }
    }
    assert(k == all.len()) by {
        assert(views(rest@).len() == 0);
    }
    assert(all.take(k) =~= all);
    out
}

impl Named for String {
    open spec fn name_of(v: Seq<char>) -> Seq<char> {
        v
    }

    fn name(&self) -> (r: &str) {
        self.as_str()
    }
}

} // verus!

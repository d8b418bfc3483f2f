//! When a group file is accepted and when it is refused, told by its members.
use crate::cli::group_toml::{
    accepted, env_pairs, fails, first_refused, lower, lower_char, pair_texts, refusal, refused,
    repeats, strategy_of, GroupStrategy, GroupTomlErrorView, PlacementGroup, RawGroup, RawMember,
};
use crate::text::texts;
use vstd::prelude::*;

verus! {

/// Whether no two members have the same label.
pub open spec fn labels_differ(ms: Seq<RawMember>) -> bool {
    forall|i: int, j: int|
        0 <= i < j < ms.len() ==> (#[trigger] ms[i]).label@ != (#[trigger] ms[j]).label@
}

/// Whether every predicate could be read.
pub open spec fn all_read<R>(reqs: Seq<Result<R, String>>) -> bool {
    forall|i: int| 0 <= i < reqs.len() ==> (#[trigger] reqs[i]) is Ok
}

/// Whether the two texts are the same but for the case of their ASCII letters.
pub open spec fn same_letters(a: Seq<char>, b: Seq<char>) -> bool {
    &&& a.len() == b.len()
    &&& forall|i: int|
        0 <= i < a.len() ==> (#[trigger] a[i]) == b[i] || ('A' <= a[i] <= 'Z' && a[i] as u32 + 32
            == b[i] as u32)
}

proof fn lemma_lower_char(c: char)
    ensures
        'A' <= c <= 'Z' ==> lower_char(c) as u32 == c as u32 + 32,
        !('A' <= c <= 'Z') ==> lower_char(c) == c,
{
    if 'A' <= c <= 'Z' {
        let m = (c as u32 + 32) as char;
        assert(m as u32 == c as u32 + 32);
    }
}

proof fn lemma_lowered(s: Seq<char>)
    ensures
        same_letters_lower(s, lower(s)),
{
    assert forall|i: int| 0 <= i < s.len() implies if 'A' <= s[i] <= 'Z' {
        (#[trigger] lower(s)[i]) as u32 == s[i] as u32 + 32
    } else {
        lower(s)[i] == s[i]
    } by {
        lemma_lower_char(s[i]);
    }
}

proof fn lemma_lower(s: Seq<char>, small: Seq<char>)
    requires
        forall|i: int| 0 <= i < small.len() ==> 'a' <= #[trigger] small[i] <= 'z',
    ensures
        lower(s) == small <==> same_letters(s, small),
{
    if lower(s) == small {
        assert forall|i: int| 0 <= i < s.len() implies (#[trigger] s[i]) == small[i] || ('A' <= s[i]
            <= 'Z' && s[i] as u32 + 32 == small[i] as u32) by {
            assert(lower(s)[i] == lower_char(s[i]));
            lemma_lower_char(s[i]);
        }
    }
    if same_letters(s, small) {
        assert forall|i: int| 0 <= i < s.len() implies lower_char(#[trigger] s[i]) == small[i] by {
            let c = s[i];
            let d = small[i];
            if c != d {
                let m = (c as u32 + 32) as char;
                assert(m as u32 == d as u32);
                vstd::utf8::char_u32_cast(d, d as u32);
                vstd::utf8::char_u32_cast(m, m as u32);
            } else {
                assert('a' <= small[i] <= 'z');
            }
        }
        assert(lower(s) =~= small);
    }
}

/// The two strategies are `pack` and `spread`, in any case; there is no other.
pub proof fn law_strategies(s: Seq<char>)
    ensures
        strategy_of(s) == Some(GroupStrategy::Pack) <==> same_letters(s, "pack"@),
        strategy_of(s) == Some(GroupStrategy::Spread) <==> same_letters(s, "spread"@),
        strategy_of(s) is None <==> !same_letters(s, "pack"@) && !same_letters(s, "spread"@),
{
    reveal_strlit("pack");
    reveal_strlit("spread");
    assert("pack"@ =~= seq!['p', 'a', 'c', 'k']);
    assert("spread"@ =~= seq!['s', 'p', 'r', 'e', 'a', 'd']);
    lemma_lower(s, "pack"@);
    lemma_lower(s, "spread"@);
}

/// A group with a known strategy, at least one member, labels that differ and
/// predicates that could all be read is not refused for any reason.
pub proof fn law_good_group_accepted<R>(
    raw: RawGroup,
    reqs: Seq<Result<R, String>>,
    e: GroupTomlErrorView,
)
    requires
        reqs.len() == raw.member@.len(),
        same_letters(raw.strategy@, "pack"@) || same_letters(raw.strategy@, "spread"@),
        raw.member@.len() > 0,
        labels_differ(raw.member@),
        all_read(reqs),
    ensures
        !fails(raw, reqs, e),
{
    law_strategies(raw.strategy@);
    let ms = raw.member@;
    assert forall|i: int| 0 <= i < ms.len() implies !refused(ms, reqs, i) by {
        assert(reqs[i] is Ok);
        if repeats(ms, i) {
            let j = choose|j: int| 0 <= j < i && (#[trigger] ms[j]).label@ == ms[i].label@;
            assert(ms[j].label@ != ms[i].label@);
        }
    }
    if fails(raw, reqs, e) {
        let i = choose|i: int| #[trigger] first_refused(ms, reqs, i) && e == refusal(ms, reqs, i);
        assert(refused(ms, reqs, i));
    }
}

/// An accepted group is as good as that, and holds the members of the file in
/// their order: each with its label, its predicate as read and as written, its
/// arguments, and the pairs of its environment.
pub proof fn law_accepted_group<R>(
    raw: RawGroup,
    reqs: Seq<Result<R, String>>,
    g: PlacementGroup<R>,
)
    requires
        reqs.len() == raw.member@.len(),
        accepted(raw, reqs, g),
    ensures
        g.strategy == GroupStrategy::Pack <==> same_letters(raw.strategy@, "pack"@),
        g.strategy == GroupStrategy::Spread <==> same_letters(raw.strategy@, "spread"@),
        raw.member@.len() > 0,
        labels_differ(raw.member@),
        all_read(reqs),
        g.members@.len() == raw.member@.len(),
        forall|i: int|
            0 <= i < g.members@.len() ==> {
                &&& (#[trigger] g.members@[i]).label@ == raw.member@[i].label@
                &&& reqs[i] == Ok::<R, String>(g.members@[i].req)
                &&& g.members@[i].requires_src@ == raw.member@[i].requires@
                &&& texts(g.members@[i].argv@) == texts(raw.member@[i].argv@)
                &&& pair_texts(g.members@[i].env@) == env_pairs(raw.member@[i].env@)
            },
{
    law_strategies(raw.strategy@);
    let ms = raw.member@;
    assert forall|i: int, j: int| 0 <= i < j < ms.len() implies (#[trigger] ms[i]).label@ != (
    #[trigger] ms[j]).label@ by {
        assert(!refused(ms, reqs, j));
    }
    assert forall|i: int| 0 <= i < reqs.len() implies (#[trigger] reqs[i]) is Ok by {
        assert(!refused(ms, reqs, i));
    }
    assert forall|i: int| 0 <= i < g.members@.len() implies {
        &&& (#[trigger] g.members@[i]).label@ == raw.member@[i].label@
        &&& reqs[i] == Ok::<R, String>(g.members@[i].req)
        &&& g.members@[i].requires_src@ == raw.member@[i].requires@
        &&& texts(g.members@[i].argv@) == texts(raw.member@[i].argv@)
        &&& pair_texts(g.members@[i].env@) == env_pairs(raw.member@[i].env@)
    } by {
        assert(!refused(ms, reqs, i));
    }
}

/// The pairs of an environment are the first two texts of each entry, in order;
/// an entry of fewer is left out, and a third text does not matter.
pub proof fn law_env_pairs(env: Seq<Vec<String>>, e: Vec<String>)
    ensures
        env_pairs(Seq::empty()).len() == 0,
        e@.len() < 2 ==> env_pairs(env.push(e)) == env_pairs(env),
        e@.len() >= 2 ==> env_pairs(env.push(e)) == env_pairs(env).push((e@[0]@, e@[1]@)),
{
    assert(env.push(e).drop_last() =~= env);
}

/// Each reason for a refusal, and when it is the reason: the strategy is neither
/// of the two; there are no members; two members have the same label, the first
/// such second one being named; or a predicate could not be read.
pub proof fn law_refusals<R>(raw: RawGroup, reqs: Seq<Result<R, String>>, e: GroupTomlErrorView)
    requires
        reqs.len() == raw.member@.len(),
        fails(raw, reqs, e),
    ensures
        match e {
            GroupTomlErrorView::UnknownStrategy(s) => !same_letters(raw.strategy@, "pack"@)
                && !same_letters(raw.strategy@, "spread"@) && same_letters_lower(raw.strategy@, s),
            GroupTomlErrorView::Empty => raw.member@.len() == 0,
            GroupTomlErrorView::DuplicateLabel(l) => exists|i: int, j: int|
                0 <= i < j < raw.member@.len() && (#[trigger] raw.member@[i]).label@ == l && (
                #[trigger] raw.member@[j]).label@ == l,
            GroupTomlErrorView::Predicate { label, err } => exists|i: int|
                0 <= i < raw.member@.len() && (#[trigger] raw.member@[i]).label@ == label && (
                reqs[i] matches Err(t) && t@ == err),
            _ => false,
        },
{
    law_strategies(raw.strategy@);
    let ms = raw.member@;
    if strategy_of(raw.strategy@) is Some && ms.len() > 0 {
        let i = choose|i: int| #[trigger] first_refused(ms, reqs, i) && e == refusal(ms, reqs, i);
        assert(refused(ms, reqs, i));
        if repeats(ms, i) {
            let j = choose|j: int| 0 <= j < i && (#[trigger] ms[j]).label@ == ms[i].label@;
            assert(ms[j].label@ == ms[i].label@);
        } else {
            assert(ms[i].label@ == ms[i].label@);
        }
    }
    lemma_lowered(raw.strategy@);
}

/// Whether `low` is the text with its ASCII capitals made small.
pub open spec fn same_letters_lower(s: Seq<char>, low: Seq<char>) -> bool {
    &&& s.len() == low.len()
    &&& forall|i: int|
        0 <= i < s.len() ==> if 'A' <= s[i] <= 'Z' {
            (#[trigger] low[i]) as u32 == s[i] as u32 + 32
        } else {
            low[i] == s[i]
        }
}

/// A bad member is reported: the first one that repeats a label or whose
/// predicate could not be read, a repeated label before the predicate.
pub proof fn law_first_bad_member<R>(raw: RawGroup, reqs: Seq<Result<R, String>>, bad: int)
    requires
        reqs.len() == raw.member@.len(),
        same_letters(raw.strategy@, "pack"@) || same_letters(raw.strategy@, "spread"@),
        0 <= bad < raw.member@.len(),
        labels_differ(raw.member@.take(bad)),
        forall|i: int| 0 <= i < bad ==> (#[trigger] reqs[i]) is Ok,
    ensures
        (exists|j: int|
            0 <= j < bad && (#[trigger] raw.member@[j]).label@ == raw.member@[bad].label@)
            ==> fails(raw, reqs, GroupTomlErrorView::DuplicateLabel(raw.member@[bad].label@)),
        !(exists|j: int|
            0 <= j < bad && (#[trigger] raw.member@[j]).label@ == raw.member@[bad].label@)
            && reqs[bad] is Err ==> fails(
            raw,
            reqs,
            GroupTomlErrorView::Predicate {
                label: raw.member@[bad].label@,
                err: reqs[bad]->Err_0@,
            },
        ),
{
    law_strategies(raw.strategy@);
    let ms = raw.member@;
    let before = ms.take(bad);
    assert forall|i: int| 0 <= i < bad implies !#[trigger] refused(ms, reqs, i) by {
        assert(reqs[i] is Ok);
        if repeats(ms, i) {
            let j = choose|j: int| 0 <= j < i && (#[trigger] ms[j]).label@ == ms[i].label@;
            assert(before[j] == ms[j] && before[i] == ms[i]);
        }
    }
    if repeats(ms, bad) || reqs[bad] is Err {
        assert(first_refused(ms, reqs, bad));
    }
}

/// A strategy that is neither of the two is refused first, under its name in small
/// letters; then a group without members.
pub proof fn law_strategy_first<R>(raw: RawGroup, reqs: Seq<Result<R, String>>)
    ensures
        !same_letters(raw.strategy@, "pack"@) && !same_letters(raw.strategy@, "spread"@) ==> fails(
            raw,
            reqs,
            GroupTomlErrorView::UnknownStrategy(lower(raw.strategy@)),
        ) && same_letters_lower(raw.strategy@, lower(raw.strategy@)),
        (same_letters(raw.strategy@, "pack"@) || same_letters(raw.strategy@, "spread"@))
            && raw.member@.len() == 0 ==> fails(raw, reqs, GroupTomlErrorView::Empty),
{
    law_strategies(raw.strategy@);
    lemma_lowered(raw.strategy@);
}

} // verus!

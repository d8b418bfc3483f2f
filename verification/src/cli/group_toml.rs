//! A placement group as its file describes it.
//!
//! ```toml
//! strategy = "pack"   # or "spread", in any case
//!
//! [[member]]
//! label = "trainer"
//! requires = "any(gpu, gpu.vram_mb >= 80000)"
//! argv = ["python", "train.py"]
//! env = [["RANK", "0"]]
//! ```
//!
//! `env` entries are `[KEY, VALUE]` pairs. Both `argv` and `env` are empty if
//! omitted. Labels are unique. The predicates are parsed before anything is sent.
use crate::text::{chars_of, copy_texts, spells, text_eq, text_of, texts};
use vstd::prelude::*;
use vstd::string::StringExecFns;

verus! {

/// How the members of a group are laid out over the nodes.
#[derive(Copy, Clone, Debug, PartialEq, Eq, Structural)]
pub enum GroupStrategy {
    Pack,
    Spread,
}

/// A member as the file has it.
#[derive(Debug)]
pub struct RawMember {
    pub label: String,
    pub requires: String,
    pub argv: Vec<String>,
    pub env: Vec<Vec<String>>,
}

/// A group as the file has it.
#[derive(Debug)]
pub struct RawGroup {
    pub strategy: String,
    pub member: Vec<RawMember>,
}

/// A validated member, with its parsed predicate.
#[derive(Debug)]
pub struct GroupMember<R> {
    pub label: String,
    pub req: R,
    /// The predicate as it was written.
    pub requires_src: String,
    pub argv: Vec<String>,
    pub env: Vec<(String, String)>,
}

/// A validated group.
#[derive(Debug)]
pub struct PlacementGroup<R> {
    pub strategy: GroupStrategy,
    pub members: Vec<GroupMember<R>>,
}

/// What is wrong with a group's file.
#[derive(Debug, PartialEq, Eq)]
pub enum GroupTomlError {
    NotFound(String),
    Io(String),
    Toml(String),
    UnknownStrategy(String),
    Predicate { label: String, err: String },
    DuplicateLabel(String),
    Empty,
}

/// What a [`GroupTomlError`] says.
pub enum GroupTomlErrorView {
    NotFound(Seq<char>),
    Io(Seq<char>),
    Toml(Seq<char>),
    UnknownStrategy(Seq<char>),
    Predicate { label: Seq<char>, err: Seq<char> },
    DuplicateLabel(Seq<char>),
    Empty,
}

impl View for GroupTomlError {
    type V = GroupTomlErrorView;

    open spec fn view(&self) -> GroupTomlErrorView {
        match *self {
            GroupTomlError::NotFound(s) => GroupTomlErrorView::NotFound(s@),
            GroupTomlError::Io(s) => GroupTomlErrorView::Io(s@),
            GroupTomlError::Toml(s) => GroupTomlErrorView::Toml(s@),
            GroupTomlError::UnknownStrategy(s) => GroupTomlErrorView::UnknownStrategy(s@),
            GroupTomlError::Predicate { label, err } => GroupTomlErrorView::Predicate {
                label: label@,
                err: err@,
            },
            GroupTomlError::DuplicateLabel(s) => GroupTomlErrorView::DuplicateLabel(s@),
            GroupTomlError::Empty => GroupTomlErrorView::Empty,
        }
    }
}

/// The error in words.
pub open spec fn group_error_text(e: GroupTomlErrorView) -> Seq<char> {
    match e {
        GroupTomlErrorView::NotFound(s) => "file not found: "@ + s,
        GroupTomlErrorView::Io(s) => "io: "@ + s,
        GroupTomlErrorView::Toml(s) => "toml: "@ + s,
        GroupTomlErrorView::UnknownStrategy(s) => "strategy '"@ + s
            + "' is not one of: pack, spread"@,
        GroupTomlErrorView::Predicate { label, err } => "predicate for member '"@ + label
            + "' is invalid: "@ + err,
        GroupTomlErrorView::DuplicateLabel(s) => "duplicate member label: "@ + s,
        GroupTomlErrorView::Empty => "group has no members"@,
    }
}

impl GroupTomlError {
    /// The error in words.
    pub fn to_string(&self) -> (t: String)
        ensures
            t@ == group_error_text(self@),
    {
        match self {
            GroupTomlError::NotFound(s) => {
                let mut t = "file not found: ".to_owned();
                t.append(s.as_str());
                t
            },
            GroupTomlError::Io(s) => {
                let mut t = "io: ".to_owned();
                t.append(s.as_str());
                t
            },
            GroupTomlError::Toml(s) => {
                let mut t = "toml: ".to_owned();
                t.append(s.as_str());
                t
            },
            GroupTomlError::UnknownStrategy(s) => {
                let mut t = "strategy '".to_owned();
                t.append(s.as_str());
                t.append("' is not one of: pack, spread");
                t
            },
            GroupTomlError::Predicate { label, err } => {
                let mut t = "predicate for member '".to_owned();
                t.append(label.as_str());
                t.append("' is invalid: ");
                t.append(err.as_str());
                t
            },
            GroupTomlError::DuplicateLabel(s) => {
                let mut t = "duplicate member label: ".to_owned();
                t.append(s.as_str());
                t
            },
            GroupTomlError::Empty => "group has no members".to_owned(),
        }
    }
}

/// The letter in lower case, if it is an ASCII one.
pub open spec fn lower_char(c: char) -> char {
    if 65 <= c as u32 <= 90 {
        (c as u32 + 32) as char
    } else {
        c
    }
}

/// The text with its ASCII letters in lower case.
pub open spec fn lower(s: Seq<char>) -> Seq<char> {
    Seq::new(s.len(), |i: int| lower_char(s[i]))
}

fn to_lower(s: &str) -> (v: Vec<char>)
    ensures
        v@ == lower(s@),
{
    let mut v = chars_of(s);
    let mut i: usize = 0;
    while i < v.len()
        invariant
            i <= v@.len(),
            v@.len() == s@.len(),
            forall|k: int| 0 <= k < i ==> v@[k] == lower_char(s@[k]),
            forall|k: int| i <= k < v@.len() ==> v@[k] == s@[k],
        decreases v@.len() - i,
    {
        let c: char = v[i];
        let n: u32 = c as u32;
        if 65 <= n && n <= 90 {
            v[i] = (n as u8 + 32) as char;
        }
        i = i + 1;
    }
    assert(v@ =~= lower(s@));
    v
}

/// The strategy that the name stands for, in any case.
pub open spec fn strategy_of(s: Seq<char>) -> Option<GroupStrategy> {
    if lower(s) == "pack"@ {
        Some(GroupStrategy::Pack)
    } else if lower(s) == "spread"@ {
        Some(GroupStrategy::Spread)
    } else {
        None
    }
}

/// The first two texts of each entry; an entry of fewer is left out.
pub open spec fn env_pairs(env: Seq<Vec<String>>) -> Seq<(Seq<char>, Seq<char>)>
    decreases env.len(),
{
    if env.len() == 0 {
        Seq::empty()
    } else {
        let init = env_pairs(env.drop_last());
        let e = env.last()@;
        if e.len() >= 2 {
            init.push((e[0]@, e[1]@))
        } else {
            init
        }
    }
}

/// The texts of a list of pairs.
pub open spec fn pair_texts(v: Seq<(String, String)>) -> Seq<(Seq<char>, Seq<char>)> {
    Seq::new(v.len(), |i: int| (v[i].0@, v[i].1@))
}

fn pairs_of(env: &Vec<Vec<String>>) -> (r: Vec<(String, String)>)
    ensures
        pair_texts(r@) == env_pairs(env@),
{
    let mut r: Vec<(String, String)> = Vec::new();
    let mut i: usize = 0;
    assert(pair_texts(r@) =~= env_pairs(env@.take(0)));
    while i < env.len()
        invariant
            i <= env@.len(),
            pair_texts(r@) == env_pairs(env@.take(i as int)),
        decreases env@.len() - i,
    {
        assert(env@.take(i + 1).drop_last() =~= env@.take(i as int));
        let ghost before = pair_texts(r@);
        let e = &env[i];
        if e.len() >= 2 {
            r.push((e[0].clone(), e[1].clone()));
            assert(pair_texts(r@) =~= before.push((e@[0]@, e@[1]@)));
        }
        i = i + 1;
    }
    assert(env@.take(env@.len() as int) =~= env@);
    r
}

/// Whether the label of the member was used before it.
pub open spec fn repeats(ms: Seq<RawMember>, i: int) -> bool {
    exists|j: int| 0 <= j < i && (#[trigger] ms[j]).label@ == ms[i].label@
}

/// Whether the member is refused.
pub open spec fn refused<R>(ms: Seq<RawMember>, reqs: Seq<Result<R, String>>, i: int) -> bool {
    repeats(ms, i) || reqs[i] is Err
}

/// Why the member is refused.
pub open spec fn refusal<R>(
    ms: Seq<RawMember>,
    reqs: Seq<Result<R, String>>,
    i: int,
) -> GroupTomlErrorView {
    if repeats(ms, i) {
        GroupTomlErrorView::DuplicateLabel(ms[i].label@)
    } else {
        GroupTomlErrorView::Predicate { label: ms[i].label@, err: reqs[i]->Err_0@ }
    }
}

/// Whether the member is the first that is refused.
pub open spec fn first_refused<R>(
    ms: Seq<RawMember>,
    reqs: Seq<Result<R, String>>,
    i: int,
) -> bool {
    &&& 0 <= i < ms.len()
    &&& refused(ms, reqs, i)
    &&& forall|j: int| 0 <= j < i ==> !#[trigger] refused(ms, reqs, j)
}

/// Whether the file is refused for this reason.
pub open spec fn fails<R>(
    raw: RawGroup,
    reqs: Seq<Result<R, String>>,
    e: GroupTomlErrorView,
) -> bool {
    if strategy_of(raw.strategy@) is None {
        e == GroupTomlErrorView::UnknownStrategy(lower(raw.strategy@))
    } else if raw.member@.len() == 0 {
        e == GroupTomlErrorView::Empty
    } else {
        exists|i: int| #[trigger]
            first_refused(raw.member@, reqs, i) && e == refusal(raw.member@, reqs, i)
    }
}

/// Whether the validated member is the one of the file.
pub open spec fn member_is<R>(m: GroupMember<R>, raw: RawMember, req: Result<R, String>) -> bool {
    &&& m.label@ == raw.label@
    &&& req == Ok::<R, String>(m.req)
    &&& m.requires_src@ == raw.requires@
    &&& texts(m.argv@) == texts(raw.argv@)
    &&& pair_texts(m.env@) == env_pairs(raw.env@)
}

/// Whether the file is accepted, as this group.
pub open spec fn accepted<R>(
    raw: RawGroup,
    reqs: Seq<Result<R, String>>,
    g: PlacementGroup<R>,
) -> bool {
    &&& strategy_of(raw.strategy@) == Some(g.strategy)
    &&& raw.member@.len() > 0
    &&& g.members@.len() == raw.member@.len()
    &&& forall|i: int|
        0 <= i < raw.member@.len() ==> !#[trigger] refused(raw.member@, reqs, i) && member_is(
            g.members@[i],
            raw.member@[i],
            reqs[i],
        )
}

/// Validate a group: `reqs` holds what the predicate parser says of each
/// member's `requires`, in order.
pub fn validate_group<R>(raw: RawGroup, reqs: Vec<Result<R, String>>) -> (r: Result<
    PlacementGroup<R>,
    GroupTomlError,
>)
    requires
        reqs@.len() == raw.member@.len(),
    ensures
        match r {
            Ok(g) => accepted(raw, reqs@, g),
            Err(e) => fails(raw, reqs@, e@),
        },
{
    let name = to_lower(raw.strategy.as_str());
    let strategy = if spells(&name, "pack") {
        GroupStrategy::Pack
    } else if spells(&name, "spread") {
        GroupStrategy::Spread
    } else {
        return Err(GroupTomlError::UnknownStrategy(text_of(&name)));
    };
    if raw.member.len() == 0 {
        return Err(GroupTomlError::Empty);
    }
    let ghost all = reqs@;
    let ms = &raw.member;
    let mut rest: Vec<Result<R, String>> = reqs;
    let mut members: Vec<GroupMember<R>> = Vec::new();
    let mut i: usize = 0;
    assert(all.skip(0) =~= all);
    while i < ms.len()
        invariant
            i <= ms@.len(),
            ms@ == raw.member@,
            ms@.len() > 0,
            all.len() == ms@.len(),
            rest@ == all.skip(i as int),
            members@.len() == i,
            strategy_of(raw.strategy@) == Some(strategy),
            forall|k: int|
                0 <= k < i ==> !#[trigger] refused(ms@, all, k) && member_is(
                    members@[k],
                    ms@[k],
                    all[k],
                ),
            all == reqs@,
        decreases ms@.len() - i,
    {
        let m = &ms[i];
        if used_before(ms, i) {
            assert(refused(ms@, all, i as int));
            assert(first_refused(raw.member@, all, i as int));
            return Err(GroupTomlError::DuplicateLabel(m.label.clone()));
        }
        let req = rest.remove(0);
        assert(req == all[i as int]);
        match req {
            Err(err) => {
                assert(refused(ms@, all, i as int));
                assert(first_refused(raw.member@, all, i as int));
                return Err(GroupTomlError::Predicate { label: m.label.clone(), err });
            },
            Ok(req) => {
                let ghost before = members@;
                let member = GroupMember {
                    label: m.label.clone(),
                    req,
                    requires_src: m.requires.clone(),
                    argv: copy_texts(&m.argv),
                    env: pairs_of(&m.env),
                };
                members.push(member);
                assert(member_is(members@[i as int], ms@[i as int], all[i as int]));
                assert forall|k: int| 0 <= k < i + 1 implies !#[trigger] refused(ms@, all, k)
                    && member_is(members@[k], ms@[k], all[k]) by {
                    if k < i {
                        assert(members@[k] == before[k]);
                    }
                }
            },
        }
        assert(rest@ =~= all.skip(i + 1));
        i = i + 1;
    }
    let g = PlacementGroup { strategy, members };
    assert forall|k: int| 0 <= k < raw.member@.len() implies !#[trigger] refused(
        raw.member@,
        all,
        k,
    ) && member_is(g.members@[k], raw.member@[k], all[k]) by {
        assert(!refused(ms@, all, k));
    }
    assert(accepted(raw, all, g));
    Ok(g)
}

fn used_before(ms: &Vec<RawMember>, i: usize) -> (r: bool)
    requires
        i < ms@.len(),
    ensures
        r == repeats(ms@, i as int),
{
    let mut j: usize = 0;
    while j < i
        invariant
            j <= i < ms@.len(),
            forall|k: int| 0 <= k < j ==> (#[trigger] ms@[k]).label@ != ms@[i as int].label@,
        decreases i - j,
    {
        if text_eq(ms[j].label.as_str(), ms[i].label.as_str()) {
            assert(ms@[j as int].label@ == ms@[i as int].label@);
            return true;
        }
        j = j + 1;
    }
    false
}

/// The labels of an accepted group are unique.
pub proof fn law_labels_unique<R>(
    raw: RawGroup,
    reqs: Seq<Result<R, String>>,
    g: PlacementGroup<R>,
    i: int,
    j: int,
)
    requires
        accepted(raw, reqs, g),
        0 <= i < j < g.members@.len(),
    ensures
        g.members@[i].label@ != g.members@[j].label@,
{
    assert(!refused(raw.member@, reqs, i));
    assert(!refused(raw.member@, reqs, j));
    assert(raw.member@[i].label@ == g.members@[i].label@);
}

/// The name of a strategy may be written in any case.
pub proof fn law_strategy_case(s: Seq<char>)
    ensures
        strategy_of(lower(s)) == strategy_of(s),
{
    assert(lower(lower(s)) =~= lower(s)) by {
        assert forall|i: int| 0 <= i < s.len() implies lower_char(lower_char(s[i])) == lower_char(
            s[i],
        ) by {}
    }
}

/// A file is either accepted or refused, and refused for one reason only.
pub proof fn law_one_reason<R>(
    raw: RawGroup,
    reqs: Seq<Result<R, String>>,
    a: GroupTomlErrorView,
    b: GroupTomlErrorView,
    g: PlacementGroup<R>,
)
    requires
        fails(raw, reqs, a),
    ensures
        fails(raw, reqs, b) ==> a == b,
        !accepted(raw, reqs, g),
{
    if strategy_of(raw.strategy@) is Some && raw.member@.len() > 0 {
        let i = choose|i: int| #[trigger]
            first_refused(raw.member@, reqs, i) && a == refusal(raw.member@, reqs, i);
        assert(refused(raw.member@, reqs, i));
        if fails(raw, reqs, b) {
            let j = choose|j: int| #[trigger]
                first_refused(raw.member@, reqs, j) && b == refusal(raw.member@, reqs, j);
            assert(refused(raw.member@, reqs, j));
            assert(i == j);
        }
    }
}

} // verus!

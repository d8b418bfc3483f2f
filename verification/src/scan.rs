//! Taking text apart: trimming, splitting, and reading numbers, on lists of
//! characters.
use crate::text::chars_range;
use vstd::prelude::*;

verus! {

/// What a list of character lists says.
pub open spec fn pieces(v: Seq<Vec<char>>) -> Seq<Seq<char>> {
    Seq::new(v.len(), |i: int| v[i]@)
}

/// White space: the characters with the Unicode property `White_Space`.
pub open spec fn is_space(c: char) -> bool {
    let n = c as u32;
    ||| 0x9 <= n <= 0xd
    ||| n == 0x20
    ||| n == 0x85
    ||| n == 0xa0
    ||| n == 0x1680
    ||| 0x2000 <= n <= 0x200a
    ||| n == 0x2028
    ||| n == 0x2029
    ||| n == 0x202f
    ||| n == 0x205f
    ||| n == 0x3000
}

fn space(c: char) -> (r: bool)
    ensures
        r == is_space(c),
{
    let n: u32 = c as u32;
    (0x9 <= n && n <= 0xd) || n == 0x20 || n == 0x85 || n == 0xa0 || n == 0x1680 || (0x2000 <= n
        && n <= 0x200a) || n == 0x2028 || n == 0x2029 || n == 0x202f || n == 0x205f || n == 0x3000
}

/// The text without the white space that it starts with.
pub open spec fn trim_start(s: Seq<char>) -> Seq<char>
    decreases s.len(),
{
    if s.len() > 0 && is_space(s[0]) {
        trim_start(s.skip(1))
    } else {
        s
    }
}

/// The text without the white space that it ends with.
pub open spec fn trim_end(s: Seq<char>) -> Seq<char>
    decreases s.len(),
{
    if s.len() > 0 && is_space(s.last()) {
        trim_end(s.drop_last())
    } else {
        s
    }
}

/// The text without the white space around it.
pub open spec fn trimmed(s: Seq<char>) -> Seq<char> {
    trim_end(trim_start(s))
}

/// The text without the white space around it.
pub fn trim(v: &Vec<char>) -> (r: Vec<char>)
    ensures
        r@ == trimmed(v@),
{
    let mut i: usize = 0;
    assert(v@.skip(0) =~= v@);
    while i < v.len() && space(v[i])
        invariant
            i <= v@.len(),
            trim_start(v@) == trim_start(v@.skip(i as int)),
        decreases v@.len() - i,
    {
        assert(v@.skip(i as int).skip(1) =~= v@.skip(i + 1));
        i = i + 1;
    }
    let mut j: usize = v.len();
    assert(v@.subrange(i as int, j as int) =~= v@.skip(i as int));
    while j > i && space(v[j - 1])
        invariant
            i <= j <= v@.len(),
            trimmed(v@) == trim_end(v@.subrange(i as int, j as int)),
        decreases j,
    {
        let ghost now = v@.subrange(i as int, j as int);
        assert(now.last() == v@[j - 1]);
        assert(now.drop_last() =~= v@.subrange(i as int, j - 1));
        j = j - 1;
    }
    assert(i < j ==> v@.subrange(i as int, j as int).last() == v@[j - 1]);
    chars_range(v, i, j)
}

/// The text up to the first `c` and the text after it, if there is a `c`.
pub open spec fn split_once(s: Seq<char>, c: char) -> Option<(Seq<char>, Seq<char>)>
    decreases s.len(),
{
    if s.len() == 0 {
        None
    } else if s[0] == c {
        Some((Seq::empty(), s.skip(1)))
    } else {
        match split_once(s.skip(1), c) {
            None => None,
            Some((a, b)) => Some((seq![s[0]] + a, b)),
        }
    }
}

/// A split point is a first occurrence.
pub proof fn lemma_split_at(s: Seq<char>, c: char, i: int)
    requires
        0 <= i < s.len(),
        s[i] == c,
        forall|k: int| 0 <= k < i ==> s[k] != c,
    ensures
        split_once(s, c) == Some((s.take(i), s.skip(i + 1))),
    decreases s.len(),
{
    if i == 0 {
        assert(s.take(0) =~= Seq::empty());
    } else {
        let t = s.skip(1);
        lemma_split_at(t, c, i - 1);
        assert(seq![s[0]] + t.take(i - 1) =~= s.take(i));
        assert(t.skip(i) =~= s.skip(i + 1));
    }
}

/// Where there is no occurrence there is no split.
pub proof fn lemma_no_split(s: Seq<char>, c: char)
    requires
        forall|k: int| 0 <= k < s.len() ==> s[k] != c,
    ensures
        split_once(s, c) is None,
    decreases s.len(),
{
    if s.len() > 0 {
        lemma_no_split(s.skip(1), c);
    }
}

/// What follows a split is shorter than the text.
pub proof fn lemma_split_shrinks(s: Seq<char>, c: char)
    ensures
        split_once(s, c) matches Some((a, b)) ==> a.len() + 1 + b.len() == s.len(),
    decreases s.len(),
{
    if s.len() > 0 {
        lemma_split_shrinks(s.skip(1), c);
    }
}

/// The first position of `c` at or after `from`, or the length.
fn find(v: &Vec<char>, from: usize, c: char) -> (i: usize)
    requires
        from <= v@.len(),
    ensures
        from <= i <= v@.len(),
        forall|k: int| from <= k < i ==> v@[k] != c,
        i < v@.len() ==> v@[i as int] == c && split_once(v@.skip(from as int), c) == Some(
            (v@.subrange(from as int, i as int), v@.skip(i + 1)),
        ),
        i == v@.len() ==> split_once(v@.skip(from as int), c) is None,
{
    let mut i: usize = from;
    while i < v.len() && v[i] != c
        invariant
            from <= i <= v@.len(),
            forall|k: int| from <= k < i ==> v@[k] != c,
        decreases v@.len() - i,
    {
        i = i + 1;
    }
    proof {
        let t = v@.skip(from as int);
        if i < v@.len() {
            lemma_split_at(t, c, i - from);
            assert(t.take(i - from) =~= v@.subrange(from as int, i as int));
            assert(t.skip(i - from + 1) =~= v@.skip(i + 1));
        } else {
            lemma_no_split(t, c);
        }
    }
    i
}

/// The text before and after the first `c`, if there is one.
pub fn cut(v: &Vec<char>, c: char) -> (r: Option<(Vec<char>, Vec<char>)>)
    ensures
        match split_once(v@, c) {
            None => r is None,
            Some((a, b)) => r is Some && r->Some_0.0@ == a && r->Some_0.1@ == b,
        },
{
    let i: usize = find(v, 0, c);
    assert(v@.skip(0) =~= v@);
    if i < v.len() {
        let n: usize = v.len();
        let a = chars_range(v, 0, i);
        let b = chars_range(v, i + 1, n);
        assert(b@ =~= v@.skip(i + 1));
        Some((a, b))
    } else {
        None
    }
}

/// The text between the `c`s: one piece more than there are `c`s.
pub open spec fn split(s: Seq<char>, c: char) -> Seq<Seq<char>>
    decreases s.len(),
    via split_decreases
{
    match split_once(s, c) {
        None => seq![s],
        Some((a, b)) => seq![a] + split(b, c),
    }
}

#[via_fn]
proof fn split_decreases(s: Seq<char>, c: char) {
    lemma_split_shrinks(s, c);
}

/// Splits at every `c`.
pub fn split_all(v: &Vec<char>, c: char) -> (r: Vec<Vec<char>>)
    ensures
        pieces(r@) == split(v@, c),
{
    let mut out: Vec<Vec<char>> = Vec::new();
    let mut pos: usize = 0;
    assert(v@.skip(0) =~= v@);
    assert(pieces(out@) + split(v@, c) =~= split(v@, c));
    loop
        invariant
            pos <= v@.len(),
            pieces(out@) + split(v@.skip(pos as int), c) == split(v@, c),
        decreases v@.len() - pos,
    {
        let ghost done = out@;
        let i: usize = find(v, pos, c);
        let piece = chars_range(v, pos, i);
        out.push(piece);
        assert(pieces(out@) =~= pieces(done).push(piece@));
        if i >= v.len() {
            assert(piece@ =~= v@.skip(pos as int));
            assert(pieces(done) + seq![piece@] =~= pieces(out@));
            return out;
        }
        proof {
            let rest = split(v@.skip(i + 1), c);
            assert(pieces(done) + (seq![piece@] + rest) =~= pieces(out@) + rest);
        }
        pos = i + 1;
    }
}

/// A line without the carriage return that it ends with.
pub open spec fn drop_cr(l: Seq<char>) -> Seq<char> {
    if l.len() > 0 && l.last() == '\r' {
        l.drop_last()
    } else {
        l
    }
}

/// The lines of a text: each ends with a newline or a carriage return and a
/// newline, which are not part of it; the last one need not.
pub open spec fn lines(s: Seq<char>) -> Seq<Seq<char>>
    decreases s.len(),
    via lines_decreases
{
    if s.len() == 0 {
        Seq::empty()
    } else {
        match split_once(s, '\n') {
            None => seq![s],
            Some((a, b)) => seq![drop_cr(a)] + lines(b),
        }
    }
}

#[via_fn]
proof fn lines_decreases(s: Seq<char>) {
    lemma_split_shrinks(s, '\n');
}

/// The lines of a text.
pub fn split_lines(v: &Vec<char>) -> (r: Vec<Vec<char>>)
    ensures
        pieces(r@) == lines(v@),
{
    let mut out: Vec<Vec<char>> = Vec::new();
    let mut pos: usize = 0;
    assert(v@.skip(0) =~= v@);
    assert(pieces(out@) + lines(v@) =~= lines(v@));
    while pos < v.len()
        invariant
            pos <= v@.len(),
            pieces(out@) + lines(v@.skip(pos as int)) == lines(v@),
        decreases v@.len() - pos,
    {
        let ghost done = out@;
        let i: usize = find(v, pos, '\n');
        if i >= v.len() {
            let piece = chars_range(v, pos, i);
            out.push(piece);
            assert(piece@ =~= v@.skip(pos as int));
            assert(pieces(done) + seq![piece@] =~= pieces(out@));
            return out;
        }
        let end: usize = if i > pos && v[i - 1] == '\r' {
            i - 1
        } else {
            i
        };
        let piece = chars_range(v, pos, end);
        out.push(piece);
        proof {
            let raw = v@.subrange(pos as int, i as int);
            assert(i > pos ==> raw.last() == v@[i - 1]);
            assert(piece@ =~= drop_cr(raw));
            let rest = lines(v@.skip(i + 1));
            assert(pieces(out@) =~= pieces(done).push(piece@));
            assert(pieces(done) + (seq![piece@] + rest) =~= pieces(out@) + rest);
        }
        pos = i + 1;
    }
    assert(v@.skip(pos as int) =~= Seq::empty());
    assert(pieces(out@) + Seq::<Seq<char>>::empty() =~= pieces(out@));
    out
}

/// How many characters come before the first white space.
pub open spec fn word_len(s: Seq<char>) -> int
    decreases s.len(),
{
    if s.len() == 0 || is_space(s[0]) {
        0
    } else {
        1 + word_len(s.skip(1))
    }
}

/// The words of a text: its longest runs without white space.
pub open spec fn words(s: Seq<char>) -> Seq<Seq<char>>
    decreases s.len(),
{
    if s.len() == 0 {
        Seq::empty()
    } else if word_len(s) <= 0 || word_len(s) > s.len() {
        words(s.skip(1))
    } else {
        seq![s.take(word_len(s))] + words(s.skip(word_len(s)))
    }
}

proof fn lemma_word_len(s: Seq<char>, n: int)
    requires
        0 <= n <= s.len(),
        forall|k: int| 0 <= k < n ==> !is_space(s[k]),
        n < s.len() ==> is_space(s[n]),
    ensures
        word_len(s) == n,
    decreases n,
{
    if n > 0 {
        lemma_word_len(s.skip(1), n - 1);
    }
}

/// The words of a text.
pub fn split_words(v: &Vec<char>) -> (r: Vec<Vec<char>>)
    ensures
        pieces(r@) == words(v@),
{
    let mut out: Vec<Vec<char>> = Vec::new();
    let mut pos: usize = 0;
    assert(v@.skip(0) =~= v@);
    assert(pieces(out@) + words(v@) =~= words(v@));
    while pos < v.len()
        invariant
            pos <= v@.len(),
            pieces(out@) + words(v@.skip(pos as int)) == words(v@),
        decreases v@.len() - pos,
    {
        let ghost done = out@;
        let ghost t = v@.skip(pos as int);
        let mut i: usize = pos;
        while i < v.len() && !space(v[i])
            invariant
                pos <= i <= v@.len(),
                forall|k: int| pos <= k < i ==> !is_space(v@[k]),
            decreases v@.len() - i,
        {
            i = i + 1;
        }
        proof {
            lemma_word_len(t, i - pos);
        }
        if i == pos {
            assert(t.skip(1) =~= v@.skip(pos + 1));
            pos = pos + 1;
        } else {
            let piece = chars_range(v, pos, i);
            out.push(piece);
            proof {
                assert(t.take(i - pos) =~= piece@);
                assert(t.skip(i - pos) =~= v@.skip(i as int));
                let rest = words(v@.skip(i as int));
                assert(pieces(out@) =~= pieces(done).push(piece@));
                assert(pieces(done) + (seq![piece@] + rest) =~= pieces(out@) + rest);
            }
            pos = i;
        }
    }
    assert(v@.skip(pos as int) =~= Seq::empty());
    assert(pieces(out@) + Seq::<Seq<char>>::empty() =~= pieces(out@));
    out
}

/// The first word, if there is one.
pub open spec fn first_word(s: Seq<char>) -> Option<Seq<char>> {
    if words(s).len() > 0 {
        Some(words(s)[0])
    } else {
        None
    }
}

/// Whether the text starts with `p`.
pub open spec fn starts_with(s: Seq<char>, p: Seq<char>) -> bool {
    p.len() <= s.len() && s.take(p.len() as int) == p
}

/// The text behind the prefix `p`, if it starts with it.
pub open spec fn strip(s: Seq<char>, p: Seq<char>) -> Option<Seq<char>> {
    if starts_with(s, p) {
        Some(s.skip(p.len() as int))
    } else {
        None
    }
}

/// Whether `p` stands in `v` at `pos`.
pub fn stands_at(v: &Vec<char>, pos: usize, p: &Vec<char>) -> (r: bool)
    requires
        pos <= v@.len(),
    ensures
        r == starts_with(v@.skip(pos as int), p@),
{
    if p.len() > v.len() - pos {
        return false;
    }
    let n: usize = v.len();
    let mut i: usize = 0;
    while i < p.len()
        invariant
            i <= p@.len(),
            pos + p@.len() <= n == v@.len(),
            forall|k: int| 0 <= k < i ==> v@[pos + k] == p@[k],
        decreases p@.len() - i,
    {
        if v[pos + i] != p[i] {
            assert(v@.skip(pos as int).take(p@.len() as int)[i as int] != p@[i as int]);
            return false;
        }
        i = i + 1;
    }
    assert(v@.skip(pos as int).take(p@.len() as int) =~= p@);
    true
}

/// The text behind the prefix, if it is there.
pub fn strip_prefix(v: &Vec<char>, p: &Vec<char>) -> (r: Option<Vec<char>>)
    ensures
        match strip(v@, p@) {
            None => r is None,
            Some(t) => r is Some && r->Some_0@ == t,
        },
{
    assert(v@.skip(0) =~= v@);
    if stands_at(v, 0, p) {
        let n: usize = v.len();
        let r = chars_range(v, p.len(), n);
        assert(r@ =~= v@.skip(p@.len() as int));
        Some(r)
    } else {
        None
    }
}

/// The text without as many copies of the non-empty `p` as it starts with.
pub open spec fn strip_all(s: Seq<char>, p: Seq<char>) -> Seq<char>
    decreases s.len(),
{
    if p.len() > 0 && starts_with(s, p) {
        strip_all(s.skip(p.len() as int), p)
    } else {
        s
    }
}

/// The text without the copies of `p` that it starts with.
pub fn strip_all_prefixes(v: &Vec<char>, p: &Vec<char>) -> (r: Vec<char>)
    requires
        p@.len() > 0,
    ensures
        r@ == strip_all(v@, p@),
{
    let mut pos: usize = 0;
    let n: usize = v.len();
    assert(v@.skip(0) =~= v@);
    while stands_at(v, pos, p)
        invariant
            pos <= n == v@.len(),
            p@.len() > 0,
            strip_all(v@, p@) == strip_all(v@.skip(pos as int), p@),
        decreases n - pos,
    {
        assert(v@.skip(pos as int).skip(p@.len() as int) =~= v@.skip(pos + p@.len()));
        pos = pos + p.len();
    }
    let r = chars_range(v, pos, n);
    assert(r@ =~= v@.skip(pos as int));
    r
}

/// The text behind the first place where the non-empty `p` stands.
pub open spec fn after_first(s: Seq<char>, p: Seq<char>) -> Option<Seq<char>>
    decreases s.len(),
{
    if starts_with(s, p) {
        Some(s.skip(p.len() as int))
    } else if s.len() == 0 {
        None
    } else {
        after_first(s.skip(1), p)
    }
}

/// The text before the first place where `p` stands, or all of it.
pub open spec fn before_first(s: Seq<char>, p: Seq<char>) -> Seq<char>
    decreases s.len(),
{
    if starts_with(s, p) || s.len() == 0 {
        Seq::empty()
    } else {
        seq![s[0]] + before_first(s.skip(1), p)
    }
}

/// The text behind the first place where `p` stands.
pub fn find_after(v: &Vec<char>, p: &Vec<char>) -> (r: Option<Vec<char>>)
    ensures
        match after_first(v@, p@) {
            None => r is None,
            Some(t) => r is Some && r->Some_0@ == t,
        },
{
    let n: usize = v.len();
    let mut pos: usize = 0;
    assert(v@.skip(0) =~= v@);
    loop
        invariant
            pos <= n == v@.len(),
            after_first(v@, p@) == after_first(v@.skip(pos as int), p@),
        decreases n - pos,
    {
        if stands_at(v, pos, p) {
            let r = chars_range(v, pos + p.len(), n);
            assert(r@ =~= v@.skip(pos as int).skip(p@.len() as int));
            return Some(r);
        }
        if pos == n {
            return None;
        }
        assert(v@.skip(pos as int).skip(1) =~= v@.skip(pos + 1));
        pos = pos + 1;
    }
}

/// The text before the first place where `p` stands, or all of it.
pub fn find_before(v: &Vec<char>, p: &Vec<char>) -> (r: Vec<char>)
    ensures
        r@ == before_first(v@, p@),
{
    let n: usize = v.len();
    let mut pos: usize = 0;
    assert(v@.skip(0) =~= v@);
    assert(v@.take(0) + before_first(v@, p@) =~= before_first(v@, p@));
    loop
        invariant
            pos <= n == v@.len(),
            before_first(v@, p@) == v@.take(pos as int) + before_first(v@.skip(pos as int), p@),
        decreases n - pos,
    {
        if pos == n || stands_at(v, pos, p) {
            let r = chars_range(v, 0, pos);
            assert(r@ =~= v@.take(pos as int) + Seq::<char>::empty());
            return r;
        }
        proof {
            let t = v@.skip(pos as int);
            assert(t.skip(1) =~= v@.skip(pos + 1));
            assert(v@.take(pos as int) + (seq![t[0]] + before_first(t.skip(1), p@)) =~= v@.take(
                pos + 1,
            ) + before_first(t.skip(1), p@));
        }
        pos = pos + 1;
    }
}

/// The value of a digit in the given base, at most sixteen.
pub open spec fn digit_value(c: char, base: nat) -> Option<nat> {
    let n = c as u32;
    let d: nat = if 48 <= n <= 57 {
        (n - 48) as nat
    } else if 97 <= n <= 102 {
        (n - 87) as nat
    } else if 65 <= n <= 70 {
        (n - 55) as nat
    } else {
        99
    };
    if d < base {
        Some(d)
    } else {
        None
    }
}

/// The number that the digits spell, if all of them are digits of the base.
pub open spec fn digits_value(s: Seq<char>, base: nat) -> Option<nat>
    decreases s.len(),
{
    if s.len() == 0 {
        Some(0)
    } else {
        match (digits_value(s.drop_last(), base), digit_value(s.last(), base)) {
            (Some(high), Some(low)) => Some(high * base + low),
            _ => None,
        }
    }
}

/// An unsigned number up to `max`: an optional plus sign and at least one digit.
pub open spec fn uint(s: Seq<char>, base: nat, max: nat) -> Option<nat> {
    let digits = if s.len() > 0 && s[0] == '+' {
        s.skip(1)
    } else {
        s
    };
    if digits.len() == 0 {
        None
    } else {
        match digits_value(digits, base) {
            Some(v) => if v <= max {
                Some(v)
            } else {
                None
            },
            None => None,
        }
    }
}

fn digit_of(c: char, base: u64) -> (r: Option<u64>)
    requires
        base <= 16,
    ensures
        match digit_value(c, base as nat) {
            None => r is None,
            Some(d) => r is Some && r->Some_0 == d && d < 16,
        },
{
    let n: u32 = c as u32;
    let d: u64 = if 48 <= n && n <= 57 {
        (n - 48) as u64
    } else if 97 <= n && n <= 102 {
        (n - 87) as u64
    } else if 65 <= n && n <= 70 {
        (n - 55) as u64
    } else {
        99
    };
    if d < base {
        Some(d)
    } else {
        None
    }
}

proof fn lemma_digits_none(s: Seq<char>, base: nat, k: int)
    requires
        0 <= k <= s.len(),
        digits_value(s.take(k), base) is None,
    ensures
        digits_value(s, base) is None,
    decreases s.len() - k,
{
    if k < s.len() {
        assert(s.take(k + 1).drop_last() =~= s.take(k));
        lemma_digits_none(s, base, k + 1);
    } else {
        assert(s.take(k) =~= s);
    }
}

proof fn lemma_digits_grow(s: Seq<char>, base: nat, k: int)
    requires
        0 <= k <= s.len(),
        base >= 1,
        digits_value(s, base) is Some,
    ensures
        digits_value(s.take(k), base) is Some,
        digits_value(s.take(k), base)->Some_0 <= digits_value(s, base)->Some_0,
    decreases s.len() - k,
{
    if k < s.len() {
        lemma_digits_grow(s, base, k + 1);
        assert(s.take(k + 1).drop_last() =~= s.take(k));
        let low = digits_value(s.take(k), base)->Some_0;
        assert(low <= low * base) by (nonlinear_arith)
            requires
                base >= 1,
        ;
    } else {
        assert(s.take(k) =~= s);
    }
}

/// Reads an unsigned number of at most `max`.
pub fn parse_uint(v: &Vec<char>, base: u64, max: u64) -> (r: Option<u64>)
    requires
        1 <= base <= 16,
    ensures
        match uint(v@, base as nat, max as nat) {
            None => r is None,
            Some(n) => r is Some && r->Some_0 == n,
        },
{
    let skip: usize = if v.len() > 0 && v[0] == '+' {
        1
    } else {
        0
    };
    let ghost digits = v@.skip(skip as int);
    assert(v@.skip(0) =~= v@);
    if v.len() == skip {
        return None;
    }
    let mut value: u64 = 0;
    let mut i: usize = skip;
    assert(digits.take(0) =~= Seq::empty());
    while i < v.len()
        invariant
            skip <= i <= v@.len(),
            skip < v@.len(),
            1 <= base <= 16,
            digits == v@.skip(skip as int),
            digits.len() > 0,
            uint(v@, base as nat, max as nat) == match digits_value(digits, base as nat) {
                Some(n) => if n <= max {
                    Some(n)
                } else {
                    None
                },
                None => None,
            },
            digits_value(digits.take(i - skip), base as nat) == Some(value as nat),
            value <= max,
        decreases v@.len() - i,
    {
        let ghost k = i - skip;
        assert(digits.take(k + 1).drop_last() =~= digits.take(k));
        assert(digits.take(k + 1).last() == v@[i as int]);
        let d: u64 = match digit_of(v[i], base) {
            Some(d) => d,
            None => {
                proof {
                    lemma_digits_none(digits, base as nat, k + 1);
                }
                return None;
            },
        };
        assert(value * base <= 0xffff_ffff_ffff_ffff * 16) by (nonlinear_arith)
            requires
                value <= 0xffff_ffff_ffff_ffff,
                0 <= base <= 16,
        ;
        let next: u128 = value as u128 * base as u128 + d as u128;
        assert(digits_value(digits.take(k + 1), base as nat) == Some(next as nat));
        if next > max as u128 {
            proof {
                if digits_value(digits, base as nat) is Some {
                    lemma_digits_grow(digits, base as nat, k + 1);
                }
            }
            return None;
        }
        value = next as u64;
        i = i + 1;
    }
    assert(digits.take(i - skip) =~= digits);
    Some(value)
}

/// A decimal `u32`.
pub open spec fn dec_u32(s: Seq<char>) -> Option<u32> {
    match uint(s, 10, u32::MAX as nat) {
        Some(n) => Some(n as u32),
        None => None,
    }
}

/// A decimal `u64`.
pub open spec fn dec_u64(s: Seq<char>) -> Option<u64> {
    match uint(s, 10, u64::MAX as nat) {
        Some(n) => Some(n as u64),
        None => None,
    }
}

/// A decimal `i32`: an optional sign and at least one digit.
pub open spec fn dec_i32(s: Seq<char>) -> Option<i32> {
    if s.len() > 1 && s[0] == '-' {
        match digits_value(s.skip(1), 10) {
            Some(n) => if n <= 0x8000_0000 {
                Some((0 - n) as i32)
            } else {
                None
            },
            None => None,
        }
    } else {
        match uint(s, 10, i32::MAX as nat) {
            Some(n) => Some(n as i32),
            None => None,
        }
    }
}

pub fn parse_u32(v: &Vec<char>) -> (r: Option<u32>)
    ensures
        r == dec_u32(v@),
{
    match parse_uint(v, 10, u32::MAX as u64) {
        Some(n) => Some(n as u32),
        None => None,
    }
}

pub fn parse_u64(v: &Vec<char>) -> (r: Option<u64>)
    ensures
        r == dec_u64(v@),
{
    parse_uint(v, 10, u64::MAX)
}

pub fn parse_i32(v: &Vec<char>) -> (r: Option<i32>)
    ensures
        r == dec_i32(v@),
{
    if v.len() > 1 && v[0] == '-' {
        let n: usize = v.len();
        let rest = chars_range(v, 1, n);
        assert(rest@ =~= v@.skip(1));
        if rest[0] == '+' {
            proof {
                assert(rest@.take(1).last() == '+');
                assert(digits_value(rest@.take(1), 10) is None);
                lemma_digits_none(rest@, 10, 1);
            }
            return None;
        }
        match parse_uint(&rest, 10, 0x8000_0000) {
            Some(m) => Some((0 - m as i64) as i32),
            None => None,
        }
    } else {
        match parse_uint(v, 10, i32::MAX as u64) {
            Some(n) => Some(n as i32),
            None => None,
        }
    }
}

} // verus!

//! What holds of the text functions for every text: each is told by what it
//! makes of a text that is put together from known pieces.
use crate::render::{dec, digit, hex, hex_digit, signed_dec};
use crate::scan::{
    after_first, before_first, dec_i32, dec_u32, dec_u64, digit_value, digits_value, drop_cr,
    first_word, is_space, lemma_no_split, lemma_split_at, lemma_split_shrinks, lines, split,
    split_once, starts_with, strip, strip_all, trim_end, trim_start, trimmed, uint, word_len,
    words,
};
use vstd::prelude::*;

verus! {

/// Whether no character of the text is `c`.
pub open spec fn lacks(s: Seq<char>, c: char) -> bool {
    forall|k: int| 0 <= k < s.len() ==> s[k] != c
}

/// Whether the text is white space only.
pub open spec fn blank_text(s: Seq<char>) -> bool {
    forall|k: int| 0 <= k < s.len() ==> is_space(#[trigger] s[k])
}

/// Whether the text has characters, none of them white space.
pub open spec fn solid(s: Seq<char>) -> bool {
    s.len() > 0 && forall|k: int| 0 <= k < s.len() ==> !is_space(#[trigger] s[k])
}

/// White space is the six of ASCII, and the wider blanks and line breaks.
pub proof fn law_white_space(c: char)
    ensures
        is_space(c) <==> {
            ||| c == ' '
            ||| c == '\t'
            ||| c == '\n'
            ||| c == '\u{b}'
            ||| c == '\u{c}'
            ||| c == '\r'
            ||| c == '\u{85}'
            ||| c == '\u{a0}'
            ||| c == '\u{1680}'
            ||| '\u{2000}' <= c <= '\u{200a}'
            ||| c == '\u{2028}'
            ||| c == '\u{2029}'
            ||| c == '\u{202f}'
            ||| c == '\u{205f}'
            ||| c == '\u{3000}'
        },
{
}

/// A text with a `c` in it is cut at the first one; one without is not cut.
pub proof fn law_split_once(a: Seq<char>, c: char, b: Seq<char>)
    requires
        lacks(a, c),
    ensures
        split_once(a + seq![c] + b, c) == Some((a, b)),
        split_once(a, c) is None,
{
    let s = a + seq![c] + b;
    lemma_no_split(a, c);
    assert(s[a.len() as int] == c);
    assert forall|k: int| 0 <= k < a.len() implies s[k] != c by {
        assert(s[k] == a[k]);
    }
    lemma_split_at(s, c, a.len() as int);
    assert(s.take(a.len() as int) =~= a);
    assert(s.skip(a.len() as int + 1) =~= b);
}

/// The pieces with a `c` between each two of them.
pub open spec fn between(ps: Seq<Seq<char>>, c: char) -> Seq<char>
    decreases ps.len(),
{
    if ps.len() == 0 {
        Seq::empty()
    } else if ps.len() == 1 {
        ps[0]
    } else {
        ps[0] + seq![c] + between(ps.skip(1), c)
    }
}

/// Splitting undoes joining: pieces without a `c` that stand between `c`s are
/// found again, empty ones too.
pub proof fn law_split_joined(ps: Seq<Seq<char>>, c: char)
    requires
        ps.len() > 0,
        forall|i: int| 0 <= i < ps.len() ==> lacks(#[trigger] ps[i], c),
    ensures
        split(between(ps, c), c) == ps,
    decreases ps.len(),
{
    assert(lacks(ps[0], c));
    if ps.len() == 1 {
        law_split_once(ps[0], c, Seq::empty());
        assert(split(ps[0], c) =~= ps);
    } else {
        let rest = ps.skip(1);
        assert forall|i: int| 0 <= i < rest.len() implies lacks(#[trigger] rest[i], c) by {
            assert(rest[i] == ps[i + 1]);
        }
        law_split_joined(rest, c);
        law_split_once(ps[0], c, between(rest, c));
        assert(seq![ps[0]] + rest =~= ps);
    }
}

/// Joining undoes splitting, and no piece holds a `c`.
pub proof fn law_joined_split(s: Seq<char>, c: char)
    ensures
        between(split(s, c), c) == s,
        split(s, c).len() > 0,
        forall|i: int| 0 <= i < split(s, c).len() ==> lacks(#[trigger] split(s, c)[i], c),
    decreases s.len(),
{
    lemma_cut(s, c);
    lemma_split_shrinks(s, c);
    match split_once(s, c) {
        None => {
            assert(split(s, c) =~= seq![s]);
        },
        Some((a, b)) => {
            law_joined_split(b, c);
            let ps = split(s, c);
            assert(ps =~= seq![a] + split(b, c));
            assert(ps.skip(1) =~= split(b, c));
            assert forall|i: int| 0 <= i < ps.len() implies lacks(#[trigger] ps[i], c) by {
                if i > 0 {
                    assert(ps[i] == split(b, c)[i - 1]);
                }
            }
        },
    }
}

proof fn lemma_cut(s: Seq<char>, c: char)
    ensures
        match split_once(s, c) {
            None => lacks(s, c),
            Some((a, b)) => s == a + seq![c] + b && lacks(a, c),
        },
    decreases s.len(),
{
    if s.len() > 0 {
        let t = s.skip(1);
        lemma_cut(t, c);
        if s[0] == c {
            assert(s =~= Seq::<char>::empty() + seq![c] + t);
        } else {
            match split_once(t, c) {
                None => {
                    assert forall|k: int| 0 <= k < s.len() implies s[k] != c by {
                        if k > 0 {
                            assert(s[k] == t[k - 1]);
                        }
                    }
                },
                Some((a, b)) => {
                    let head = seq![s[0]] + a;
                    assert(s =~= seq![s[0]] + t);
                    assert(seq![s[0]] + (a + seq![c] + b) =~= head + seq![c] + b);
                    assert forall|k: int| 0 <= k < head.len() implies head[k] != c by {
                        if k > 0 {
                            assert(head[k] == a[k - 1]);
                        }
                    }
                },
            }
        }
    }
}

/// The first line of a text ends at the newline, with or without a carriage
/// return before it, and the lines after it are those of the rest.
pub proof fn law_lines(l: Seq<char>, rest: Seq<char>)
    requires
        lacks(l, '\n'),
        l.len() > 0 ==> l.last() != '\r',
    ensures
        lines(l + seq!['\n'] + rest) == seq![l] + lines(rest),
        lines(l + seq!['\r', '\n'] + rest) == seq![l] + lines(rest),
        l.len() > 0 ==> lines(l) == seq![l],
        lines(Seq::empty()).len() == 0,
{
    law_split_once(l, '\n', rest);
    let r = l.push('\r');
    assert(lacks(r, '\n'));
    law_split_once(r, '\n', rest);
    assert(r + seq!['\n'] + rest =~= l + seq!['\r', '\n'] + rest);
    assert(r.drop_last() =~= l);
}

/// A last line without a newline keeps its carriage return.
pub proof fn law_last_line(l: Seq<char>)
    requires
        lacks(l, '\n'),
        l.len() > 0,
    ensures
        lines(l) == seq![l],
{
    law_split_once(l, '\n', Seq::empty());
}

/// No line holds a newline, and none but the last ends with the carriage return
/// that stood before its newline.
pub proof fn law_lines_lack_newlines(s: Seq<char>, i: int)
    requires
        0 <= i < lines(s).len(),
    ensures
        lacks(lines(s)[i], '\n'),
    decreases s.len(),
{
    lemma_cut(s, '\n');
    lemma_split_shrinks(s, '\n');
    if let Some((a, b)) = split_once(s, '\n') {
        if i > 0 {
            law_lines_lack_newlines(b, i - 1);
        } else {
            assert(lines(s)[0] == drop_cr(a));
        }
    }
}

/// White space before a text changes none of its words.
pub proof fn law_words_skip_blanks(gap: Seq<char>, s: Seq<char>)
    requires
        blank_text(gap),
    ensures
        words(gap + s) == words(s),
    decreases gap.len(),
{
    if gap.len() == 0 {
        assert(gap + s =~= s);
    } else {
        let t = gap.skip(1);
        assert(is_space(gap[0]));
        assert forall|k: int| 0 <= k < t.len() implies is_space(#[trigger] t[k]) by {
            assert(t[k] == gap[k + 1]);
        }
        law_words_skip_blanks(t, s);
        let all = gap + s;
        assert(all[0] == gap[0]);
        assert(all.skip(1) =~= t + s);
    }
}

/// A run without white space, up to white space or the end, is a word.
pub proof fn law_words(w: Seq<char>, s: Seq<char>)
    requires
        solid(w),
        s.len() > 0 ==> is_space(s[0]),
    ensures
        words(w + s) == seq![w] + words(s),
        words(Seq::empty()).len() == 0,
        first_word(w + s) == Some(w),
{
    let all = w + s;
    assert forall|k: int| 0 <= k < w.len() implies !is_space(all[k]) by {
        assert(all[k] == w[k]);
    }
    lemma_run(all, w.len() as int);
    assert(all.take(w.len() as int) =~= w);
    assert(all.skip(w.len() as int) =~= s);
}

proof fn lemma_run(s: Seq<char>, n: int)
    requires
        0 <= n <= s.len(),
        forall|k: int| 0 <= k < n ==> !is_space(s[k]),
        n < s.len() ==> is_space(s[n]),
    ensures
        word_len(s) == n,
    decreases n,
{
    if n > 0 {
        lemma_run(s.skip(1), n - 1);
    }
}

/// Trimming takes away the white space on both sides, and nothing else.
pub proof fn law_trimmed(a: Seq<char>, s: Seq<char>, b: Seq<char>)
    requires
        blank_text(a),
        blank_text(b),
        s.len() > 0 ==> !is_space(s[0]) && !is_space(s.last()),
    ensures
        trimmed(a + s + b) == s,
    decreases a.len() + b.len(),
{
    let all = a + s + b;
    if s.len() == 0 {
        assert(all =~= a + b);
        assert(blank_text(all));
        lemma_trim_blank(all);
        assert(trimmed(all) =~= s);
    } else {
        lemma_trim_start(a, s + b);
        assert(all =~= a + (s + b));
        lemma_trim_end(s, b);
    }
}

proof fn lemma_trim_blank(s: Seq<char>)
    requires
        blank_text(s),
    ensures
        trim_start(s).len() == 0,
    decreases s.len(),
{
    if s.len() > 0 {
        assert(is_space(s[0]));
        let t = s.skip(1);
        assert forall|k: int| 0 <= k < t.len() implies is_space(#[trigger] t[k]) by {
            assert(t[k] == s[k + 1]);
        }
        lemma_trim_blank(t);
    }
}

proof fn lemma_trim_start(a: Seq<char>, s: Seq<char>)
    requires
        blank_text(a),
        s.len() > 0,
        !is_space(s[0]),
    ensures
        trim_start(a + s) == s,
    decreases a.len(),
{
    if a.len() == 0 {
        assert(a + s =~= s);
    } else {
        let t = a.skip(1);
        assert(is_space(a[0]));
        assert forall|k: int| 0 <= k < t.len() implies is_space(#[trigger] t[k]) by {
            assert(t[k] == a[k + 1]);
        }
        lemma_trim_start(t, s);
        assert((a + s).skip(1) =~= t + s);
    }
}

proof fn lemma_trim_end(s: Seq<char>, b: Seq<char>)
    requires
        blank_text(b),
        s.len() > 0,
        !is_space(s.last()),
    ensures
        trim_end(s + b) == s,
    decreases b.len(),
{
    if b.len() == 0 {
        assert(s + b =~= s);
    } else {
        let t = b.drop_last();
        assert(is_space(b[b.len() - 1]));
        assert forall|k: int| 0 <= k < t.len() implies is_space(#[trigger] t[k]) by {
            assert(t[k] == b[k]);
        }
        lemma_trim_end(s, t);
        assert((s + b).drop_last() =~= s + t);
    }
}

/// A prefix is taken off exactly where the text starts with it.
pub proof fn law_strip(p: Seq<char>, t: Seq<char>, s: Seq<char>)
    ensures
        strip(p + t, p) == Some(t),
        strip(s, p) == Some(t) ==> s == p + t,
{
    assert((p + t).take(p.len() as int) =~= p);
    assert((p + t).skip(p.len() as int) =~= t);
    if strip(s, p) == Some(t) {
        assert(s =~= p + t);
    }
}

/// Every copy of the prefix is taken off, and none is left in front.
pub proof fn law_strip_all(p: Seq<char>, s: Seq<char>)
    requires
        p.len() > 0,
    ensures
        strip_all(p + s, p) == strip_all(s, p),
        !starts_with(strip_all(s, p), p),
        !starts_with(s, p) ==> strip_all(s, p) == s,
    decreases s.len(),
{
    assert((p + s).take(p.len() as int) =~= p);
    assert((p + s).skip(p.len() as int) =~= s);
    if starts_with(s, p) {
        law_strip_all(p, s.skip(p.len() as int));
    }
}

/// What stands before and behind the first place where a text occurs.
pub proof fn law_first_place(s: Seq<char>, p: Seq<char>, i: int)
    requires
        0 <= i <= s.len(),
        starts_with(s.skip(i), p),
        forall|k: int| 0 <= k < i ==> !starts_with(#[trigger] s.skip(k), p),
    ensures
        before_first(s, p) == s.take(i),
        after_first(s, p) == Some(s.skip(i + p.len())),
    decreases i,
{
    assert(s.skip(0) =~= s);
    if i == 0 {
        assert(s.take(0) =~= Seq::empty());
    } else {
        assert(!starts_with(s.skip(0), p));
        let t = s.skip(1);
        assert(t.skip(i - 1) =~= s.skip(i));
        assert forall|k: int| 0 <= k < i - 1 implies !starts_with(#[trigger] t.skip(k), p) by {
            assert(t.skip(k) =~= s.skip(k + 1));
        }
        law_first_place(t, p, i - 1);
        assert(seq![s[0]] + t.take(i - 1) =~= s.take(i));
        assert(t.skip(i - 1 + p.len()) =~= s.skip(i + p.len()));
    }
}

/// A text that occurs nowhere.
pub proof fn law_no_place(s: Seq<char>, p: Seq<char>)
    requires
        forall|k: int| 0 <= k <= s.len() ==> !starts_with(#[trigger] s.skip(k), p),
    ensures
        before_first(s, p) == s,
        after_first(s, p) is None,
    decreases s.len(),
{
    assert(s.skip(0) =~= s);
    assert(!starts_with(s.skip(0), p));
    if s.len() > 0 {
        let t = s.skip(1);
        assert forall|k: int| 0 <= k <= t.len() implies !starts_with(#[trigger] t.skip(k), p) by {
            assert(t.skip(k) =~= s.skip(k + 1));
        }
        law_no_place(t, p);
        assert(seq![s[0]] + t =~= s);
    } else {
        assert(before_first(s, p) =~= s);
    }
}

/// The decimal digits are `0` to `9`; the hexadecimal ones go on with the letters
/// up to `f`, in either case.
pub proof fn law_digits(c: char)
    ensures
        digit_value(c, 10) is Some <==> '0' <= c <= '9',
        '0' <= c <= '9' ==> digit_value(c, 10) == Some((c as u32 - '0' as u32) as nat),
        '0' <= c <= '9' ==> digit_value(c, 16) == Some((c as u32 - '0' as u32) as nat),
        'a' <= c <= 'f' ==> digit_value(c, 16) == Some((10 + (c as u32 - 'a' as u32)) as nat),
        'A' <= c <= 'F' ==> digit_value(c, 16) == Some((10 + (c as u32 - 'A' as u32)) as nat),
        digit_value(c, 16) is Some <==> ('0' <= c <= '9' || 'a' <= c <= 'f' || 'A' <= c <= 'F'),
{
}

/// A number is at most `max`; a plus sign before its digits and zeros in front of
/// them change nothing; anything but digits makes it no number.
pub proof fn law_uint(s: Seq<char>, base: nat, max: nat)
    requires
        base >= 1,
        s.len() > 0,
        s[0] != '+',
    ensures
        uint(s, base, max) matches Some(n) ==> n <= max,
        uint(seq!['+'] + s, base, max) == uint(s, base, max),
        uint(seq!['0'] + s, base, max) == uint(s, base, max),
        uint(s, base, max) is Some ==> forall|k: int|
            0 <= k < s.len() ==> digit_value(#[trigger] s[k], base) is Some,
        uint(Seq::empty(), base, max) is None,
        uint(seq!['+'], base, max) is None,
{
    let plus = seq!['+'] + s;
    assert(plus.skip(1) =~= s);
    assert(seq!['+'].skip(1) =~= Seq::<char>::empty());
    let zero = seq!['0'] + s;
    assert(zero[0] == '0');
    assert(digit_value('0', base) == Some(0nat));
    lemma_leading_zero(s, base);
    if digits_value(s, base) is Some {
        lemma_all_digits(s, base);
    }
}

proof fn lemma_leading_zero(s: Seq<char>, base: nat)
    requires
        base >= 1,
    ensures
        digits_value(seq!['0'] + s, base) == digits_value(s, base),
    decreases s.len(),
{
    let z = seq!['0'] + s;
    if s.len() == 0 {
        assert(z.drop_last() =~= Seq::<char>::empty());
        assert(digit_value('0', base) == Some(0nat));
        assert(z.last() == '0');
        assert(digits_value(z.drop_last(), base) == Some(0nat));
        assert(0 * base == 0) by (nonlinear_arith);
    } else {
        assert(z.drop_last() =~= seq!['0'] + s.drop_last());
        assert(z.last() == s.last());
        lemma_leading_zero(s.drop_last(), base);
    }
}

proof fn lemma_all_digits(s: Seq<char>, base: nat)
    requires
        digits_value(s, base) is Some,
    ensures
        forall|k: int| 0 <= k < s.len() ==> digit_value(#[trigger] s[k], base) is Some,
    decreases s.len(),
{
    if s.len() > 0 {
        lemma_all_digits(s.drop_last(), base);
        assert forall|k: int| 0 <= k < s.len() implies digit_value(
            #[trigger] s[k],
            base,
        ) is Some by {
            if k < s.len() - 1 {
                assert(s.drop_last()[k] == s[k]);
            }
        }
    }
}

/// A decimal text is made of digits, starts with no zero but that of the number
/// zero, and spells the number.
pub proof fn law_dec(n: nat)
    ensures
        digits_value(dec(n), 10) == Some(n),
        dec(n).len() > 0,
        forall|k: int| 0 <= k < dec(n).len() ==> '0' <= #[trigger] dec(n)[k] <= '9',
        n > 0 ==> dec(n)[0] != '0',
    decreases n,
{
    if n < 10 {
        assert(digit(n) as u32 == 48 + n);
        assert(dec(n).drop_last() =~= Seq::empty());
        assert(dec(n).last() == digit(n));
        assert(digits_value(dec(n).drop_last(), 10) == Some(0nat));
        assert(digit_value(dec(n).last(), 10) == Some(n));
    } else {
        law_dec(n / 10);
        assert(digit(n % 10) as u32 == 48 + n % 10);
        let d = dec(n);
        assert(d.drop_last() =~= dec(n / 10));
        assert(d.last() == digit(n % 10));
        assert(digit_value(d.last(), 10) == Some(n % 10));
        assert(n / 10 * 10 + n % 10 == n);
        assert forall|k: int| 0 <= k < d.len() implies '0' <= #[trigger] d[k] <= '9' by {
            if k < d.len() - 1 {
                assert(d[k] == dec(n / 10)[k]);
            }
        }
        assert(d[0] == dec(n / 10)[0]);
    }
}

/// A number that fits is read back from its decimal form, and one that does not
/// fit is no number.
pub proof fn law_dec_read(n: nat)
    ensures
        dec_u32(dec(n)) == if n <= u32::MAX {
            Some(n as u32)
        } else {
            None
        },
        dec_u64(dec(n)) == if n <= u64::MAX {
            Some(n as u64)
        } else {
            None
        },
{
    law_dec(n);
    assert('0' <= dec(n)[0] <= '9');
}

/// A signed number is read back from its decimal form.
pub proof fn law_signed_read(n: i32)
    ensures
        dec_i32(signed_dec(n as int)) == Some(n),
        (n < 0) == (signed_dec(n as int)[0] == '-'),
{
    reveal_strlit("-");
    if n < 0 {
        let m = (0 - n) as nat;
        law_dec(m);
        let s = signed_dec(n as int);
        assert(s.skip(1) =~= dec(m));
        assert(s[0] == '-');
    } else {
        law_dec(n as nat);
        assert('0' <= dec(n as nat)[0] <= '9');
    }
}

/// How many numbers have `w` hexadecimal digits.
pub open spec fn hex_range(w: nat) -> nat
    decreases w,
{
    if w == 0 {
        1
    } else {
        16 * hex_range((w - 1) as nat)
    }
}

/// A hexadecimal text has the width asked for, is made of digits and small
/// letters, and spells the number where that has no more digits.
pub proof fn law_hex(n: nat, w: nat)
    ensures
        hex(n, w).len() == w,
        forall|k: int|
            0 <= k < w ==> '0' <= #[trigger] hex(n, w)[k] <= '9' || 'a' <= hex(n, w)[k] <= 'f',
        n < hex_range(w) ==> digits_value(hex(n, w), 16) == Some(n),
    decreases w,
{
    if w > 0 {
        let v = (w - 1) as nat;
        law_hex(n / 16, v);
        let h = hex(n, w);
        let d = n % 16;
        assert(h.drop_last() =~= hex(n / 16, v));
        assert(h.last() == hex_digit(d));
        assert(d < 10 ==> hex_digit(d) as u32 == 48 + d);
        assert(d >= 10 ==> hex_digit(d) as u32 == 87 + d);
        assert forall|k: int| 0 <= k < w implies '0' <= #[trigger] h[k] <= '9' || 'a' <= h[k]
            <= 'f' by {
            if k < v {
                assert(h[k] == hex(n / 16, v)[k]);
            }
        }
        assert(digit_value(hex_digit(d), 16) == Some(d));
        if n < hex_range(w) {
            assert(n / 16 < hex_range(v));
        }
    }
}

} // verus!

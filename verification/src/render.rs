//! Numbers as text: decimal without leading zeros, and lower-case hexadecimal
//! of a fixed width.
use crate::text::text_of;
use vstd::prelude::*;
use vstd::string::StringExecFns;

verus! {

/// The decimal digit for `d`.
pub open spec fn digit(d: nat) -> char {
    (48 + d) as u8 as char
}

/// The hexadecimal digit for `d`.
pub open spec fn hex_digit(d: nat) -> char {
    if d < 10 {
        (48 + d) as u8 as char
    } else {
        (87 + d) as u8 as char
    }
}

/// `n` in decimal.
pub open spec fn dec(n: nat) -> Seq<char>
    decreases n,
{
    if n < 10 {
        seq![digit(n)]
    } else {
        dec(n / 10).push(digit(n % 10))
    }
}

/// The low `w` hexadecimal digits of `n`.
pub open spec fn hex(n: nat, w: nat) -> Seq<char>
    decreases w,
{
    if w == 0 {
        Seq::empty()
    } else {
        hex(n / 16, (w - 1) as nat).push(hex_digit(n % 16))
    }
}

fn dec_chars(n: u64) -> (v: Vec<char>)
    ensures
        v@ == dec(n as nat),
    decreases n,
{
    if n < 10 {
        let mut v: Vec<char> = Vec::new();
        v.push((48 + n) as u8 as char);
        assert(v@ =~= dec(n as nat));
        v
    } else {
        let mut v = dec_chars(n / 10);
        v.push((48 + n % 10) as u8 as char);
        v
    }
}

/// `n` in decimal.
pub fn dec_text(n: u64) -> (s: String)
    ensures
        s@ == dec(n as nat),
{
    text_of(&dec_chars(n))
}

/// `n` in decimal, with a minus sign where it is negative.
pub open spec fn signed_dec(n: int) -> Seq<char> {
    if n < 0 {
        "-"@ + dec((0 - n) as nat)
    } else {
        dec(n as nat)
    }
}

/// `n` in decimal, with a minus sign where it is negative.
pub fn signed_text(n: i32) -> (s: String)
    ensures
        s@ == signed_dec(n as int),
{
    if n < 0 {
        let mut s = "-".to_owned();
        s.append(dec_text((0 - n as i64) as u64).as_str());
        s
    } else {
        dec_text(n as u64)
    }
}

fn hex_chars(n: u128, w: usize) -> (v: Vec<char>)
    ensures
        v@ == hex(n as nat, w as nat),
    decreases w,
{
    if w == 0 {
        Vec::new()
    } else {
        let mut v = hex_chars(n / 16, w - 1);
        let d: u8 = (n % 16) as u8;
        if d < 10 {
            v.push((48 + d) as char);
        } else {
            v.push((87 + d) as char);
        }
        v
    }
}

/// The low `w` hexadecimal digits of `n`.
pub fn hex_text(n: u128, w: usize) -> (s: String)
    ensures
        s@ == hex(n as nat, w as nat),
{
    text_of(&hex_chars(n, w))
}

/// Different numbers are written differently.
pub proof fn lemma_dec_injective(a: nat, b: nat)
    requires
        dec(a) == dec(b),
    ensures
        a == b,
    decreases a,
{
    lemma_dec_len(a);
    lemma_dec_len(b);
    if a >= 10 && b >= 10 {
        assert(dec(a).drop_last() =~= dec(a / 10));
        assert(dec(b).drop_last() =~= dec(b / 10));
        assert(dec(a).last() == digit(a % 10));
        assert(dec(b).last() == digit(b % 10));
        lemma_dec_injective(a / 10, b / 10);
        lemma_digit_injective(a % 10, b % 10);
    } else {
        assert(dec(a).last() == digit(a % 10));
        assert(dec(b).last() == digit(b % 10));
        lemma_digit_injective(a % 10, b % 10);
        if a >= 10 {
            lemma_dec_len(a / 10);
        }
        if b >= 10 {
            lemma_dec_len(b / 10);
        }
    }
}

proof fn lemma_dec_len(n: nat)
    ensures
        dec(n).len() >= 1,
        n >= 10 ==> dec(n).len() >= 2,
    decreases n,
{
    if n >= 10 {
        lemma_dec_len(n / 10);
    }
}

proof fn lemma_digit_injective(a: nat, b: nat)
    requires
        a < 10,
        b < 10,
        digit(a) == digit(b),
    ensures
        a == b,
{
    assert(digit(a) as u32 == 48 + a);
    assert(digit(b) as u32 == 48 + b);
}

} // verus!

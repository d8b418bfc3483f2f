//! The payload encoding of frames: bincode's `legacy` layout.
//!
//! Integers have a fixed width and come least significant byte first. A string,
//! a byte string and a list start with their length as 64 bits. A struct is its
//! fields in order, an enum the number of its variant as 32 bits and then the
//! variant's fields, an option one byte that says whether a value follows.
//! bincode reads and writes the values at the leaves; how they are put together
//! is said and proved here.
use crate::bytes::{
    le_bytes, le_value, lemma_byte_ranges, lemma_le_bytes_len, lemma_le_bytes_of_value,
    lemma_le_value_of_bytes, lemma_utf8_text, read_le,
};
use crate::ident::{law_node_bytes, MboxId, NetId, NodeId};
use vstd::prelude::*;
use vstd::slice::slice_subrange;
use vstd::utf8::{decode_utf8, encode_utf8, valid_utf8};

verus! {

broadcast use lemma_le_bytes_len;

/// Why a payload could not be read.
#[derive(Copy, Clone, Debug, PartialEq, Eq, Structural)]
pub enum CodecError {
    /// The bytes are no encoding of such a value.
    Malformed,
    /// So many bytes follow the value.
    Trailing(usize),
}

/// The bytes of an `i32`: those of the number that it is modulo 2^32.
pub open spec fn i32_bytes(v: i32) -> Seq<u8> {
    le_bytes(
        if v >= 0 {
            v as nat
        } else {
            (v + 0x1_0000_0000) as nat
        },
        4,
    )
}

/// A length-prefixed byte string at the front of the bytes.
pub open spec fn take_blob(s: Seq<u8>) -> Option<(Seq<u8>, Seq<u8>)> {
    if s.len() < 8 || 8 + le_value(s.take(8)) > s.len() {
        None
    } else {
        let n = le_value(s.take(8)) as int;
        Some((s.subrange(8, 8 + n), s.skip(8 + n)))
    }
}

/// `bincode::serde::encode_to_vec` on a `u16`: its two bytes.
#[verifier::external_body]
fn encode_u16(v: u16) -> (r: Vec<u8>)
    ensures
        r@ == le_bytes(v as nat, 2),
{
    bincode::serde::encode_to_vec(v, bincode::config::legacy()).expect("u16 is encodable")
}

/// `bincode::serde::encode_to_vec` on a `u32`: its four bytes.
#[verifier::external_body]
fn encode_u32(v: u32) -> (r: Vec<u8>)
    ensures
        r@ == le_bytes(v as nat, 4),
{
    bincode::serde::encode_to_vec(v, bincode::config::legacy()).expect("u32 is encodable")
}

/// `bincode::serde::encode_to_vec` on a `u64`: its eight bytes.
#[verifier::external_body]
fn encode_u64(v: u64) -> (r: Vec<u8>)
    ensures
        r@ == le_bytes(v as nat, 8),
{
    bincode::serde::encode_to_vec(v, bincode::config::legacy()).expect("u64 is encodable")
}

/// `bincode::serde::encode_to_vec` on an `i32`: its four bytes in two's
/// complement.
#[verifier::external_body]
fn encode_i32(v: i32) -> (r: Vec<u8>)
    ensures
        r@ == i32_bytes(v),
{
    bincode::serde::encode_to_vec(v, bincode::config::legacy()).expect("i32 is encodable")
}

/// `bincode::serde::encode_to_vec` on a `bool`: one byte, one or zero.
#[verifier::external_body]
fn encode_bool(v: bool) -> (r: Vec<u8>)
    ensures
        r@ == seq![
            if v {
                1u8
            } else {
                0u8
            },
        ],
{
    bincode::serde::encode_to_vec(v, bincode::config::legacy()).expect("bool is encodable")
}

/// `bincode::serde::encode_to_vec` on a string: the length of its UTF-8 form in
/// eight bytes, then that form.
#[verifier::external_body]
fn encode_str(v: &str) -> (r: Vec<u8>)
    ensures
        r@ == le_bytes(encode_utf8(v@).len(), 8) + encode_utf8(v@),
{
    bincode::serde::encode_to_vec(v, bincode::config::legacy()).expect("str is encodable")
}

/// `bincode::serde::encode_to_vec` on a slice of bytes: the length in eight
/// bytes, then the bytes.
#[verifier::external_body]
fn encode_blob(v: &[u8]) -> (r: Vec<u8>)
    ensures
        r@ == le_bytes(v@.len(), 8) + v@,
{
    bincode::serde::encode_to_vec(v, bincode::config::legacy()).expect("bytes are encodable")
}

/// `bincode::serde::encode_to_vec` on an array of sixteen bytes: the bytes.
#[verifier::external_body]
fn encode_id(v: [u8; 16]) -> (r: Vec<u8>)
    ensures
        r@ == v@,
{
    bincode::serde::encode_to_vec(v, bincode::config::legacy()).expect("array is encodable")
}

/// `bincode::serde::decode_from_slice` to a `u16`: the first two bytes, and
/// that two were read; an error where there are fewer.
#[verifier::external_body]
fn decode_u16(b: &[u8]) -> (r: Option<(u16, usize)>)
    ensures
        r == if b@.len() < 2 {
            None
        } else {
            Some((le_value(b@.take(2)) as u16, 2usize))
        },
{
    bincode::serde::decode_from_slice::<u16, _>(b, bincode::config::legacy()).ok()
}

/// `bincode::serde::decode_from_slice` to a `u32`: the first four bytes, and
/// that four were read; an error where there are fewer.
#[verifier::external_body]
fn decode_u32(b: &[u8]) -> (r: Option<(u32, usize)>)
    ensures
        r == if b@.len() < 4 {
            None
        } else {
            Some((le_value(b@.take(4)) as u32, 4usize))
        },
{
    bincode::serde::decode_from_slice::<u32, _>(b, bincode::config::legacy()).ok()
}

/// `bincode::serde::decode_from_slice` to a `u64`: the first eight bytes, and
/// that eight were read; an error where there are fewer.
#[verifier::external_body]
fn decode_u64(b: &[u8]) -> (r: Option<(u64, usize)>)
    ensures
        r == if b@.len() < 8 {
            None
        } else {
            Some((le_value(b@.take(8)) as u64, 8usize))
        },
{
    bincode::serde::decode_from_slice::<u64, _>(b, bincode::config::legacy()).ok()
}

/// `bincode::serde::decode_from_slice` to an `i32`: the number whose bytes are
/// the first four, and that four were read; an error where there are fewer.
#[verifier::external_body]
fn decode_i32(b: &[u8]) -> (r: Option<(i32, usize)>)
    ensures
        b@.len() < 4 ==> r is None,
        b@.len() >= 4 ==> r is Some && i32_bytes(r->Some_0.0) == b@.take(4) && r->Some_0.1 == 4,
{
    bincode::serde::decode_from_slice::<i32, _>(b, bincode::config::legacy()).ok()
}

/// `bincode::serde::decode_from_slice` to a `bool`: whether the first byte is
/// one rather than zero, and that one was read; an error for any other byte and
/// where there is none.
#[verifier::external_body]
fn decode_bool(b: &[u8]) -> (r: Option<(bool, usize)>)
    ensures
        r == if b@.len() < 1 || b@[0] > 1 {
            None
        } else {
            Some((b@[0] == 1, 1usize))
        },
{
    bincode::serde::decode_from_slice::<bool, _>(b, bincode::config::legacy()).ok()
}

/// `bincode::serde::decode_from_slice` to a `String`, where the length that the
/// bytes start with is not more than the bytes after it (room for that many is
/// set aside before they are read): the text of that many bytes after the first
/// eight, and how many were read; an error where there are no eight bytes or
/// the text is not UTF-8.
#[verifier::external_body]
fn decode_str(b: &[u8]) -> (r: Option<(String, usize)>)
    requires
        b@.len() >= 8 ==> 8 + le_value(b@.take(8)) <= b@.len(),
    ensures
        match take_blob(b@) {
            None => r is None,
            Some((t, _)) => r is Some <==> valid_utf8(t),
        },
        r is Some ==> r->Some_0.0@ == decode_utf8(take_blob(b@)->Some_0.0),
        r is Some ==> r->Some_0.1 == 8 + take_blob(b@)->Some_0.0.len(),
{
    bincode::serde::decode_from_slice::<String, _>(b, bincode::config::legacy()).ok()
}

/// `bincode::serde::decode_from_slice` to a `Vec<u8>`: as many bytes after the
/// first eight as those say, and how many were read; an error where there are
/// fewer.
#[verifier::external_body]
fn decode_blob(b: &[u8]) -> (r: Option<(Vec<u8>, usize)>)
    ensures
        r is Some <==> take_blob(b@) is Some,
        r is Some ==> r->Some_0.0@ == take_blob(b@)->Some_0.0,
        r is Some ==> r->Some_0.1 == 8 + take_blob(b@)->Some_0.0.len(),
{
    bincode::serde::decode_from_slice::<Vec<u8>, _>(b, bincode::config::legacy()).ok()
}

/// `bincode::serde::decode_from_slice` to an array of sixteen bytes: the first
/// sixteen, and that sixteen were read; an error where there are fewer.
#[verifier::external_body]
fn decode_id(b: &[u8]) -> (r: Option<([u8; 16], usize)>)
    ensures
        b@.len() < 16 ==> r is None,
        b@.len() >= 16 ==> r is Some && r->Some_0.0@ == b@.take(16) && r->Some_0.1 == 16,
{
    bincode::serde::decode_from_slice::<[u8; 16], _>(b, bincode::config::legacy()).ok()
}

/// Bytes being read, from the front.
pub struct Input<'a> {
    pub buf: &'a [u8],
    pub pos: usize,
}

impl<'a> View for Input<'a> {
    type V = Seq<u8>;

    /// The bytes not read yet.
    open spec fn view(&self) -> Seq<u8> {
        self.buf@.skip(self.pos as int)
    }
}

impl<'a> Input<'a> {
    pub open spec fn wf(&self) -> bool {
        self.pos <= self.buf@.len()
    }

    pub fn new(buf: &'a [u8]) -> (r: Self)
        ensures
            r.wf(),
            r@ == buf@,
    {
        assert(buf@.skip(0) =~= buf@);
        Input { buf, pos: 0 }
    }

    fn rest(&self) -> (r: &'a [u8])
        requires
            self.wf(),
        ensures
            r@ == self@,
    {
        let r = slice_subrange(self.buf, self.pos, self.buf.len());
        assert(r@ =~= self@);
        r
    }

    fn advance(&mut self, n: usize)
        requires
            old(self).wf(),
            n <= old(self)@.len(),
        ensures
            final(self).wf(),
            final(self).buf == old(self).buf,
            final(self)@ == old(self)@.skip(n as int),
    {
        let len: usize = self.buf.len();
        assert(self.buf@.skip(self.pos + n) =~= self@.skip(n as int));
        self.pos = self.pos + n;
    }
}

/// A type with an encoding: what it is written as, what is read, and that the
/// two undo each other.
pub trait Packed: Sized {
    /// The values, as the specification sees them.
    type M;

    spec fn model(&self) -> Self::M;

    /// Whether the lengths in the value fit in 64 bits, as those of every
    /// value in memory do.
    spec fn fits(m: Self::M) -> bool;

    /// The encoding.
    spec fn put(m: Self::M) -> Seq<u8>;

    /// The value at the front of the bytes and the bytes after it.
    spec fn take(s: Seq<u8>) -> Option<(Self::M, Seq<u8>)>;

    /// A value is read back from its encoding, whatever follows.
    proof fn roundtrip(m: Self::M, rest: Seq<u8>)
        requires
            Self::fits(m),
        ensures
            Self::take(Self::put(m) + rest) == Some((m, rest)),
    ;

    /// What was read stood there: a value has one encoding.
    proof fn canonical(s: Seq<u8>)
        ensures
            Self::take(s) matches Some((m, rest)) ==> Self::fits(m) && s == Self::put(m) + rest,
    ;

    /// Appends the encoding.
    fn write(&self, out: &mut Vec<u8>)
        ensures
            final(out)@ == old(out)@ + Self::put(self.model()),
            Self::fits(self.model()),
    ;

    /// A second copy of the value.
    fn copy(&self) -> (x: Self)
        ensures
            x.model() == self.model(),
    ;

    /// Reads the value at the front.
    fn read(r: &mut Input<'_>) -> (x: Option<Self>)
        requires
            old(r).wf(),
        ensures
            final(r).wf(),
            match Self::take(old(r)@) {
                None => x is None,
                Some((m, rest)) => x is Some && x->Some_0.model() == m && final(r)@ == rest,
            },
    ;
}

fn append(out: &mut Vec<u8>, more: Vec<u8>)
    ensures
        final(out)@ == old(out)@ + more@,
{
    let mut more = more;
    out.append(&mut more);
}

impl Packed for u16 {
    type M = u16;

    open spec fn model(&self) -> u16 {
        *self
    }

    open spec fn fits(m: u16) -> bool {
        true
    }

    open spec fn put(m: u16) -> Seq<u8> {
        le_bytes(m as nat, 2)
    }

    open spec fn take(s: Seq<u8>) -> Option<(u16, Seq<u8>)> {
        if s.len() < 2 {
            None
        } else {
            Some((le_value(s.take(2)) as u16, s.skip(2)))
        }
    }

    proof fn roundtrip(m: u16, rest: Seq<u8>) {
        lemma_byte_ranges();
        lemma_le_value_of_bytes(m as nat, 2);
        let s = Self::put(m) + rest;
        assert(s.take(2) =~= Self::put(m));
        assert(s.skip(2) =~= rest);
    }

    proof fn canonical(s: Seq<u8>) {
        lemma_byte_ranges();
        if s.len() >= 2 {
            lemma_le_bytes_of_value(s.take(2));
            assert(s =~= s.take(2) + s.skip(2));
        }
    }

    fn write(&self, out: &mut Vec<u8>) {
        append(out, encode_u16(*self));
    }

    fn copy(&self) -> (x: Self) {
        *self
    }

    fn read(r: &mut Input<'_>) -> (x: Option<Self>) {
        match decode_u16(r.rest()) {
            None => None,
            Some((v, n)) => {
                r.advance(n);
                Some(v)
            },
        }
    }
}

impl Packed for u32 {
    type M = u32;

    open spec fn model(&self) -> u32 {
        *self
    }

    open spec fn fits(m: u32) -> bool {
        true
    }

    open spec fn put(m: u32) -> Seq<u8> {
        le_bytes(m as nat, 4)
    }

    open spec fn take(s: Seq<u8>) -> Option<(u32, Seq<u8>)> {
        if s.len() < 4 {
            None
        } else {
            Some((le_value(s.take(4)) as u32, s.skip(4)))
        }
    }

    proof fn roundtrip(m: u32, rest: Seq<u8>) {
        lemma_byte_ranges();
        lemma_le_value_of_bytes(m as nat, 4);
        let s = Self::put(m) + rest;
        assert(s.take(4) =~= Self::put(m));
        assert(s.skip(4) =~= rest);
    }

    proof fn canonical(s: Seq<u8>) {
        lemma_byte_ranges();
        if s.len() >= 4 {
            lemma_le_bytes_of_value(s.take(4));
            assert(s =~= s.take(4) + s.skip(4));
        }
    }

    fn write(&self, out: &mut Vec<u8>) {
        append(out, encode_u32(*self));
    }

    fn copy(&self) -> (x: Self) {
        *self
    }

    fn read(r: &mut Input<'_>) -> (x: Option<Self>) {
        match decode_u32(r.rest()) {
            None => None,
            Some((v, n)) => {
                r.advance(n);
                Some(v)
            },
        }
    }
}

impl Packed for u64 {
    type M = u64;

    open spec fn model(&self) -> u64 {
        *self
    }

    open spec fn fits(m: u64) -> bool {
        true
    }

    open spec fn put(m: u64) -> Seq<u8> {
        le_bytes(m as nat, 8)
    }

    open spec fn take(s: Seq<u8>) -> Option<(u64, Seq<u8>)> {
        if s.len() < 8 {
            None
        } else {
            Some((le_value(s.take(8)) as u64, s.skip(8)))
        }
    }

    proof fn roundtrip(m: u64, rest: Seq<u8>) {
        lemma_byte_ranges();
        lemma_le_value_of_bytes(m as nat, 8);
        let s = Self::put(m) + rest;
        assert(s.take(8) =~= Self::put(m));
        assert(s.skip(8) =~= rest);
    }

    proof fn canonical(s: Seq<u8>) {
        lemma_byte_ranges();
        if s.len() >= 8 {
            lemma_le_bytes_of_value(s.take(8));
            assert(s =~= s.take(8) + s.skip(8));
        }
    }

    fn write(&self, out: &mut Vec<u8>) {
        append(out, encode_u64(*self));
    }

    fn copy(&self) -> (x: Self) {
        *self
    }

    fn read(r: &mut Input<'_>) -> (x: Option<Self>) {
        match decode_u64(r.rest()) {
            None => None,
            Some((v, n)) => {
                r.advance(n);
                Some(v)
            },
        }
    }
}

impl Packed for i32 {
    type M = i32;

    open spec fn model(&self) -> i32 {
        *self
    }

    open spec fn fits(m: i32) -> bool {
        true
    }

    open spec fn put(m: i32) -> Seq<u8> {
        i32_bytes(m)
    }

    open spec fn take(s: Seq<u8>) -> Option<(i32, Seq<u8>)> {
        if s.len() < 4 {
            None
        } else {
            let n = le_value(s.take(4));
            let v = if n < 0x8000_0000 {
                n as i32
            } else {
                (n - 0x1_0000_0000) as i32
            };
            Some((v, s.skip(4)))
        }
    }

    proof fn roundtrip(m: i32, rest: Seq<u8>) {
        lemma_byte_ranges();
        let n = if m >= 0 {
            m as nat
        } else {
            (m + 0x1_0000_0000) as nat
        };
        lemma_le_value_of_bytes(n, 4);
        let s = Self::put(m) + rest;
        assert(s.take(4) =~= Self::put(m));
        assert(s.skip(4) =~= rest);
    }

    proof fn canonical(s: Seq<u8>) {
        lemma_byte_ranges();
        if s.len() >= 4 {
            lemma_le_bytes_of_value(s.take(4));
            assert(s =~= s.take(4) + s.skip(4));
        }
    }

    fn write(&self, out: &mut Vec<u8>) {
        append(out, encode_i32(*self));
    }

    fn copy(&self) -> (x: Self) {
        *self
    }

    fn read(r: &mut Input<'_>) -> (x: Option<Self>) {
        match decode_i32(r.rest()) {
            None => None,
            Some((v, n)) => {
                proof {
                    Self::roundtrip(v, r@.skip(4));
                    assert(r@ =~= r@.take(4) + r@.skip(4));
                }
                r.advance(n);
                Some(v)
            },
        }
    }
}

impl Packed for bool {
    type M = bool;

    open spec fn model(&self) -> bool {
        *self
    }

    open spec fn fits(m: bool) -> bool {
        true
    }

    open spec fn put(m: bool) -> Seq<u8> {
        seq![
            if m {
                1u8
            } else {
                0u8
            },
        ]
    }

    open spec fn take(s: Seq<u8>) -> Option<(bool, Seq<u8>)> {
        if s.len() < 1 || s[0] > 1 {
            None
        } else {
            Some((s[0] == 1, s.skip(1)))
        }
    }

    proof fn roundtrip(m: bool, rest: Seq<u8>) {
        assert((Self::put(m) + rest).skip(1) =~= rest);
    }

    proof fn canonical(s: Seq<u8>) {
        if s.len() >= 1 && s[0] <= 1 {
            assert(s =~= Self::put(s[0] == 1) + s.skip(1));
        }
    }

    fn write(&self, out: &mut Vec<u8>) {
        append(out, encode_bool(*self));
    }

    fn copy(&self) -> (x: Self) {
        *self
    }

    fn read(r: &mut Input<'_>) -> (x: Option<Self>) {
        match decode_bool(r.rest()) {
            None => None,
            Some((v, n)) => {
                r.advance(n);
                Some(v)
            },
        }
    }
}

/// A length-prefixed byte string.
pub open spec fn put_blob(d: Seq<u8>) -> Seq<u8> {
    le_bytes(d.len(), 8) + d
}

proof fn lemma_take_put_blob(d: Seq<u8>, rest: Seq<u8>)
    requires
        d.len() <= u64::MAX,
    ensures
        take_blob(put_blob(d) + rest) == Some((d, rest)),
{
    lemma_byte_ranges();
    lemma_le_value_of_bytes(d.len(), 8);
    let s = put_blob(d) + rest;
    assert(s.take(8) =~= le_bytes(d.len(), 8));
    assert(s.subrange(8, (8 + d.len()) as int) =~= d);
    assert(s.skip((8 + d.len()) as int) =~= rest);
}

proof fn lemma_put_take_blob(s: Seq<u8>)
    ensures
        take_blob(s) matches Some((d, rest)) ==> d.len() <= u64::MAX && s == put_blob(d) + rest,
{
    lemma_byte_ranges();
    if take_blob(s) is Some {
        lemma_le_bytes_of_value(s.take(8));
        let (d, rest) = take_blob(s)->Some_0;
        assert(s =~= put_blob(d) + rest);
    }
}

impl Packed for String {
    type M = Seq<char>;

    open spec fn model(&self) -> Seq<char> {
        self@
    }

    open spec fn fits(m: Seq<char>) -> bool {
        encode_utf8(m).len() <= u64::MAX
    }

    open spec fn put(m: Seq<char>) -> Seq<u8> {
        put_blob(encode_utf8(m))
    }

    open spec fn take(s: Seq<u8>) -> Option<(Seq<char>, Seq<u8>)> {
        match take_blob(s) {
            None => None,
            Some((text, rest)) => if valid_utf8(text) {
                Some((decode_utf8(text), rest))
            } else {
                None
            },
        }
    }

    proof fn roundtrip(m: Seq<char>, rest: Seq<u8>) {
        lemma_take_put_blob(encode_utf8(m), rest);
        lemma_utf8_text(m);
    }

    proof fn canonical(s: Seq<u8>) {
        lemma_put_take_blob(s);
        if Self::take(s) is Some {
            vstd::utf8::decode_utf8_encode_utf8(take_blob(s)->Some_0.0);
        }
    }

    fn write(&self, out: &mut Vec<u8>) {
        let n: usize = self.as_str().as_bytes().len();
        append(out, encode_str(self.as_str()));
    }

    fn copy(&self) -> (x: Self) {
        self.clone()
    }

    fn read(r: &mut Input<'_>) -> (x: Option<Self>) {
        let rest = r.rest();
        if rest.len() >= 8 {
            assert(rest@.subrange(0, 8) =~= rest@.take(8));
            let n: u64 = read_le(rest, 0, 8);
            if n > (rest.len() - 8) as u64 {
                return None;
            }
        }
        match decode_str(rest) {
            None => None,
            Some((v, n)) => {
                r.advance(n);
                Some(v)
            },
        }
    }
}

/// A byte string: what a `Vec<u8>` is written as.
pub struct Blob(pub Vec<u8>);

/// Appends a byte string.
pub fn write_blob(d: &[u8], out: &mut Vec<u8>)
    ensures
        final(out)@ == old(out)@ + put_blob(d@),
        d@.len() <= u64::MAX,
{
    let n: usize = d.len();
    append(out, encode_blob(d));
}

impl Packed for Blob {
    type M = Seq<u8>;

    open spec fn model(&self) -> Seq<u8> {
        self.0@
    }

    open spec fn fits(m: Seq<u8>) -> bool {
        m.len() <= u64::MAX
    }

    open spec fn put(m: Seq<u8>) -> Seq<u8> {
        put_blob(m)
    }

    open spec fn take(s: Seq<u8>) -> Option<(Seq<u8>, Seq<u8>)> {
        take_blob(s)
    }

    proof fn roundtrip(m: Seq<u8>, rest: Seq<u8>) {
        lemma_take_put_blob(m, rest);
    }

    proof fn canonical(s: Seq<u8>) {
        lemma_put_take_blob(s);
    }

    fn write(&self, out: &mut Vec<u8>) {
        write_blob(self.0.as_slice(), out);
    }

    fn copy(&self) -> (x: Self) {
        Blob(self.0.clone())
    }

    fn read(r: &mut Input<'_>) -> (x: Option<Self>) {
        match decode_blob(r.rest()) {
            None => None,
            Some((v, n)) => {
                r.advance(n);
                Some(Blob(v))
            },
        }
    }
}

impl Packed for NodeId {
    type M = NodeId;

    open spec fn model(&self) -> NodeId {
        *self
    }

    open spec fn fits(m: NodeId) -> bool {
        true
    }

    open spec fn put(m: NodeId) -> Seq<u8> {
        m.bytes()
    }

    open spec fn take(s: Seq<u8>) -> Option<(NodeId, Seq<u8>)> {
        if s.len() < 16 {
            None
        } else {
            Some((NodeId(le_value(s.take(16).reverse()) as u128), s.skip(16)))
        }
    }

    proof fn roundtrip(m: NodeId, rest: Seq<u8>) {
        let s = Self::put(m) + rest;
        m.lemma_of_bytes();
        assert(s.take(16) =~= m.bytes());
        assert(s.skip(16) =~= rest);
    }

    proof fn canonical(s: Seq<u8>) {
        if s.len() >= 16 {
            NodeId::lemma_bytes_of(s.take(16));
            assert(s =~= s.take(16) + s.skip(16));
        }
    }

    fn write(&self, out: &mut Vec<u8>) {
        append(out, encode_id(self.to_array()));
    }

    fn copy(&self) -> (x: Self) {
        *self
    }

    fn read(r: &mut Input<'_>) -> (x: Option<Self>) {
        match decode_id(r.rest()) {
            None => None,
            Some((v, n)) => {
                let id = NodeId::from_bytes(v);
                proof {
                    NodeId::lemma_bytes_of(r@.take(16));
                    law_node_bytes(id, Self::take(r@)->Some_0.0);
                }
                r.advance(n);
                Some(id)
            },
        }
    }
}

impl<A: Packed, B: Packed> Packed for (A, B) {
    type M = (A::M, B::M);

    open spec fn model(&self) -> (A::M, B::M) {
        (self.0.model(), self.1.model())
    }

    open spec fn fits(m: (A::M, B::M)) -> bool {
        A::fits(m.0) && B::fits(m.1)
    }

    open spec fn put(m: (A::M, B::M)) -> Seq<u8> {
        A::put(m.0) + B::put(m.1)
    }

    open spec fn take(s: Seq<u8>) -> Option<((A::M, B::M), Seq<u8>)> {
        match A::take(s) {
            None => None,
            Some((a, s)) => match B::take(s) {
                None => None,
                Some((b, s)) => Some(((a, b), s)),
            },
        }
    }

    proof fn roundtrip(m: (A::M, B::M), rest: Seq<u8>) {
        assert(Self::put(m) + rest =~= A::put(m.0) + (B::put(m.1) + rest));
        A::roundtrip(m.0, B::put(m.1) + rest);
        B::roundtrip(m.1, rest);
    }

    proof fn canonical(s: Seq<u8>) {
        if Self::take(s) is Some {
            A::canonical(s);
            let s1 = A::take(s)->Some_0.1;
            B::canonical(s1);
            let (m, rest) = Self::take(s)->Some_0;
            assert(s =~= Self::put(m) + rest);
        }
    }

    fn write(&self, out: &mut Vec<u8>) {
        let ghost before = out@;
        self.0.write(out);
        self.1.write(out);
        assert(out@ =~= before + Self::put(self.model()));
    }

    fn copy(&self) -> (x: Self) {
        (self.0.copy(), self.1.copy())
    }

    fn read(r: &mut Input<'_>) -> (x: Option<Self>) {
        let a = match A::read(r) {
            Some(a) => a,
            None => {
                return None;
            },
        };
        let b = match B::read(r) {
            Some(b) => b,
            None => {
                return None;
            },
        };
        Some((a, b))
    }
}

/// Items one after the other.
pub open spec fn put_items<T: Packed>(ms: Seq<T::M>) -> Seq<u8>
    decreases ms.len(),
{
    if ms.len() == 0 {
        Seq::empty()
    } else {
        put_items::<T>(ms.drop_last()) + T::put(ms.last())
    }
}

/// The `n` items at the front of the bytes.
pub open spec fn take_items<T: Packed>(s: Seq<u8>, n: nat) -> Option<(Seq<T::M>, Seq<u8>)>
    decreases n,
{
    if n == 0 {
        Some((Seq::empty(), s))
    } else {
        match take_items::<T>(s, (n - 1) as nat) {
            None => None,
            Some((ms, s)) => match T::take(s) {
                None => None,
                Some((m, s)) => Some((ms.push(m), s)),
            },
        }
    }
}

/// What a list of encodable values says.
pub open spec fn models<T: Packed>(v: Seq<T>) -> Seq<T::M> {
    Seq::new(v.len(), |i: int| v[i].model())
}

proof fn lemma_take_put_items<T: Packed>(ms: Seq<T::M>, rest: Seq<u8>)
    requires
        forall|i: int| 0 <= i < ms.len() ==> T::fits(#[trigger] ms[i]),
    ensures
        take_items::<T>(put_items::<T>(ms) + rest, ms.len()) == Some((ms, rest)),
    decreases ms.len(),
{
    if ms.len() == 0 {
        assert(put_items::<T>(ms) + rest =~= rest);
        assert(ms =~= Seq::empty());
    } else {
        let init = ms.drop_last();
        let last = T::put(ms.last());
        assert(put_items::<T>(ms) + rest =~= put_items::<T>(init) + (last + rest));
        assert forall|i: int| 0 <= i < init.len() implies T::fits(#[trigger] init[i]) by {
            assert(init[i] == ms[i]);
        }
        lemma_take_put_items::<T>(init, last + rest);
        T::roundtrip(ms.last(), rest);
        assert(init.push(ms.last()) =~= ms);
    }
}

proof fn lemma_put_take_items<T: Packed>(s: Seq<u8>, n: nat)
    requires
        take_items::<T>(s, n) is Some,
    ensures
        ({
            let (ms, rest) = take_items::<T>(s, n)->Some_0;
            &&& ms.len() == n
            &&& s == put_items::<T>(ms) + rest
            &&& forall|i: int| 0 <= i < ms.len() ==> T::fits(#[trigger] ms[i])
        }),
    decreases n,
{
    if n == 0 {
        assert(s =~= Seq::<u8>::empty() + s);
    } else {
        lemma_put_take_items::<T>(s, (n - 1) as nat);
        let (init, s1) = take_items::<T>(s, (n - 1) as nat)->Some_0;
        T::canonical(s1);
        let (m, rest) = T::take(s1)->Some_0;
        assert(init.push(m).drop_last() =~= init);
        assert(s =~= put_items::<T>(init.push(m)) + rest);
    }
}

proof fn lemma_take_items_none<T: Packed>(s: Seq<u8>, k: nat, n: nat)
    requires
        k <= n,
        take_items::<T>(s, k) is None,
    ensures
        take_items::<T>(s, n) is None,
    decreases n,
{
    if k < n {
        lemma_take_items_none::<T>(s, k, (n - 1) as nat);
    }
}

impl<T: Packed> Packed for Vec<T> {
    type M = Seq<T::M>;

    open spec fn model(&self) -> Seq<T::M> {
        models(self@)
    }

    open spec fn fits(m: Seq<T::M>) -> bool {
        m.len() <= u64::MAX && forall|i: int| 0 <= i < m.len() ==> T::fits(#[trigger] m[i])
    }

    open spec fn put(m: Seq<T::M>) -> Seq<u8> {
        le_bytes(m.len(), 8) + put_items::<T>(m)
    }

    open spec fn take(s: Seq<u8>) -> Option<(Seq<T::M>, Seq<u8>)> {
        match u64::take(s) {
            None => None,
            Some((n, s)) => take_items::<T>(s, n as nat),
        }
    }

    proof fn roundtrip(m: Seq<T::M>, rest: Seq<u8>) {
        let n = m.len() as u64;
        let body = put_items::<T>(m);
        assert(Self::put(m) + rest =~= u64::put(n) + (body + rest));
        u64::roundtrip(n, body + rest);
        lemma_take_put_items::<T>(m, rest);
    }

    proof fn canonical(s: Seq<u8>) {
        if Self::take(s) is Some {
            u64::canonical(s);
            let (n, s1) = u64::take(s)->Some_0;
            lemma_put_take_items::<T>(s1, n as nat);
            let (m, rest) = Self::take(s)->Some_0;
            assert(s =~= Self::put(m) + rest);
        }
    }

    fn write(&self, out: &mut Vec<u8>) {
        let ghost before = out@;
        let ghost ms = models(self@);
        let n = self.len() as u64;
        n.write(out);
        let ghost start = out@;
        let mut k: usize = 0;
        assert(ms.take(0) =~= Seq::empty());
        assert(start + Seq::<u8>::empty() =~= start);
        while k < self.len()
            invariant
                k <= self@.len(),
                ms == models(self@),
                out@ == start + put_items::<T>(ms.take(k as int)),
                forall|i: int| 0 <= i < k ==> T::fits(#[trigger] ms[i]),
            decreases self@.len() - k,
        {
            self[k].write(out);
            proof {
                let done = ms.take(k as int);
                let m = self@[k as int].model();
                assert(ms.take(k + 1).drop_last() =~= done);
                assert(ms.take(k + 1).last() == m);
                assert(start + put_items::<T>(done) + T::put(m) =~= start + (put_items::<T>(done)
                    + T::put(m)));
            }
            k = k + 1;
        }
        assert(ms.take(k as int) =~= ms);
        assert(out@ =~= before + Self::put(ms));
    }

    fn copy(&self) -> (x: Self) {
        let mut v: Vec<T> = Vec::new();
        let mut k: usize = 0;
        while k < self.len()
            invariant
                k <= self@.len(),
                v@.len() == k,
                forall|i: int| 0 <= i < k ==> #[trigger] v@[i].model() == self@[i].model(),
            decreases self@.len() - k,
        {
            v.push(self[k].copy());
            k = k + 1;
        }
        assert(models(v@) =~= models(self@));
        v
    }

    fn read(r: &mut Input<'_>) -> (x: Option<Self>) {
        let ghost all = r@;
        let n: u64 = match u64::read(r) {
            Some(n) => n,
            None => {
                return None;
            },
        };
        let ghost start = r@;
        let mut v: Vec<T> = Vec::new();
        let mut k: u64 = 0;
        assert(models(v@) =~= Seq::empty());
        while k < n
            invariant
                r.wf(),
                k <= n,
                all == old(r)@,
                u64::take(all) == Some((n, start)),
                take_items::<T>(start, k as nat) == Some((models(v@), r@)),
            decreases n - k,
        {
            let ghost done = v@;
            match T::read(r) {
                None => {
                    proof {
                        lemma_take_items_none::<T>(start, (k + 1) as nat, n as nat);
                    }
                    return None;
                },
                Some(x) => {
                    v.push(x);
                    assert(models(v@) =~= models(done).push(x.model()));
                },
            }
            k = k + 1;
        }
        Some(v)
    }
}

impl<T: Packed> Packed for Option<T> {
    type M = Option<T::M>;

    open spec fn model(&self) -> Option<T::M> {
        match *self {
            None => None,
            Some(x) => Some(x.model()),
        }
    }

    open spec fn fits(m: Option<T::M>) -> bool {
        m matches Some(x) ==> T::fits(x)
    }

    open spec fn put(m: Option<T::M>) -> Seq<u8> {
        match m {
            None => bool::put(false),
            Some(x) => bool::put(true) + T::put(x),
        }
    }

    open spec fn take(s: Seq<u8>) -> Option<(Option<T::M>, Seq<u8>)> {
        match bool::take(s) {
            None => None,
            Some((false, s)) => Some((None, s)),
            Some((true, s)) => match T::take(s) {
                None => None,
                Some((x, s)) => Some((Some(x), s)),
            },
        }
    }

    proof fn roundtrip(m: Option<T::M>, rest: Seq<u8>) {
        match m {
            None => {
                bool::roundtrip(false, rest);
            },
            Some(x) => {
                assert(Self::put(m) + rest =~= bool::put(true) + (T::put(x) + rest));
                bool::roundtrip(true, T::put(x) + rest);
                T::roundtrip(x, rest);
            },
        }
    }

    proof fn canonical(s: Seq<u8>) {
        if <Self as Packed>::take(s) is Some {
            bool::canonical(s);
            let (some, s1) = bool::take(s)->Some_0;
            if some {
                T::canonical(s1);
            }
            let (m, rest) = <Self as Packed>::take(s)->Some_0;
            assert(s =~= Self::put(m) + rest);
        }
    }

    fn write(&self, out: &mut Vec<u8>) {
        let ghost before = out@;
        match self {
            None => {
                false.write(out);
            },
            Some(x) => {
                true.write(out);
                x.write(out);
            },
        }
        assert(out@ =~= before + Self::put(self.model()));
    }

    fn copy(&self) -> (x: Self) {
        match self {
            None => None,
            Some(x) => Some(x.copy()),
        }
    }

    fn read(r: &mut Input<'_>) -> (x: Option<Self>) {
        match bool::read(r) {
            None => None,
            Some(false) => Some(None),
            Some(true) => match T::read(r) {
                None => None,
                Some(x) => Some(Some(x)),
            },
        }
    }
}

impl Packed for NetId {
    type M = NetId;

    open spec fn model(&self) -> NetId {
        *self
    }

    open spec fn fits(m: NetId) -> bool {
        true
    }

    open spec fn put(m: NetId) -> Seq<u8> {
        <(NodeId, u64)>::put((m.node, m.mbox.0))
    }

    open spec fn take(s: Seq<u8>) -> Option<(NetId, Seq<u8>)> {
        match <(NodeId, u64)>::take(s) {
            None => None,
            Some(((node, mbox), s)) => Some((NetId { node, mbox: MboxId(mbox) }, s)),
        }
    }

    proof fn roundtrip(m: NetId, rest: Seq<u8>) {
        <(NodeId, u64)>::roundtrip((m.node, m.mbox.0), rest);
    }

    proof fn canonical(s: Seq<u8>) {
        <(NodeId, u64)>::canonical(s);
    }

    fn write(&self, out: &mut Vec<u8>) {
        (self.node, self.mbox.0).write(out);
    }

    fn copy(&self) -> (x: Self) {
        *self
    }

    fn read(r: &mut Input<'_>) -> (x: Option<Self>) {
        match <(NodeId, u64)>::read(r) {
            None => None,
            Some((node, mbox)) => Some(NetId { node, mbox: MboxId(mbox) }),
        }
    }
}

/// What the whole payload says: a value and nothing after it.
pub open spec fn unpacked<T: Packed>(s: Seq<u8>) -> Result<T::M, CodecError> {
    match T::take(s) {
        None => Err(CodecError::Malformed),
        Some((m, rest)) => if rest.len() == 0 {
            Ok(m)
        } else {
            Err(CodecError::Trailing(rest.len() as usize))
        },
    }
}

/// The payload that holds the value.
pub fn pack<T: Packed>(v: &T) -> (r: Vec<u8>)
    ensures
        r@ == T::put(v.model()),
        T::fits(v.model()),
{
    let mut out: Vec<u8> = Vec::new();
    v.write(&mut out);
    assert(out@ =~= T::put(v.model()));
    out
}

/// The value that the payload holds.
pub fn unpack<T: Packed>(b: &[u8]) -> (r: Result<T, CodecError>)
    ensures
        match unpacked::<T>(b@) {
            Ok(m) => r is Ok && r->Ok_0.model() == m,
            Err(e) => r == Err::<T, CodecError>(e),
        },
{
    let mut input = Input::new(b);
    match T::read(&mut input) {
        None => Err(CodecError::Malformed),
        Some(v) => {
            let left: usize = input.rest().len();
            if left == 0 {
                Ok(v)
            } else {
                Err(CodecError::Trailing(left))
            }
        },
    }
}

/// Whether two values say the same: their payloads are compared.
pub fn same<T: Packed>(a: &T, b: &T) -> (r: bool)
    ensures
        r == (a.model() == b.model()),
{
    let x = pack(a);
    let y = pack(b);
    proof {
        law_unpack_pack::<T>(a.model());
        law_unpack_pack::<T>(b.model());
    }
    if x.len() != y.len() {
        return false;
    }
    let mut i: usize = 0;
    while i < x.len()
        invariant
            i <= x@.len() == y@.len(),
            x@ == T::put(a.model()),
            y@ == T::put(b.model()),
            forall|k: int| 0 <= k < i ==> x@[k] == y@[k],
        decreases x@.len() - i,
    {
        if x[i] != y[i] {
            return false;
        }
        i = i + 1;
    }
    assert(x@ =~= y@);
    true
}

/// A value whose lengths fit is read back from its payload.
pub proof fn law_unpack_pack<T: Packed>(m: T::M)
    requires
        T::fits(m),
    ensures
        unpacked::<T>(T::put(m)) == Ok::<T::M, CodecError>(m),
{
    T::roundtrip(m, Seq::empty());
    assert(T::put(m) + Seq::<u8>::empty() =~= T::put(m));
}

/// Only one payload holds a value: its own encoding.
pub proof fn law_pack_unpack<T: Packed>(s: Seq<u8>)
    ensures
        unpacked::<T>(s) matches Ok(m) ==> s == T::put(m),
{
    T::canonical(s);
    if let Ok(m) = unpacked::<T>(s) {
        assert(s =~= T::put(m));
    }
}

} // verus!

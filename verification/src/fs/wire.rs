//! Reader and writer primitives of the 9P2000.L wire format: little-endian
//! integers, length-prefixed strings, qids.
//!
//! A reader consumes a prefix of the bytes it is given: each `take_*` function
//! says what is read from the front of a byte sequence and what is left.
use crate::bytes::{
    byte_range, le_bytes, le_value, lemma_byte_ranges, lemma_le_bytes_len, lemma_le_bytes_of_value,
    lemma_le_value_of_bytes, lemma_utf8_text, push_le, read_le, utf8_text,
};
use crate::fs::types::Qid;
use crate::render::{dec, dec_text};
use crate::text::texts;
use vstd::prelude::*;
use vstd::slice::slice_subrange;
use vstd::slice::slice_to_vec;
use vstd::string::StringExecFns;
use vstd::utf8::{decode_utf8, encode_utf8, valid_utf8};

verus! {

broadcast use lemma_le_bytes_len;

/// Why a message could not be read or written.
#[derive(Copy, Clone, Debug, PartialEq, Eq, Structural)]
pub enum NineError {
    /// The message ended early.
    Eom,
    /// A string is longer than its 16-bit length prefix can say.
    StringTooLong(usize),
    /// A string is not UTF-8.
    Utf8,
    /// The message type is not one that is understood.
    UnknownType(u8),
    /// A walk names more than 16 path elements.
    TwalkTooManyNames(u16),
    /// A walk reply carries more than 16 qids.
    RwalkTooManyQids(u16),
}

impl NineError {
    /// The error in words.
    pub open spec fn text(self) -> Seq<char> {
        match self {
            NineError::Eom => "unexpected end of message"@,
            NineError::StringTooLong(n) => "string too long: "@ + dec(n as nat) + " bytes"@,
            NineError::Utf8 => "invalid utf-8 in 9P string"@,
            NineError::UnknownType(t) => "unknown message type "@ + dec(t as nat),
            NineError::TwalkTooManyNames(n) => "Twalk wname count "@ + dec(n as nat)
                + " exceeds 16"@,
            NineError::RwalkTooManyQids(n) => "Rwalk wqid count "@ + dec(n as nat)
                + " exceeds 16"@,
        }
    }

    /// The error in words.
    pub fn to_string(&self) -> (s: String)
        ensures
            s@ == self.text(),
    {
        match self {
            NineError::Eom => "unexpected end of message".to_owned(),
            NineError::StringTooLong(n) => {
                let mut s = "string too long: ".to_owned();
                s.append(dec_text(*n as u64).as_str());
                s.append(" bytes");
                s
            },
            NineError::Utf8 => "invalid utf-8 in 9P string".to_owned(),
            NineError::UnknownType(t) => {
                let mut s = "unknown message type ".to_owned();
                s.append(dec_text(*t as u64).as_str());
                s
            },
            NineError::TwalkTooManyNames(n) => {
                let mut s = "Twalk wname count ".to_owned();
                s.append(dec_text(*n as u64).as_str());
                s.append(" exceeds 16");
                s
            },
            NineError::RwalkTooManyQids(n) => {
                let mut s = "Rwalk wqid count ".to_owned();
                s.append(dec_text(*n as u64).as_str());
                s.append(" exceeds 16");
                s
            },
        }
    }
}

/// What a read from the front of a byte sequence gives: the value and the bytes
/// after it, or the reason why there is none.
pub type Taken<T> = Result<(T, Seq<u8>), NineError>;

pub open spec fn take_u8(s: Seq<u8>) -> Taken<u8> {
    if s.len() < 1 {
        Err(NineError::Eom)
    } else {
        Ok((s[0], s.skip(1)))
    }
}

pub open spec fn take_u16(s: Seq<u8>) -> Taken<u16> {
    if s.len() < 2 {
        Err(NineError::Eom)
    } else {
        Ok((le_value(s.take(2)) as u16, s.skip(2)))
    }
}

pub open spec fn take_u32(s: Seq<u8>) -> Taken<u32> {
    if s.len() < 4 {
        Err(NineError::Eom)
    } else {
        Ok((le_value(s.take(4)) as u32, s.skip(4)))
    }
}

pub open spec fn take_u64(s: Seq<u8>) -> Taken<u64> {
    if s.len() < 8 {
        Err(NineError::Eom)
    } else {
        Ok((le_value(s.take(8)) as u64, s.skip(8)))
    }
}

/// The next `n` bytes as they are.
pub open spec fn take_data(s: Seq<u8>, n: nat) -> Taken<Seq<u8>> {
    if s.len() < n {
        Err(NineError::Eom)
    } else {
        Ok((s.take(n as int), s.skip(n as int)))
    }
}

/// A string: a 16-bit byte count, then that many bytes of UTF-8.
pub open spec fn take_str(s: Seq<u8>) -> Taken<Seq<char>> {
    match take_u16(s) {
        Err(e) => Err(e),
        Ok((n, s)) => match take_data(s, n as nat) {
            Err(e) => Err(e),
            Ok((text, s)) => if valid_utf8(text) {
                Ok((decode_utf8(text), s))
            } else {
                Err(NineError::Utf8)
            },
        },
    }
}

/// A qid: type, version, path.
pub open spec fn take_qid(s: Seq<u8>) -> Taken<Qid> {
    match take_u8(s) {
        Err(e) => Err(e),
        Ok((type_, s)) => match take_u32(s) {
            Err(e) => Err(e),
            Ok((version, s)) => match take_u64(s) {
                Err(e) => Err(e),
                Ok((path, s)) => Ok((Qid { type_, version, path }, s)),
            },
        },
    }
}

/// `n` strings, one after the other.
pub open spec fn take_strs(s: Seq<u8>, n: nat) -> Taken<Seq<Seq<char>>>
    decreases n,
{
    if n == 0 {
        Ok((Seq::empty(), s))
    } else {
        match take_strs(s, (n - 1) as nat) {
            Err(e) => Err(e),
            Ok((names, s)) => match take_str(s) {
                Err(e) => Err(e),
                Ok((name, s)) => Ok((names.push(name), s)),
            },
        }
    }
}

/// `n` qids, one after the other.
pub open spec fn take_qids(s: Seq<u8>, n: nat) -> Taken<Seq<Qid>>
    decreases n,
{
    if n == 0 {
        Ok((Seq::empty(), s))
    } else {
        match take_qids(s, (n - 1) as nat) {
            Err(e) => Err(e),
            Ok((qids, s)) => match take_qid(s) {
                Err(e) => Err(e),
                Ok((qid, s)) => Ok((qids.push(qid), s)),
            },
        }
    }
}

/// `n` 64-bit integers, one after the other.
pub open spec fn take_u64s(s: Seq<u8>, n: nat) -> Taken<Seq<u64>>
    decreases n,
{
    if n == 0 {
        Ok((Seq::empty(), s))
    } else {
        match take_u64s(s, (n - 1) as nat) {
            Err(e) => Err(e),
            Ok((vs, s)) => match take_u64(s) {
                Err(e) => Err(e),
                Ok((v, s)) => Ok((vs.push(v), s)),
            },
        }
    }
}

pub open spec fn put_u16(v: u16) -> Seq<u8> {
    le_bytes(v as nat, 2)
}

pub open spec fn put_u32(v: u32) -> Seq<u8> {
    le_bytes(v as nat, 4)
}

pub open spec fn put_u64(v: u64) -> Seq<u8> {
    le_bytes(v as nat, 8)
}

/// Whether the text's length fits its 16-bit prefix.
pub open spec fn str_fits(s: Seq<char>) -> bool {
    encode_utf8(s).len() <= 0xffff
}

/// The error for a text that does not fit.
pub open spec fn too_long(s: Seq<char>) -> NineError {
    NineError::StringTooLong(encode_utf8(s).len() as usize)
}

/// A string as it is written where it fits.
pub open spec fn put_str(s: Seq<char>) -> Seq<u8> {
    put_u16(encode_utf8(s).len() as u16) + encode_utf8(s)
}

pub open spec fn put_qid(q: Qid) -> Seq<u8> {
    seq![q.type_] + put_u32(q.version) + put_u64(q.path)
}

/// The strings one after the other; the first that does not fit is the error.
pub open spec fn put_strs(names: Seq<Seq<char>>) -> Result<Seq<u8>, NineError>
    decreases names.len(),
{
    if names.len() == 0 {
        Ok(Seq::empty())
    } else {
        match put_strs(names.drop_last()) {
            Err(e) => Err(e),
            Ok(b) => if str_fits(names.last()) {
                Ok(b + put_str(names.last()))
            } else {
                Err(too_long(names.last()))
            },
        }
    }
}

pub open spec fn put_qids(qids: Seq<Qid>) -> Seq<u8>
    decreases qids.len(),
{
    if qids.len() == 0 {
        Seq::empty()
    } else {
        put_qids(qids.drop_last()) + put_qid(qids.last())
    }
}

pub open spec fn put_u64s(vs: Seq<u64>) -> Seq<u8>
    decreases vs.len(),
{
    if vs.len() == 0 {
        Seq::empty()
    } else {
        put_u64s(vs.drop_last()) + put_u64(vs.last())
    }
}

/// Whether an executed read gave what was there to be read.
pub open spec fn read_gave<T>(r: Result<T, NineError>, left: Seq<u8>, want: Taken<T>) -> bool {
    match want {
        Ok((v, rest)) => r == Ok::<T, NineError>(v) && left == rest,
        Err(e) => r == Err::<T, NineError>(e),
    }
}

/// A position in a byte slice; reads move it forward.
pub struct R<'a> {
    pub buf: &'a [u8],
    pub i: usize,
}

impl<'a> View for R<'a> {
    type V = Seq<u8>;

    /// The bytes not read yet.
    open spec fn view(&self) -> Seq<u8> {
        self.buf@.skip(self.i as int)
    }
}

impl<'a> R<'a> {
    pub open spec fn wf(&self) -> bool {
        self.i <= self.buf@.len()
    }

    pub fn new(buf: &'a [u8]) -> (r: Self)
        ensures
            r.wf(),
            r@ == buf@,
    {
        let r = R { buf, i: 0 };
        assert(buf@.skip(0) =~= buf@);
        r
    }

    /// Checks that `n` more bytes can be read.
    pub fn need(&self, n: usize) -> (r: Result<(), NineError>)
        requires
            self.wf(),
        ensures
            r == if self@.len() < n {
                Err::<(), NineError>(NineError::Eom)
            } else {
                Ok::<(), NineError>(())
            },
    {
        if n > self.buf.len() - self.i {
            Err(NineError::Eom)
        } else {
            Ok(())
        }
    }

    /// Reads an `n`-byte integer that is known to be there.
    fn uint(&mut self, n: usize) -> (v: u64)
        requires
            old(self).wf(),
            n <= 8,
            n <= old(self)@.len(),
        ensures
            final(self).wf(),
            v as nat == le_value(old(self)@.take(n as int)),
            v < byte_range(n as nat),
            final(self)@ == old(self)@.skip(n as int),
    {
        let len: usize = self.buf.len();
        let v: u64 = read_le(self.buf, self.i, n);
        proof {
            let taken = self@.take(n as int);
            assert(taken =~= self.buf@.subrange(self.i as int, self.i + n));
            lemma_le_bytes_of_value(taken);
            assert(self.buf@.skip(self.i + n) =~= self@.skip(n as int));
        }
        self.i = self.i + n;
        v
    }

    pub fn u8(&mut self) -> (r: Result<u8, NineError>)
        requires
            old(self).wf(),
        ensures
            final(self).wf(),
            read_gave(r, final(self)@, take_u8(old(self)@)),
    {
        self.need(1)?;
        let v: u8 = self.buf[self.i];
        proof {
            assert(self.buf@.skip(self.i + 1) =~= self@.skip(1));
        }
        self.i = self.i + 1;
        Ok(v)
    }

    pub fn u16(&mut self) -> (r: Result<u16, NineError>)
        requires
            old(self).wf(),
        ensures
            final(self).wf(),
            read_gave(r, final(self)@, take_u16(old(self)@)),
    {
        self.need(2)?;
        proof {
            lemma_byte_ranges();
        }
        let v: u64 = self.uint(2);
        Ok(v as u16)
    }

    pub fn u32(&mut self) -> (r: Result<u32, NineError>)
        requires
            old(self).wf(),
        ensures
            final(self).wf(),
            read_gave(r, final(self)@, take_u32(old(self)@)),
    {
        self.need(4)?;
        proof {
            lemma_byte_ranges();
        }
        let v: u64 = self.uint(4);
        Ok(v as u32)
    }

    pub fn u64(&mut self) -> (r: Result<u64, NineError>)
        requires
            old(self).wf(),
        ensures
            final(self).wf(),
            read_gave(r, final(self)@, take_u64(old(self)@)),
    {
        self.need(8)?;
        let v: u64 = self.uint(8);
        Ok(v)
    }

    pub fn data(&mut self, n: usize) -> (r: Result<Vec<u8>, NineError>)
        requires
            old(self).wf(),
        ensures
            final(self).wf(),
            match take_data(old(self)@, n as nat) {
                Ok((d, rest)) => r is Ok && r->Ok_0@ == d && final(self)@ == rest,
                Err(e) => r == Err::<Vec<u8>, NineError>(e),
            },
    {
        self.need(n)?;
        let len: usize = self.buf.len();
        let part = slice_subrange(self.buf, self.i, self.i + n);
        let v = slice_to_vec(part);
        proof {
            assert(v@ =~= self@.take(n as int));
            assert(self.buf@.skip(self.i + n) =~= self@.skip(n as int));
        }
        self.i = self.i + n;
        Ok(v)
    }

    pub fn string(&mut self) -> (r: Result<String, NineError>)
        requires
            old(self).wf(),
        ensures
            final(self).wf(),
            match take_str(old(self)@) {
                Ok((s, rest)) => r is Ok && r->Ok_0@ == s && final(self)@ == rest,
                Err(e) => r == Err::<String, NineError>(e),
            },
    {
        let n = self.u16()? as usize;
        let bytes = self.data(n)?;
        match utf8_text(bytes.as_slice()) {
            Some(s) => Ok(s),
            None => Err(NineError::Utf8),
        }
    }

    pub fn qid(&mut self) -> (r: Result<Qid, NineError>)
        requires
            old(self).wf(),
        ensures
            final(self).wf(),
            read_gave(r, final(self)@, take_qid(old(self)@)),
    {
        let type_: u8 = self.u8()?;
        let version: u32 = self.u32()?;
        let path: u64 = self.u64()?;
        Ok(Qid { type_, version, path })
    }

    pub fn strings(&mut self, n: usize) -> (r: Result<Vec<String>, NineError>)
        requires
            old(self).wf(),
        ensures
            final(self).wf(),
            match take_strs(old(self)@, n as nat) {
                Ok((names, rest)) => r is Ok && texts(r->Ok_0@) == names && final(self)@ == rest,
                Err(e) => r == Err::<Vec<String>, NineError>(e),
            },
    {
        let ghost start = self@;
        let mut names: Vec<String> = Vec::new();
        let mut k: usize = 0;
        assert(texts(names@) =~= Seq::<Seq<char>>::empty());
        while k < n
            invariant
                self.wf(),
                k <= n,
                start == old(self)@,
                take_strs(start, k as nat) == Ok::<(Seq<Seq<char>>, Seq<u8>), NineError>(
                    (texts(names@), self@),
                ),
            decreases n - k,
        {
            let ghost before = names@;
            let ghost at = self@;
            let next = self.string();
            match next {
                Err(e) => {
                    proof {
                        assert(take_strs(start, (k + 1) as nat) == Err::<
                            (Seq<Seq<char>>, Seq<u8>),
                            NineError,
                        >(e));
                        lemma_take_strs_err(start, (k + 1) as nat, n as nat);
                    }
                    return Err(e);
                },
                Ok(name) => {
                    names.push(name);
                    assert(texts(names@) =~= texts(before).push(name@));
                },
            }
            k = k + 1;
        }
        Ok(names)
    }

    pub fn qids(&mut self, n: usize) -> (r: Result<Vec<Qid>, NineError>)
        requires
            old(self).wf(),
        ensures
            final(self).wf(),
            match take_qids(old(self)@, n as nat) {
                Ok((qids, rest)) => r is Ok && r->Ok_0@ == qids && final(self)@ == rest,
                Err(e) => r == Err::<Vec<Qid>, NineError>(e),
            },
    {
        let ghost start = self@;
        let mut qids: Vec<Qid> = Vec::new();
        let mut k: usize = 0;
        while k < n
            invariant
                self.wf(),
                k <= n,
                start == old(self)@,
                take_qids(start, k as nat) == Ok::<(Seq<Qid>, Seq<u8>), NineError>((qids@, self@)),
            decreases n - k,
        {
            let next = self.qid();
            match next {
                Err(e) => {
                    proof {
                        assert(take_qids(start, (k + 1) as nat) == Err::<
                            (Seq<Qid>, Seq<u8>),
                            NineError,
                        >(e));
                        lemma_take_qids_err(start, (k + 1) as nat, n as nat);
                    }
                    return Err(e);
                },
                Ok(qid) => {
                    qids.push(qid);
                },
            }
            k = k + 1;
        }
        Ok(qids)
    }

    pub fn u64s(&mut self, n: usize) -> (r: Result<Vec<u64>, NineError>)
        requires
            old(self).wf(),
        ensures
            final(self).wf(),
            match take_u64s(old(self)@, n as nat) {
                Ok((vs, rest)) => r is Ok && r->Ok_0@ == vs && final(self)@ == rest,
                Err(e) => r == Err::<Vec<u64>, NineError>(e),
            },
    {
        let ghost start = self@;
        let mut vs: Vec<u64> = Vec::new();
        let mut k: usize = 0;
        while k < n
            invariant
                self.wf(),
                k <= n,
                start == old(self)@,
                take_u64s(start, k as nat) == Ok::<(Seq<u64>, Seq<u8>), NineError>((vs@, self@)),
            decreases n - k,
        {
            let next = self.u64();
            match next {
                Err(e) => {
                    proof {
                        assert(take_u64s(start, (k + 1) as nat) == Err::<
                            (Seq<u64>, Seq<u8>),
                            NineError,
                        >(e));
                        lemma_take_u64s_err(start, (k + 1) as nat, n as nat);
                    }
                    return Err(e);
                },
                Ok(v) => {
                    vs.push(v);
                },
            }
            k = k + 1;
        }
        Ok(vs)
    }
}

proof fn lemma_take_strs_err(s: Seq<u8>, k: nat, n: nat)
    requires
        k <= n,
        take_strs(s, k) is Err,
    ensures
        take_strs(s, n) == take_strs(s, k),
    decreases n,
{
    if k < n {
        lemma_take_strs_err(s, k, (n - 1) as nat);
    }
}

proof fn lemma_take_qids_err(s: Seq<u8>, k: nat, n: nat)
    requires
        k <= n,
        take_qids(s, k) is Err,
    ensures
        take_qids(s, n) == take_qids(s, k),
    decreases n,
{
    if k < n {
        lemma_take_qids_err(s, k, (n - 1) as nat);
    }
}

proof fn lemma_take_u64s_err(s: Seq<u8>, k: nat, n: nat)
    requires
        k <= n,
        take_u64s(s, k) is Err,
    ensures
        take_u64s(s, n) == take_u64s(s, k),
    decreases n,
{
    if k < n {
        lemma_take_u64s_err(s, k, (n - 1) as nat);
    }
}

/// Reading back a written integer, qid or string gives it and leaves the rest.
pub proof fn lemma_take_put_u16(v: u16, rest: Seq<u8>)
    ensures
        take_u16(put_u16(v) + rest) == Ok::<(u16, Seq<u8>), NineError>((v, rest)),
{
    lemma_byte_ranges();
    lemma_le_value_of_bytes(v as nat, 2);
    let s = put_u16(v) + rest;
    assert(s.take(2) =~= put_u16(v));
    assert(s.skip(2) =~= rest);
}

pub proof fn lemma_take_put_u32(v: u32, rest: Seq<u8>)
    ensures
        take_u32(put_u32(v) + rest) == Ok::<(u32, Seq<u8>), NineError>((v, rest)),
{
    lemma_byte_ranges();
    lemma_le_value_of_bytes(v as nat, 4);
    let s = put_u32(v) + rest;
    assert(s.take(4) =~= put_u32(v));
    assert(s.skip(4) =~= rest);
}

pub proof fn lemma_take_put_u64(v: u64, rest: Seq<u8>)
    ensures
        take_u64(put_u64(v) + rest) == Ok::<(u64, Seq<u8>), NineError>((v, rest)),
{
    lemma_byte_ranges();
    lemma_le_value_of_bytes(v as nat, 8);
    let s = put_u64(v) + rest;
    assert(s.take(8) =~= put_u64(v));
    assert(s.skip(8) =~= rest);
}

pub proof fn lemma_take_put_u8(v: u8, rest: Seq<u8>)
    ensures
        take_u8(seq![v] + rest) == Ok::<(u8, Seq<u8>), NineError>((v, rest)),
{
    assert((seq![v] + rest).skip(1) =~= rest);
}

pub proof fn lemma_take_put_qid(q: Qid, rest: Seq<u8>)
    ensures
        take_qid(put_qid(q) + rest) == Ok::<(Qid, Seq<u8>), NineError>((q, rest)),
{
    let after_version = put_u64(q.path) + rest;
    let after_type = put_u32(q.version) + after_version;
    assert(put_qid(q) + rest =~= seq![q.type_] + after_type);
    lemma_take_put_u8(q.type_, after_type);
    lemma_take_put_u32(q.version, after_version);
    lemma_take_put_u64(q.path, rest);
}

pub proof fn lemma_take_put_str(t: Seq<char>, rest: Seq<u8>)
    requires
        str_fits(t),
    ensures
        take_str(put_str(t) + rest) == Ok::<(Seq<char>, Seq<u8>), NineError>((t, rest)),
{
    let body = encode_utf8(t);
    assert(put_str(t) + rest =~= put_u16(body.len() as u16) + (body + rest));
    lemma_take_put_u16(body.len() as u16, body + rest);
    assert((body + rest).take(body.len() as int) =~= body);
    assert((body + rest).skip(body.len() as int) =~= rest);
    lemma_utf8_text(t);
}

pub proof fn lemma_take_put_strs(names: Seq<Seq<char>>, rest: Seq<u8>)
    requires
        put_strs(names) is Ok,
    ensures
        take_strs(put_strs(names)->Ok_0 + rest, names.len()) == Ok::<
            (Seq<Seq<char>>, Seq<u8>),
            NineError,
        >((names, rest)),
    decreases names.len(),
{
    if names.len() == 0 {
        assert(put_strs(names)->Ok_0 + rest =~= rest);
        assert(names =~= Seq::empty());
    } else {
        let init = names.drop_last();
        let last = put_str(names.last());
        assert(put_strs(names)->Ok_0 + rest =~= put_strs(init)->Ok_0 + (last + rest));
        lemma_take_put_strs(init, last + rest);
        lemma_take_put_str(names.last(), rest);
        assert(init.push(names.last()) =~= names);
    }
}

pub proof fn lemma_take_put_qids(qids: Seq<Qid>, rest: Seq<u8>)
    ensures
        take_qids(put_qids(qids) + rest, qids.len()) == Ok::<(Seq<Qid>, Seq<u8>), NineError>(
            (qids, rest),
        ),
    decreases qids.len(),
{
    if qids.len() == 0 {
        assert(put_qids(qids) + rest =~= rest);
        assert(qids =~= Seq::empty());
    } else {
        let init = qids.drop_last();
        let last = put_qid(qids.last());
        assert(put_qids(qids) + rest =~= put_qids(init) + (last + rest));
        lemma_take_put_qids(init, last + rest);
        lemma_take_put_qid(qids.last(), rest);
        assert(init.push(qids.last()) =~= qids);
    }
}

pub proof fn lemma_take_put_u64s(vs: Seq<u64>, rest: Seq<u8>)
    ensures
        take_u64s(put_u64s(vs) + rest, vs.len()) == Ok::<(Seq<u64>, Seq<u8>), NineError>(
            (vs, rest),
        ),
    decreases vs.len(),
{
    if vs.len() == 0 {
        assert(put_u64s(vs) + rest =~= rest);
        assert(vs =~= Seq::empty());
    } else {
        let init = vs.drop_last();
        let last = put_u64(vs.last());
        assert(put_u64s(vs) + rest =~= put_u64s(init) + (last + rest));
        lemma_take_put_u64s(init, last + rest);
        lemma_take_put_u64(vs.last(), rest);
        assert(init.push(vs.last()) =~= vs);
    }
}

/// What was read is what stood there: writing it again and appending the rest
/// gives the bytes back.
pub proof fn lemma_put_take_u16(s: Seq<u8>)
    requires
        take_u16(s) is Ok,
    ensures
        s == put_u16(take_u16(s)->Ok_0.0) + take_u16(s)->Ok_0.1,
{
    lemma_byte_ranges();
    lemma_le_bytes_of_value(s.take(2));
    assert(s =~= s.take(2) + s.skip(2));
}

pub proof fn lemma_put_take_u32(s: Seq<u8>)
    requires
        take_u32(s) is Ok,
    ensures
        s == put_u32(take_u32(s)->Ok_0.0) + take_u32(s)->Ok_0.1,
{
    lemma_byte_ranges();
    lemma_le_bytes_of_value(s.take(4));
    assert(s =~= s.take(4) + s.skip(4));
}

pub proof fn lemma_put_take_u64(s: Seq<u8>)
    requires
        take_u64(s) is Ok,
    ensures
        s == put_u64(take_u64(s)->Ok_0.0) + take_u64(s)->Ok_0.1,
{
    lemma_byte_ranges();
    lemma_le_bytes_of_value(s.take(8));
    assert(s =~= s.take(8) + s.skip(8));
}

pub proof fn lemma_put_take_u8(s: Seq<u8>)
    requires
        take_u8(s) is Ok,
    ensures
        s == seq![take_u8(s)->Ok_0.0] + take_u8(s)->Ok_0.1,
{
    assert(s =~= seq![s[0]] + s.skip(1));
}

pub proof fn lemma_put_take_data(s: Seq<u8>, n: nat)
    requires
        take_data(s, n) is Ok,
    ensures
        s == take_data(s, n)->Ok_0.0 + take_data(s, n)->Ok_0.1,
        take_data(s, n)->Ok_0.0.len() == n,
{
    assert(s =~= s.take(n as int) + s.skip(n as int));
}

pub proof fn lemma_put_take_qid(s: Seq<u8>)
    requires
        take_qid(s) is Ok,
    ensures
        s == put_qid(take_qid(s)->Ok_0.0) + take_qid(s)->Ok_0.1,
{
    let (q, rest) = take_qid(s)->Ok_0;
    lemma_put_take_u8(s);
    let s1 = take_u8(s)->Ok_0.1;
    lemma_put_take_u32(s1);
    let s2 = take_u32(s1)->Ok_0.1;
    lemma_put_take_u64(s2);
    assert(s =~= put_qid(q) + rest);
}

pub proof fn lemma_put_take_str(s: Seq<u8>)
    requires
        take_str(s) is Ok,
    ensures
        str_fits(take_str(s)->Ok_0.0),
        s == put_str(take_str(s)->Ok_0.0) + take_str(s)->Ok_0.1,
{
    let (t, rest) = take_str(s)->Ok_0;
    lemma_put_take_u16(s);
    let (n, s1) = take_u16(s)->Ok_0;
    lemma_put_take_data(s1, n as nat);
    let body = take_data(s1, n as nat)->Ok_0.0;
    vstd::utf8::decode_utf8_encode_utf8(body);
    assert(s =~= put_str(t) + rest);
}

pub proof fn lemma_put_take_strs(s: Seq<u8>, n: nat)
    requires
        take_strs(s, n) is Ok,
    ensures
        put_strs(take_strs(s, n)->Ok_0.0) is Ok,
        take_strs(s, n)->Ok_0.0.len() == n,
        s == put_strs(take_strs(s, n)->Ok_0.0)->Ok_0 + take_strs(s, n)->Ok_0.1,
    decreases n,
{
    if n == 0 {
        assert(s =~= Seq::<u8>::empty() + s);
    } else {
        lemma_put_take_strs(s, (n - 1) as nat);
        let (init, s1) = take_strs(s, (n - 1) as nat)->Ok_0;
        lemma_put_take_str(s1);
        let (name, rest) = take_str(s1)->Ok_0;
        assert(init.push(name).drop_last() =~= init);
        assert(s =~= put_strs(init.push(name))->Ok_0 + rest);
    }
}

pub proof fn lemma_put_take_qids(s: Seq<u8>, n: nat)
    requires
        take_qids(s, n) is Ok,
    ensures
        take_qids(s, n)->Ok_0.0.len() == n,
        s == put_qids(take_qids(s, n)->Ok_0.0) + take_qids(s, n)->Ok_0.1,
    decreases n,
{
    if n == 0 {
        assert(s =~= Seq::<u8>::empty() + s);
    } else {
        lemma_put_take_qids(s, (n - 1) as nat);
        let (init, s1) = take_qids(s, (n - 1) as nat)->Ok_0;
        lemma_put_take_qid(s1);
        let (q, rest) = take_qid(s1)->Ok_0;
        assert(init.push(q).drop_last() =~= init);
        assert(s =~= put_qids(init.push(q)) + rest);
    }
}

pub proof fn lemma_put_take_u64s(s: Seq<u8>, n: nat)
    requires
        take_u64s(s, n) is Ok,
    ensures
        take_u64s(s, n)->Ok_0.0.len() == n,
        s == put_u64s(take_u64s(s, n)->Ok_0.0) + take_u64s(s, n)->Ok_0.1,
    decreases n,
{
    if n == 0 {
        assert(s =~= Seq::<u8>::empty() + s);
    } else {
        lemma_put_take_u64s(s, (n - 1) as nat);
        let (init, s1) = take_u64s(s, (n - 1) as nat)->Ok_0;
        lemma_put_take_u64(s1);
        let (v, rest) = take_u64(s1)->Ok_0;
        assert(init.push(v).drop_last() =~= init);
        assert(s =~= put_u64s(init.push(v)) + rest);
    }
}

/// Bytes under construction; writes append.
pub struct W {
    pub buf: Vec<u8>,
}

impl View for W {
    type V = Seq<u8>;

    open spec fn view(&self) -> Seq<u8> {
        self.buf@
    }
}

impl W {
    pub fn new() -> (w: Self)
        ensures
            w@ == Seq::<u8>::empty(),
    {
        W { buf: Vec::new() }
    }

    pub fn u8(&mut self, v: u8)
        ensures
            final(self)@ == old(self)@ + seq![v],
    {
        self.buf.push(v);
        assert(self@ =~= old(self)@ + seq![v]);
    }

    pub fn u16(&mut self, v: u16)
        ensures
            final(self)@ == old(self)@ + put_u16(v),
    {
        push_le(&mut self.buf, v as u64, 2);
    }

    pub fn u32(&mut self, v: u32)
        ensures
            final(self)@ == old(self)@ + put_u32(v),
    {
        push_le(&mut self.buf, v as u64, 4);
    }

    pub fn u64(&mut self, v: u64)
        ensures
            final(self)@ == old(self)@ + put_u64(v),
    {
        push_le(&mut self.buf, v, 8);
    }

    pub fn data(&mut self, d: &[u8])
        ensures
            final(self)@ == old(self)@ + d@,
    {
        self.buf.extend_from_slice(d);
        assert(self@ =~= old(self)@ + d@);
    }

    /// Appends the string, or nothing and the error where it is too long.
    pub fn string(&mut self, s: &str) -> (r: Result<(), NineError>)
        ensures
            str_fits(s@) ==> r is Ok && final(self)@ == old(self)@ + put_str(s@),
            !str_fits(s@) ==> r == Err::<(), NineError>(too_long(s@)) && final(self)@ == old(self)@,
    {
        let bytes = s.as_bytes();
        let n: usize = bytes.len();
        if n > 0xffff {
            return Err(NineError::StringTooLong(n));
        }
        self.u16(n as u16);
        self.data(bytes);
        assert(self@ =~= old(self)@ + put_str(s@));
        Ok(())
    }

    pub fn qid(&mut self, q: Qid)
        ensures
            final(self)@ == old(self)@ + put_qid(q),
    {
        self.u8(q.type_);
        self.u32(q.version);
        self.u64(q.path);
        assert(self@ =~= old(self)@ + put_qid(q));
    }

    pub fn into_vec(self) -> (v: Vec<u8>)
        ensures
            v@ == self@,
    {
        self.buf
    }
}

} // verus!

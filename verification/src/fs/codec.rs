//! The 9P2000.L messages the server implements or explicitly rejects, and
//! their encodings.
use crate::bytes::{le_bytes, lemma_le_bytes_len, push_le};
use crate::fs::tcode::{
    RLERROR, TATTACH, TAUTH, TCLUNK, TFLUSH, TFSYNC, TGETATTR, TGETLOCK, TLCREATE, TLINK, TLOCK,
    TLOPEN, TMKDIR, TMKNOD, TREAD, TREADDIR, TREADLINK, TREMOVE, TRENAME, TRENAMEAT, TSETATTR,
    TSTAT, TSYMLINK, TUNLINKAT, TVERSION, TWALK, TWRITE, TWSTAT, TXATTRCREATE, TXATTRWALK,
};
use crate::fs::types::{Fid, Qid, Stat, Tag};
use crate::fs::wire::{
    lemma_put_take_u64s, put_qid, put_qids, put_str, put_strs, put_u16, put_u32, put_u64, put_u64s,
    str_fits, take_data, take_qid, take_qids, take_str, take_strs, take_u16, take_u32, take_u64,
    take_u64s, take_u8, too_long, NineError, Taken, R, W,
};
use crate::text::texts;
use vstd::prelude::*;

verus! {

broadcast use lemma_le_bytes_len;

/// The most path elements one walk may name.
pub const MAX_WALK_NAMES: u16 = 16;

/// 9P version negotiation cap. Clients above this clamp to it.
pub const MAX_MSIZE: u32 = 65536;

/// A request.
#[derive(Clone, Debug, PartialEq, Eq)]
pub enum TMessage {
    Version { tag: Tag, msize: u32, version: String },
    Attach { tag: Tag, fid: Fid, afid: Fid, uname: String, aname: String, n_uname: u32 },
    Flush { tag: Tag, oldtag: Tag },
    Walk { tag: Tag, fid: Fid, newfid: Fid, wnames: Vec<String> },
    Lopen { tag: Tag, fid: Fid, flags: u32 },
    Readlink { tag: Tag, fid: Fid },
    Getattr { tag: Tag, fid: Fid, request_mask: u64 },
    Readdir { tag: Tag, fid: Fid, offset: u64, count: u32 },
    Fsync { tag: Tag, fid: Fid },
    Read { tag: Tag, fid: Fid, offset: u64, count: u32 },
    Clunk { tag: Tag, fid: Fid },
    /// Any T-message whose op is in the rejected set. The dispatcher
    /// emits `Rlerror{ecode}` with the appropriate errno without
    /// parsing the body.
    Rejected { tag: Tag, code: u8 },
}

/// What a [`TMessage`] says.
pub enum TMessageView {
    Version { tag: Tag, msize: u32, version: Seq<char> },
    Attach { tag: Tag, fid: Fid, afid: Fid, uname: Seq<char>, aname: Seq<char>, n_uname: u32 },
    Flush { tag: Tag, oldtag: Tag },
    Walk { tag: Tag, fid: Fid, newfid: Fid, wnames: Seq<Seq<char>> },
    Lopen { tag: Tag, fid: Fid, flags: u32 },
    Readlink { tag: Tag, fid: Fid },
    Getattr { tag: Tag, fid: Fid, request_mask: u64 },
    Readdir { tag: Tag, fid: Fid, offset: u64, count: u32 },
    Fsync { tag: Tag, fid: Fid },
    Read { tag: Tag, fid: Fid, offset: u64, count: u32 },
    Clunk { tag: Tag, fid: Fid },
    Rejected { tag: Tag, code: u8 },
}

impl View for TMessage {
    type V = TMessageView;

    open spec fn view(&self) -> TMessageView {
        match *self {
            TMessage::Version { tag, msize, version } => TMessageView::Version {
                tag,
                msize,
                version: version@,
            },
            TMessage::Attach { tag, fid, afid, uname, aname, n_uname } => TMessageView::Attach {
                tag,
                fid,
                afid,
                uname: uname@,
                aname: aname@,
                n_uname,
            },
            TMessage::Flush { tag, oldtag } => TMessageView::Flush { tag, oldtag },
            TMessage::Walk { tag, fid, newfid, wnames } => TMessageView::Walk {
                tag,
                fid,
                newfid,
                wnames: texts(wnames@),
            },
            TMessage::Lopen { tag, fid, flags } => TMessageView::Lopen { tag, fid, flags },
            TMessage::Readlink { tag, fid } => TMessageView::Readlink { tag, fid },
            TMessage::Getattr { tag, fid, request_mask } => TMessageView::Getattr {
                tag,
                fid,
                request_mask,
            },
            TMessage::Readdir { tag, fid, offset, count } => TMessageView::Readdir {
                tag,
                fid,
                offset,
                count,
            },
            TMessage::Fsync { tag, fid } => TMessageView::Fsync { tag, fid },
            TMessage::Read { tag, fid, offset, count } => TMessageView::Read {
                tag,
                fid,
                offset,
                count,
            },
            TMessage::Clunk { tag, fid } => TMessageView::Clunk { tag, fid },
            TMessage::Rejected { tag, code } => TMessageView::Rejected { tag, code },
        }
    }
}

impl TMessageView {
    /// The tag that pairs the request with its reply.
    pub open spec fn tag_of(self) -> Tag {
        match self {
            TMessageView::Version { tag, .. } => tag,
            TMessageView::Attach { tag, .. } => tag,
            TMessageView::Flush { tag, .. } => tag,
            TMessageView::Walk { tag, .. } => tag,
            TMessageView::Lopen { tag, .. } => tag,
            TMessageView::Readlink { tag, .. } => tag,
            TMessageView::Getattr { tag, .. } => tag,
            TMessageView::Readdir { tag, .. } => tag,
            TMessageView::Fsync { tag, .. } => tag,
            TMessageView::Read { tag, .. } => tag,
            TMessageView::Clunk { tag, .. } => tag,
            TMessageView::Rejected { tag, .. } => tag,
        }
    }
}

impl TMessage {
    pub fn tag(&self) -> (r: Tag)
        ensures
            r == self@.tag_of(),
    {
        match self {
            TMessage::Version { tag, .. } => *tag,
            TMessage::Attach { tag, .. } => *tag,
            TMessage::Flush { tag, .. } => *tag,
            TMessage::Walk { tag, .. } => *tag,
            TMessage::Lopen { tag, .. } => *tag,
            TMessage::Readlink { tag, .. } => *tag,
            TMessage::Getattr { tag, .. } => *tag,
            TMessage::Readdir { tag, .. } => *tag,
            TMessage::Fsync { tag, .. } => *tag,
            TMessage::Read { tag, .. } => *tag,
            TMessage::Clunk { tag, .. } => *tag,
            TMessage::Rejected { tag, .. } => *tag,
        }
    }
}

/// The ops that are recognised and refused.
pub open spec fn rejected_op(code: u8) -> bool {
    ||| code == TLCREATE
    ||| code == TSYMLINK
    ||| code == TMKNOD
    ||| code == TRENAME
    ||| code == TSETATTR
    ||| code == TLINK
    ||| code == TMKDIR
    ||| code == TRENAMEAT
    ||| code == TUNLINKAT
    ||| code == TWRITE
    ||| code == TREMOVE
    ||| code == TAUTH
    ||| code == TXATTRWALK
    ||| code == TXATTRCREATE
    ||| code == TLOCK
    ||| code == TGETLOCK
    ||| code == TSTAT
    ||| code == TWSTAT
}

fn is_rejected_op(code: u8) -> (r: bool)
    ensures
        r == rejected_op(code),
{
    code == TLCREATE || code == TSYMLINK || code == TMKNOD || code == TRENAME || code == TSETATTR
        || code == TLINK || code == TMKDIR || code == TRENAMEAT || code == TUNLINKAT || code
        == TWRITE || code == TREMOVE || code == TAUTH || code == TXATTRWALK || code == TXATTRCREATE
        || code == TLOCK || code == TGETLOCK || code == TSTAT || code == TWSTAT
}

pub open spec fn take_tversion(tag: Tag, s: Seq<u8>) -> Taken<TMessageView> {
    match take_u32(s) {
        Err(e) => Err(e),
        Ok((msize, s)) => match take_str(s) {
            Err(e) => Err(e),
            Ok((version, s)) => Ok((TMessageView::Version { tag, msize, version }, s)),
        },
    }
}

pub open spec fn take_tattach(tag: Tag, s: Seq<u8>) -> Taken<TMessageView> {
    match take_u32(s) {
        Err(e) => Err(e),
        Ok((fid, s)) => match take_u32(s) {
            Err(e) => Err(e),
            Ok((afid, s)) => match take_str(s) {
                Err(e) => Err(e),
                Ok((uname, s)) => match take_str(s) {
                    Err(e) => Err(e),
                    Ok((aname, s)) => match take_u32(s) {
                        Err(e) => Err(e),
                        Ok((n_uname, s)) => Ok(
                            (
                                TMessageView::Attach {
                                    tag,
                                    fid: Fid(fid),
                                    afid: Fid(afid),
                                    uname,
                                    aname,
                                    n_uname,
                                },
                                s,
                            ),
                        ),
                    },
                },
            },
        },
    }
}

pub open spec fn take_twalk(tag: Tag, s: Seq<u8>) -> Taken<TMessageView> {
    match take_u32(s) {
        Err(e) => Err(e),
        Ok((fid, s)) => match take_u32(s) {
            Err(e) => Err(e),
            Ok((newfid, s)) => match take_u16(s) {
                Err(e) => Err(e),
                Ok((n, s)) => if n > MAX_WALK_NAMES {
                    Err(NineError::TwalkTooManyNames(n))
                } else {
                    match take_strs(s, n as nat) {
                        Err(e) => Err(e),
                        Ok((wnames, s)) => Ok(
                            (
                                TMessageView::Walk {
                                    tag,
                                    fid: Fid(fid),
                                    newfid: Fid(newfid),
                                    wnames,
                                },
                                s,
                            ),
                        ),
                    }
                },
            },
        },
    }
}

/// The body of a `Treaddir` or a `Tread`: fid, offset, count.
pub open spec fn take_range(s: Seq<u8>) -> Taken<(Fid, u64, u32)> {
    match take_u32(s) {
        Err(e) => Err(e),
        Ok((fid, s)) => match take_u64(s) {
            Err(e) => Err(e),
            Ok((offset, s)) => match take_u32(s) {
                Err(e) => Err(e),
                Ok((count, s)) => Ok(((Fid(fid), offset, count), s)),
            },
        },
    }
}

/// The body of a request with the given op and tag, and the bytes after it.
pub open spec fn take_tbody(code: u8, tag: Tag, s: Seq<u8>) -> Taken<TMessageView> {
    if code == TVERSION {
        take_tversion(tag, s)
    } else if code == TATTACH {
        take_tattach(tag, s)
    } else if code == TFLUSH {
        match take_u16(s) {
            Err(e) => Err(e),
            Ok((oldtag, s)) => Ok((TMessageView::Flush { tag, oldtag: Tag(oldtag) }, s)),
        }
    } else if code == TWALK {
        take_twalk(tag, s)
    } else if code == TLOPEN {
        match take_u32(s) {
            Err(e) => Err(e),
            Ok((fid, s)) => match take_u32(s) {
                Err(e) => Err(e),
                Ok((flags, s)) => Ok((TMessageView::Lopen { tag, fid: Fid(fid), flags }, s)),
            },
        }
    } else if code == TREADLINK {
        match take_u32(s) {
            Err(e) => Err(e),
            Ok((fid, s)) => Ok((TMessageView::Readlink { tag, fid: Fid(fid) }, s)),
        }
    } else if code == TGETATTR {
        match take_u32(s) {
            Err(e) => Err(e),
            Ok((fid, s)) => match take_u64(s) {
                Err(e) => Err(e),
                Ok((request_mask, s)) => Ok(
                    (TMessageView::Getattr { tag, fid: Fid(fid), request_mask }, s),
                ),
            },
        }
    } else if code == TREADDIR {
        match take_range(s) {
            Err(e) => Err(e),
            Ok(((fid, offset, count), s)) => Ok(
                (TMessageView::Readdir { tag, fid, offset, count }, s),
            ),
        }
    } else if code == TFSYNC {
        match take_u32(s) {
            Err(e) => Err(e),
            Ok((fid, s)) => Ok((TMessageView::Fsync { tag, fid: Fid(fid) }, s)),
        }
    } else if code == TREAD {
        match take_range(s) {
            Err(e) => Err(e),
            Ok(((fid, offset, count), s)) => Ok(
                (TMessageView::Read { tag, fid, offset, count }, s),
            ),
        }
    } else if code == TCLUNK {
        match take_u32(s) {
            Err(e) => Err(e),
            Ok((fid, s)) => Ok((TMessageView::Clunk { tag, fid: Fid(fid) }, s)),
        }
    } else if rejected_op(code) {
        Ok((TMessageView::Rejected { tag, code }, s))
    } else {
        Err(NineError::UnknownType(code))
    }
}

/// The request at the front of the bytes: op, tag, then the op's own body.
/// Bytes after it are not looked at.
pub open spec fn take_t(s: Seq<u8>) -> Taken<TMessageView> {
    match take_u8(s) {
        Err(e) => Err(e),
        Ok((code, s)) => match take_u16(s) {
            Err(e) => Err(e),
            Ok((tag, s)) => take_tbody(code, Tag(tag), s),
        },
    }
}

/// Whether a decoder's result is the message at the front of the bytes.
pub open spec fn decodes_t(r: Result<TMessage, NineError>, want: Taken<TMessageView>) -> bool {
    match want {
        Ok((m, _)) => r is Ok && r->Ok_0@ == m,
        Err(e) => r == Err::<TMessage, NineError>(e),
    }
}

fn read_tversion(r: &mut R, tag: Tag) -> (m: Result<TMessage, NineError>)
    requires
        old(r).wf(),
    ensures
        decodes_t(m, take_tversion(tag, old(r)@)),
{
    let msize: u32 = r.u32()?;
    let version = r.string()?;
    Ok(TMessage::Version { tag, msize, version })
}

fn read_tattach(r: &mut R, tag: Tag) -> (m: Result<TMessage, NineError>)
    requires
        old(r).wf(),
    ensures
        decodes_t(m, take_tattach(tag, old(r)@)),
{
    let fid = Fid(r.u32()?);
    let afid = Fid(r.u32()?);
    let uname = r.string()?;
    let aname = r.string()?;
    let n_uname: u32 = r.u32()?;
    Ok(TMessage::Attach { tag, fid, afid, uname, aname, n_uname })
}

fn read_twalk(r: &mut R, tag: Tag) -> (m: Result<TMessage, NineError>)
    requires
        old(r).wf(),
    ensures
        decodes_t(m, take_twalk(tag, old(r)@)),
{
    let fid = Fid(r.u32()?);
    let newfid = Fid(r.u32()?);
    let nwname: u16 = r.u16()?;
    if nwname > MAX_WALK_NAMES {
        return Err(NineError::TwalkTooManyNames(nwname));
    }
    let wnames = r.strings(nwname as usize)?;
    Ok(TMessage::Walk { tag, fid, newfid, wnames })
}

fn read_range(r: &mut R) -> (m: Result<(Fid, u64, u32), NineError>)
    requires
        old(r).wf(),
    ensures
        match take_range(old(r)@) {
            Ok((v, _)) => m == Ok::<(Fid, u64, u32), NineError>(v),
            Err(e) => m == Err::<(Fid, u64, u32), NineError>(e),
        },
{
    let fid = Fid(r.u32()?);
    let offset: u64 = r.u64()?;
    let count: u32 = r.u32()?;
    Ok((fid, offset, count))
}

/// Decodes the request at the front of `bytes`.
pub fn decode_t(bytes: &[u8]) -> (m: Result<TMessage, NineError>)
    ensures
        decodes_t(m, take_t(bytes@)),
{
    let mut r = R::new(bytes);
    let code: u8 = r.u8()?;
    let tag = Tag(r.u16()?);
    if code == TVERSION {
        read_tversion(&mut r, tag)
    } else if code == TATTACH {
        read_tattach(&mut r, tag)
    } else if code == TFLUSH {
        let oldtag = Tag(r.u16()?);
        Ok(TMessage::Flush { tag, oldtag })
    } else if code == TWALK {
        read_twalk(&mut r, tag)
    } else if code == TLOPEN {
        let fid = Fid(r.u32()?);
        let flags: u32 = r.u32()?;
        Ok(TMessage::Lopen { tag, fid, flags })
    } else if code == TREADLINK {
        let fid = Fid(r.u32()?);
        Ok(TMessage::Readlink { tag, fid })
    } else if code == TGETATTR {
        let fid = Fid(r.u32()?);
        let request_mask: u64 = r.u64()?;
        Ok(TMessage::Getattr { tag, fid, request_mask })
    } else if code == TREADDIR {
        let (fid, offset, count) = read_range(&mut r)?;
        Ok(TMessage::Readdir { tag, fid, offset, count })
    } else if code == TFSYNC {
        let fid = Fid(r.u32()?);
        Ok(TMessage::Fsync { tag, fid })
    } else if code == TREAD {
        let (fid, offset, count) = read_range(&mut r)?;
        Ok(TMessage::Read { tag, fid, offset, count })
    } else if code == TCLUNK {
        let fid = Fid(r.u32()?);
        Ok(TMessage::Clunk { tag, fid })
    } else if is_rejected_op(code) {
        Ok(TMessage::Rejected { tag, code })
    } else {
        Err(NineError::UnknownType(code))
    }
}

/// Op and tag: the start of every message.
pub open spec fn head(code: u8, tag: Tag) -> Seq<u8> {
    seq![code] + put_u16(tag.0)
}

/// The bytes of a request, or why it cannot be written: a string longer than
/// its prefix can say, the first one in message order, or too many names.
pub open spec fn put_t(m: TMessageView) -> Result<Seq<u8>, NineError> {
    match m {
        TMessageView::Version { tag, msize, version } => if str_fits(version) {
            Ok(head(TVERSION, tag) + put_u32(msize) + put_str(version))
        } else {
            Err(too_long(version))
        },
        TMessageView::Attach { tag, fid, afid, uname, aname, n_uname } => if !str_fits(uname) {
            Err(too_long(uname))
        } else if !str_fits(aname) {
            Err(too_long(aname))
        } else {
            Ok(
                head(TATTACH, tag) + put_u32(fid.0) + put_u32(afid.0) + put_str(uname) + put_str(
                    aname,
                ) + put_u32(n_uname),
            )
        },
        TMessageView::Flush { tag, oldtag } => Ok(head(TFLUSH, tag) + put_u16(oldtag.0)),
        TMessageView::Walk { tag, fid, newfid, wnames } => if wnames.len() > MAX_WALK_NAMES {
            Err(NineError::TwalkTooManyNames((wnames.len() % 0x1_0000) as u16))
        } else {
            match put_strs(wnames) {
                Err(e) => Err(e),
                Ok(names) => Ok(
                    head(TWALK, tag) + put_u32(fid.0) + put_u32(newfid.0) + put_u16(
                        wnames.len() as u16,
                    ) + names,
                ),
            }
        },
        TMessageView::Lopen { tag, fid, flags } => Ok(
            head(TLOPEN, tag) + put_u32(fid.0) + put_u32(flags),
        ),
        TMessageView::Readlink { tag, fid } => Ok(head(TREADLINK, tag) + put_u32(fid.0)),
        TMessageView::Getattr { tag, fid, request_mask } => Ok(
            head(TGETATTR, tag) + put_u32(fid.0) + put_u64(request_mask),
        ),
        TMessageView::Readdir { tag, fid, offset, count } => Ok(
            head(TREADDIR, tag) + put_u32(fid.0) + put_u64(offset) + put_u32(count),
        ),
        TMessageView::Fsync { tag, fid } => Ok(head(TFSYNC, tag) + put_u32(fid.0)),
        TMessageView::Read { tag, fid, offset, count } => Ok(
            head(TREAD, tag) + put_u32(fid.0) + put_u64(offset) + put_u32(count),
        ),
        TMessageView::Clunk { tag, fid } => Ok(head(TCLUNK, tag) + put_u32(fid.0)),
        TMessageView::Rejected { tag, code } => Ok(head(code, tag)),
    }
}

/// Whether an encoder's result is the given bytes or error.
pub open spec fn encodes(
    r: Result<Vec<u8>, NineError>,
    want: Result<Seq<u8>, NineError>,
) -> bool {
    match want {
        Ok(b) => r is Ok && r->Ok_0@ == b,
        Err(e) => r == Err::<Vec<u8>, NineError>(e),
    }
}

/// A writer that holds op and tag.
fn start(code: u8, tag: Tag) -> (w: W)
    ensures
        w@ == head(code, tag),
{
    let mut w = W::new();
    w.u8(code);
    w.u16(tag.0);
    assert(w@ =~= head(code, tag));
    w
}

fn write_strings(w: &mut W, names: &Vec<String>) -> (r: Result<(), NineError>)
    ensures
        match put_strs(texts(names@)) {
            Ok(b) => r is Ok && final(w)@ == old(w)@ + b,
            Err(e) => r == Err::<(), NineError>(e),
        },
{
    let ghost before = w@;
    let ghost all = texts(names@);
    let mut k: usize = 0;
    assert(before + Seq::<u8>::empty() =~= before);
    assert(all.take(0) =~= Seq::empty());
    while k < names.len()
        invariant
            k <= names.len(),
            all == texts(names@),
            before == old(w)@,
            put_strs(all.take(k as int)) is Ok,
            w@ == before + put_strs(all.take(k as int))->Ok_0,
        decreases names.len() - k,
    {
        assert(all.take(k + 1).drop_last() =~= all.take(k as int));
        assert(all.take(k + 1).last() == names@[k as int]@);
        let wrote = w.string(names[k].as_str());
        if let Err(e) = wrote {
            proof {
                lemma_put_strs_err(all, (k + 1) as int);
            }
            return Err(e);
        }
        proof {
            let b = put_strs(all.take(k as int))->Ok_0;
            assert(before + b + put_str(names@[k as int]@) =~= before + (b + put_str(
                names@[k as int]@,
            )));
        }
        k = k + 1;
    }
    assert(all.take(k as int) =~= all);
    Ok(())
}

proof fn lemma_put_strs_err(names: Seq<Seq<char>>, k: int)
    requires
        0 <= k <= names.len(),
        put_strs(names.take(k)) is Err,
    ensures
        put_strs(names) == put_strs(names.take(k)),
    decreases names.len() - k,
{
    if k < names.len() {
        assert(names.take(k + 1).drop_last() =~= names.take(k));
        lemma_put_strs_err(names, k + 1);
    } else {
        assert(names.take(k) =~= names);
    }
}

/// Encodes a request. A `Rejected` request is written as its bare header: the
/// typed form does not hold the body.
pub fn encode_t(msg: &TMessage) -> (r: Result<Vec<u8>, NineError>)
    ensures
        encodes(r, put_t(msg@)),
{
    let w = match msg {
        TMessage::Version { tag, msize, version } => {
            let mut w = start(TVERSION, *tag);
            w.u32(*msize);
            w.string(version.as_str())?;
            w
        },
        TMessage::Attach { tag, fid, afid, uname, aname, n_uname } => {
            let mut w = start(TATTACH, *tag);
            w.u32(fid.0);
            w.u32(afid.0);
            w.string(uname.as_str())?;
            w.string(aname.as_str())?;
            w.u32(*n_uname);
            w
        },
        TMessage::Flush { tag, oldtag } => {
            let mut w = start(TFLUSH, *tag);
            w.u16(oldtag.0);
            w
        },
        TMessage::Walk { tag, fid, newfid, wnames } => {
            let n: usize = wnames.len();
            if n > MAX_WALK_NAMES as usize {
                return Err(NineError::TwalkTooManyNames((n % 0x1_0000) as u16));
            }
            let mut w = start(TWALK, *tag);
            w.u32(fid.0);
            w.u32(newfid.0);
            w.u16(n as u16);
            write_strings(&mut w, wnames)?;
            w
        },
        TMessage::Lopen { tag, fid, flags } => {
            let mut w = start(TLOPEN, *tag);
            w.u32(fid.0);
            w.u32(*flags);
            w
        },
        TMessage::Readlink { tag, fid } => {
            let mut w = start(TREADLINK, *tag);
            w.u32(fid.0);
            w
        },
        TMessage::Getattr { tag, fid, request_mask } => {
            let mut w = start(TGETATTR, *tag);
            w.u32(fid.0);
            w.u64(*request_mask);
            w
        },
        TMessage::Readdir { tag, fid, offset, count } => {
            let mut w = start(TREADDIR, *tag);
            w.u32(fid.0);
            w.u64(*offset);
            w.u32(*count);
            w
        },
        TMessage::Fsync { tag, fid } => {
            let mut w = start(TFSYNC, *tag);
            w.u32(fid.0);
            w
        },
        TMessage::Read { tag, fid, offset, count } => {
            let mut w = start(TREAD, *tag);
            w.u32(fid.0);
            w.u64(*offset);
            w.u32(*count);
            w
        },
        TMessage::Clunk { tag, fid } => {
            let mut w = start(TCLUNK, *tag);
            w.u32(fid.0);
            w
        },
        TMessage::Rejected { tag, code } => start(*code, *tag),
    };
    Ok(w.into_vec())
}

/// A reply.
#[derive(Clone, Debug, PartialEq, Eq)]
pub enum RMessage {
    Lerror { tag: Tag, ecode: u32 },
    Version { tag: Tag, msize: u32, version: String },
    Attach { tag: Tag, qid: Qid },
    Flush { tag: Tag },
    Walk { tag: Tag, wqids: Vec<Qid> },
    Lopen { tag: Tag, qid: Qid, iounit: u32 },
    Readlink { tag: Tag, target: String },
    Getattr { tag: Tag, valid: u64, stat: Stat },
    Readdir { tag: Tag, data: Vec<u8> },
    Fsync { tag: Tag },
    Read { tag: Tag, data: Vec<u8> },
    Clunk { tag: Tag },
}

/// What a [`RMessage`] says.
pub enum RMessageView {
    Lerror { tag: Tag, ecode: u32 },
    Version { tag: Tag, msize: u32, version: Seq<char> },
    Attach { tag: Tag, qid: Qid },
    Flush { tag: Tag },
    Walk { tag: Tag, wqids: Seq<Qid> },
    Lopen { tag: Tag, qid: Qid, iounit: u32 },
    Readlink { tag: Tag, target: Seq<char> },
    Getattr { tag: Tag, valid: u64, stat: Stat },
    Readdir { tag: Tag, data: Seq<u8> },
    Fsync { tag: Tag },
    Read { tag: Tag, data: Seq<u8> },
    Clunk { tag: Tag },
}

impl View for RMessage {
    type V = RMessageView;

    open spec fn view(&self) -> RMessageView {
        match *self {
            RMessage::Lerror { tag, ecode } => RMessageView::Lerror { tag, ecode },
            RMessage::Version { tag, msize, version } => RMessageView::Version {
                tag,
                msize,
                version: version@,
            },
            RMessage::Attach { tag, qid } => RMessageView::Attach { tag, qid },
            RMessage::Flush { tag } => RMessageView::Flush { tag },
            RMessage::Walk { tag, wqids } => RMessageView::Walk { tag, wqids: wqids@ },
            RMessage::Lopen { tag, qid, iounit } => RMessageView::Lopen { tag, qid, iounit },
            RMessage::Readlink { tag, target } => RMessageView::Readlink { tag, target: target@ },
            RMessage::Getattr { tag, valid, stat } => RMessageView::Getattr { tag, valid, stat },
            RMessage::Readdir { tag, data } => RMessageView::Readdir { tag, data: data@ },
            RMessage::Fsync { tag } => RMessageView::Fsync { tag },
            RMessage::Read { tag, data } => RMessageView::Read { tag, data: data@ },
            RMessage::Clunk { tag } => RMessageView::Clunk { tag },
        }
    }
}

impl RMessageView {
    /// The tag of the request that is answered.
    pub open spec fn tag_of(self) -> Tag {
        match self {
            RMessageView::Lerror { tag, .. } => tag,
            RMessageView::Version { tag, .. } => tag,
            RMessageView::Attach { tag, .. } => tag,
            RMessageView::Flush { tag } => tag,
            RMessageView::Walk { tag, .. } => tag,
            RMessageView::Lopen { tag, .. } => tag,
            RMessageView::Readlink { tag, .. } => tag,
            RMessageView::Getattr { tag, .. } => tag,
            RMessageView::Readdir { tag, .. } => tag,
            RMessageView::Fsync { tag } => tag,
            RMessageView::Read { tag, .. } => tag,
            RMessageView::Clunk { tag } => tag,
        }
    }
}

impl RMessage {
    pub fn tag(&self) -> (r: Tag)
        ensures
            r == self@.tag_of(),
    {
        match self {
            RMessage::Lerror { tag, .. } => *tag,
            RMessage::Version { tag, .. } => *tag,
            RMessage::Attach { tag, .. } => *tag,
            RMessage::Flush { tag } => *tag,
            RMessage::Walk { tag, .. } => *tag,
            RMessage::Lopen { tag, .. } => *tag,
            RMessage::Readlink { tag, .. } => *tag,
            RMessage::Getattr { tag, .. } => *tag,
            RMessage::Readdir { tag, .. } => *tag,
            RMessage::Fsync { tag } => *tag,
            RMessage::Read { tag, .. } => *tag,
            RMessage::Clunk { tag } => *tag,
        }
    }
}

/// The 64-bit fields of a `Stat`, in wire order.
pub open spec fn stat_words(s: Stat) -> Seq<u64> {
    seq![
        s.nlink,
        s.rdev,
        s.size,
        s.blksize,
        s.blocks,
        s.atime_sec,
        s.atime_nsec,
        s.mtime_sec,
        s.mtime_nsec,
        s.ctime_sec,
        s.ctime_nsec,
        s.btime_sec,
        s.btime_nsec,
        s.gen,
        s.data_version,
    ]
}

/// The `Stat` with the given leading fields and 64-bit words.
pub open spec fn stat_of(qid: Qid, mode: u32, uid: u32, gid: u32, w: Seq<u64>) -> Stat {
    Stat {
        qid,
        mode,
        uid,
        gid,
        nlink: w[0],
        rdev: w[1],
        size: w[2],
        blksize: w[3],
        blocks: w[4],
        atime_sec: w[5],
        atime_nsec: w[6],
        mtime_sec: w[7],
        mtime_nsec: w[8],
        ctime_sec: w[9],
        ctime_nsec: w[10],
        btime_sec: w[11],
        btime_nsec: w[12],
        gen: w[13],
        data_version: w[14],
    }
}

/// A `Stat`: qid, mode, uid, gid, then fifteen 64-bit words.
pub open spec fn take_stat(s: Seq<u8>) -> Taken<Stat> {
    match take_qid(s) {
        Err(e) => Err(e),
        Ok((qid, s)) => match take_u32(s) {
            Err(e) => Err(e),
            Ok((mode, s)) => match take_u32(s) {
                Err(e) => Err(e),
                Ok((uid, s)) => match take_u32(s) {
                    Err(e) => Err(e),
                    Ok((gid, s)) => match take_u64s(s, 15) {
                        Err(e) => Err(e),
                        Ok((w, s)) => Ok((stat_of(qid, mode, uid, gid, w), s)),
                    },
                },
            },
        },
    }
}

pub open spec fn put_stat(s: Stat) -> Seq<u8> {
    put_qid(s.qid) + put_u32(s.mode) + put_u32(s.uid) + put_u32(s.gid) + put_u64s(stat_words(s))
}

/// A 32-bit byte count and that many bytes.
pub open spec fn take_counted(s: Seq<u8>) -> Taken<Seq<u8>> {
    match take_u32(s) {
        Err(e) => Err(e),
        Ok((n, s)) => take_data(s, n as nat),
    }
}

/// The data behind the low 32 bits of its length.
pub open spec fn put_counted(d: Seq<u8>) -> Seq<u8> {
    le_bytes(d.len(), 4) + d
}

/// The body of a reply with the given op and tag, and the bytes after it.
pub open spec fn take_rbody(code: u8, tag: Tag, s: Seq<u8>) -> Taken<RMessageView> {
    if code == RLERROR {
        match take_u32(s) {
            Err(e) => Err(e),
            Ok((ecode, s)) => Ok((RMessageView::Lerror { tag, ecode }, s)),
        }
    } else if code == TVERSION + 1 {
        match take_u32(s) {
            Err(e) => Err(e),
            Ok((msize, s)) => match take_str(s) {
                Err(e) => Err(e),
                Ok((version, s)) => Ok((RMessageView::Version { tag, msize, version }, s)),
            },
        }
    } else if code == TATTACH + 1 {
        match take_qid(s) {
            Err(e) => Err(e),
            Ok((qid, s)) => Ok((RMessageView::Attach { tag, qid }, s)),
        }
    } else if code == TFLUSH + 1 {
        Ok((RMessageView::Flush { tag }, s))
    } else if code == TWALK + 1 {
        match take_u16(s) {
            Err(e) => Err(e),
            Ok((n, s)) => if n > MAX_WALK_NAMES {
                Err(NineError::RwalkTooManyQids(n))
            } else {
                match take_qids(s, n as nat) {
                    Err(e) => Err(e),
                    Ok((wqids, s)) => Ok((RMessageView::Walk { tag, wqids }, s)),
                }
            },
        }
    } else if code == TLOPEN + 1 {
        match take_qid(s) {
            Err(e) => Err(e),
            Ok((qid, s)) => match take_u32(s) {
                Err(e) => Err(e),
                Ok((iounit, s)) => Ok((RMessageView::Lopen { tag, qid, iounit }, s)),
            },
        }
    } else if code == TREADLINK + 1 {
        match take_str(s) {
            Err(e) => Err(e),
            Ok((target, s)) => Ok((RMessageView::Readlink { tag, target }, s)),
        }
    } else if code == TGETATTR + 1 {
        match take_u64(s) {
            Err(e) => Err(e),
            Ok((valid, s)) => match take_stat(s) {
                Err(e) => Err(e),
                Ok((stat, s)) => Ok((RMessageView::Getattr { tag, valid, stat }, s)),
            },
        }
    } else if code == TREADDIR + 1 {
        match take_counted(s) {
            Err(e) => Err(e),
            Ok((data, s)) => Ok((RMessageView::Readdir { tag, data }, s)),
        }
    } else if code == TFSYNC + 1 {
        Ok((RMessageView::Fsync { tag }, s))
    } else if code == TREAD + 1 {
        match take_counted(s) {
            Err(e) => Err(e),
            Ok((data, s)) => Ok((RMessageView::Read { tag, data }, s)),
        }
    } else if code == TCLUNK + 1 {
        Ok((RMessageView::Clunk { tag }, s))
    } else {
        Err(NineError::UnknownType(code))
    }
}

/// The reply at the front of the bytes. Bytes after it are not looked at.
pub open spec fn take_r(s: Seq<u8>) -> Taken<RMessageView> {
    match take_u8(s) {
        Err(e) => Err(e),
        Ok((code, s)) => match take_u16(s) {
            Err(e) => Err(e),
            Ok((tag, s)) => take_rbody(code, Tag(tag), s),
        },
    }
}

/// Whether a decoder's result is the reply at the front of the bytes.
pub open spec fn decodes_r(r: Result<RMessage, NineError>, want: Taken<RMessageView>) -> bool {
    match want {
        Ok((m, _)) => r is Ok && r->Ok_0@ == m,
        Err(e) => r == Err::<RMessage, NineError>(e),
    }
}

fn read_stat(r: &mut R) -> (m: Result<Stat, NineError>)
    requires
        old(r).wf(),
    ensures
        match take_stat(old(r)@) {
            Ok((v, _)) => m == Ok::<Stat, NineError>(v),
            Err(e) => m == Err::<Stat, NineError>(e),
        },
{
    let qid = r.qid()?;
    let mode: u32 = r.u32()?;
    let uid: u32 = r.u32()?;
    let gid: u32 = r.u32()?;
    proof {
        if take_u64s(r@, 15) is Ok {
            lemma_put_take_u64s(r@, 15);
        }
    }
    let w = r.u64s(15)?;
    Ok(
        Stat {
            qid,
            mode,
            uid,
            gid,
            nlink: w[0],
            rdev: w[1],
            size: w[2],
            blksize: w[3],
            blocks: w[4],
            atime_sec: w[5],
            atime_nsec: w[6],
            mtime_sec: w[7],
            mtime_nsec: w[8],
            ctime_sec: w[9],
            ctime_nsec: w[10],
            btime_sec: w[11],
            btime_nsec: w[12],
            gen: w[13],
            data_version: w[14],
        },
    )
}

fn read_counted(r: &mut R) -> (m: Result<Vec<u8>, NineError>)
    requires
        old(r).wf(),
    ensures
        match take_counted(old(r)@) {
            Ok((d, _)) => m is Ok && m->Ok_0@ == d,
            Err(e) => m == Err::<Vec<u8>, NineError>(e),
        },
{
    let count = r.u32()? as usize;
    r.data(count)
}

/// Decodes the reply at the front of `bytes`.
pub fn decode_r(bytes: &[u8]) -> (m: Result<RMessage, NineError>)
    ensures
        decodes_r(m, take_r(bytes@)),
{
    let mut r = R::new(bytes);
    let code: u8 = r.u8()?;
    let tag = Tag(r.u16()?);
    if code == RLERROR {
        let ecode: u32 = r.u32()?;
        Ok(RMessage::Lerror { tag, ecode })
    } else if code == TVERSION + 1 {
        let msize: u32 = r.u32()?;
        let version = r.string()?;
        Ok(RMessage::Version { tag, msize, version })
    } else if code == TATTACH + 1 {
        let qid = r.qid()?;
        Ok(RMessage::Attach { tag, qid })
    } else if code == TFLUSH + 1 {
        Ok(RMessage::Flush { tag })
    } else if code == TWALK + 1 {
        let nwqid: u16 = r.u16()?;
        if nwqid > MAX_WALK_NAMES {
            return Err(NineError::RwalkTooManyQids(nwqid));
        }
        let wqids = r.qids(nwqid as usize)?;
        Ok(RMessage::Walk { tag, wqids })
    } else if code == TLOPEN + 1 {
        let qid = r.qid()?;
        let iounit: u32 = r.u32()?;
        Ok(RMessage::Lopen { tag, qid, iounit })
    } else if code == TREADLINK + 1 {
        let target = r.string()?;
        Ok(RMessage::Readlink { tag, target })
    } else if code == TGETATTR + 1 {
        let valid: u64 = r.u64()?;
        let stat = read_stat(&mut r)?;
        Ok(RMessage::Getattr { tag, valid, stat })
    } else if code == TREADDIR + 1 {
        let data = read_counted(&mut r)?;
        Ok(RMessage::Readdir { tag, data })
    } else if code == TFSYNC + 1 {
        Ok(RMessage::Fsync { tag })
    } else if code == TREAD + 1 {
        let data = read_counted(&mut r)?;
        Ok(RMessage::Read { tag, data })
    } else if code == TCLUNK + 1 {
        Ok(RMessage::Clunk { tag })
    } else {
        Err(NineError::UnknownType(code))
    }
}

/// The bytes of a reply, or why it cannot be written.
pub open spec fn put_r(m: RMessageView) -> Result<Seq<u8>, NineError> {
    match m {
        RMessageView::Lerror { tag, ecode } => Ok(head(RLERROR, tag) + put_u32(ecode)),
        RMessageView::Version { tag, msize, version } => if str_fits(version) {
            Ok(head((TVERSION + 1) as u8, tag) + put_u32(msize) + put_str(version))
        } else {
            Err(too_long(version))
        },
        RMessageView::Attach { tag, qid } => Ok(head((TATTACH + 1) as u8, tag) + put_qid(qid)),
        RMessageView::Flush { tag } => Ok(head((TFLUSH + 1) as u8, tag)),
        RMessageView::Walk { tag, wqids } => if wqids.len() > MAX_WALK_NAMES {
            Err(NineError::RwalkTooManyQids((wqids.len() % 0x1_0000) as u16))
        } else {
            Ok(head((TWALK + 1) as u8, tag) + put_u16(wqids.len() as u16) + put_qids(wqids))
        },
        RMessageView::Lopen { tag, qid, iounit } => Ok(
            head((TLOPEN + 1) as u8, tag) + put_qid(qid) + put_u32(iounit),
        ),
        RMessageView::Readlink { tag, target } => if str_fits(target) {
            Ok(head((TREADLINK + 1) as u8, tag) + put_str(target))
        } else {
            Err(too_long(target))
        },
        RMessageView::Getattr { tag, valid, stat } => Ok(
            head((TGETATTR + 1) as u8, tag) + put_u64(valid) + put_stat(stat),
        ),
        RMessageView::Readdir { tag, data } => Ok(
            head((TREADDIR + 1) as u8, tag) + put_counted(data),
        ),
        RMessageView::Fsync { tag } => Ok(head((TFSYNC + 1) as u8, tag)),
        RMessageView::Read { tag, data } => Ok(head((TREAD + 1) as u8, tag) + put_counted(data)),
        RMessageView::Clunk { tag } => Ok(head((TCLUNK + 1) as u8, tag)),
    }
}

fn write_qids(w: &mut W, qids: &Vec<Qid>)
    ensures
        final(w)@ == old(w)@ + put_qids(qids@),
{
    let ghost before = w@;
    let mut k: usize = 0;
    assert(qids@.take(0) =~= Seq::empty());
    assert(before + Seq::<u8>::empty() =~= before);
    while k < qids.len()
        invariant
            k <= qids.len(),
            w@ == before + put_qids(qids@.take(k as int)),
        decreases qids.len() - k,
    {
        w.qid(qids[k]);
        proof {
            let done = qids@.take(k as int);
            assert(qids@.take(k + 1).drop_last() =~= done);
            assert(before + put_qids(done) + put_qid(qids@[k as int]) =~= before + (put_qids(done)
                + put_qid(qids@[k as int])));
        }
        k = k + 1;
    }
    assert(qids@.take(k as int) =~= qids@);
}

fn write_stat(w: &mut W, s: &Stat)
    ensures
        final(w)@ == old(w)@ + put_stat(*s),
{
    w.qid(s.qid);
    w.u32(s.mode);
    w.u32(s.uid);
    w.u32(s.gid);
    let ghost before = w@;
    let words: [u64; 15] = [
        s.nlink,
        s.rdev,
        s.size,
        s.blksize,
        s.blocks,
        s.atime_sec,
        s.atime_nsec,
        s.mtime_sec,
        s.mtime_nsec,
        s.ctime_sec,
        s.ctime_nsec,
        s.btime_sec,
        s.btime_nsec,
        s.gen,
        s.data_version,
    ];
    assert(words@ =~= stat_words(*s));
    let mut k: usize = 0;
    assert(words@.take(0) =~= Seq::empty());
    assert(before + Seq::<u8>::empty() =~= before);
    while k < 15
        invariant
            k <= 15,
            w@ == before + put_u64s(words@.take(k as int)),
        decreases 15 - k,
    {
        w.u64(words[k]);
        proof {
            let done = words@.take(k as int);
            assert(words@.take(k + 1).drop_last() =~= done);
            assert(before + put_u64s(done) + put_u64(words@[k as int]) =~= before + (put_u64s(done)
                + put_u64(words@[k as int])));
        }
        k = k + 1;
    }
    assert(words@.take(k as int) =~= words@);
    assert(w@ =~= old(w)@ + put_stat(*s));
}

fn write_counted(w: &mut W, d: &Vec<u8>)
    ensures
        final(w)@ == old(w)@ + put_counted(d@),
{
    push_le(&mut w.buf, d.len() as u64, 4);
    w.data(d.as_slice());
    assert(w@ =~= old(w)@ + put_counted(d@));
}

/// Encodes a reply.
pub fn encode_r(msg: &RMessage) -> (r: Result<Vec<u8>, NineError>)
    ensures
        encodes(r, put_r(msg@)),
{
    let w = match msg {
        RMessage::Lerror { tag, ecode } => {
            let mut w = start(RLERROR, *tag);
            w.u32(*ecode);
            w
        },
        RMessage::Version { tag, msize, version } => {
            let mut w = start(TVERSION + 1, *tag);
            w.u32(*msize);
            w.string(version.as_str())?;
            w
        },
        RMessage::Attach { tag, qid } => {
            let mut w = start(TATTACH + 1, *tag);
            w.qid(*qid);
            w
        },
        RMessage::Flush { tag } => start(TFLUSH + 1, *tag),
        RMessage::Walk { tag, wqids } => {
            let n: usize = wqids.len();
            if n > MAX_WALK_NAMES as usize {
                return Err(NineError::RwalkTooManyQids((n % 0x1_0000) as u16));
            }
            let mut w = start(TWALK + 1, *tag);
            w.u16(n as u16);
            write_qids(&mut w, wqids);
            w
        },
        RMessage::Lopen { tag, qid, iounit } => {
            let mut w = start(TLOPEN + 1, *tag);
            w.qid(*qid);
            w.u32(*iounit);
            w
        },
        RMessage::Readlink { tag, target } => {
            let mut w = start(TREADLINK + 1, *tag);
            w.string(target.as_str())?;
            w
        },
        RMessage::Getattr { tag, valid, stat } => {
            let mut w = start(TGETATTR + 1, *tag);
            w.u64(*valid);
            write_stat(&mut w, stat);
            w
        },
        RMessage::Readdir { tag, data } => {
            let mut w = start(TREADDIR + 1, *tag);
            write_counted(&mut w, data);
            w
        },
        RMessage::Fsync { tag } => start(TFSYNC + 1, *tag),
        RMessage::Read { tag, data } => {
            let mut w = start(TREAD + 1, *tag);
            write_counted(&mut w, data);
            w
        },
        RMessage::Clunk { tag } => start(TCLUNK + 1, *tag),
    };
    Ok(w.into_vec())
}

/// Convenience: build a per-op `Rlerror` with the given errno.
pub fn rlerror(tag: Tag, ecode: u32) -> (r: RMessage)
    ensures
        r@ == (RMessageView::Lerror { tag, ecode }),
{
    RMessage::Lerror { tag, ecode }
}

} // verus!

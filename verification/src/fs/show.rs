//! Replies in words, for messages: the form that `Debug` derives.
use crate::fs::codec::{RMessage, RMessageView};
use crate::fs::types::{Qid, Stat, Tag};
use crate::render::{dec, dec_text};
use crate::text::{quote, quoted};
use vstd::prelude::*;
use vstd::string::StringExecFns;

verus! {

/// The texts with commas between them.
pub open spec fn comma_joined(parts: Seq<Seq<char>>) -> Seq<char>
    decreases parts.len(),
{
    if parts.len() == 0 {
        ""@
    } else if parts.len() == 1 {
        parts[0]
    } else {
        comma_joined(parts.drop_last()) + ", "@ + parts.last()
    }
}

pub open spec fn qid_text(q: Qid) -> Seq<char> {
    "Qid { type_: "@ + dec(q.type_ as nat) + ", version: "@ + dec(q.version as nat) + ", path: "@
        + dec(q.path as nat) + " }"@
}

pub open spec fn stat_text(s: Stat) -> Seq<char> {
    "Stat { qid: "@ + qid_text(s.qid) + ", mode: "@ + dec(s.mode as nat)
        + ", uid: "@ + dec(s.uid as nat)
        + ", gid: "@ + dec(s.gid as nat)
        + ", nlink: "@ + dec(s.nlink as nat)
        + ", rdev: "@ + dec(s.rdev as nat)
        + ", size: "@ + dec(s.size as nat)
        + ", blksize: "@ + dec(s.blksize as nat)
        + ", blocks: "@ + dec(s.blocks as nat)
        + ", atime_sec: "@ + dec(s.atime_sec as nat)
        + ", atime_nsec: "@ + dec(s.atime_nsec as nat)
        + ", mtime_sec: "@ + dec(s.mtime_sec as nat)
        + ", mtime_nsec: "@ + dec(s.mtime_nsec as nat)
        + ", ctime_sec: "@ + dec(s.ctime_sec as nat)
        + ", ctime_nsec: "@ + dec(s.ctime_nsec as nat)
        + ", btime_sec: "@ + dec(s.btime_sec as nat)
        + ", btime_nsec: "@ + dec(s.btime_nsec as nat)
        + ", gen: "@ + dec(s.gen as nat)
        + ", data_version: "@ + dec(s.data_version as nat) + " }"@
}

/// The bytes of a list in decimal.
pub open spec fn byte_texts(data: Seq<u8>) -> Seq<Seq<char>> {
    Seq::new(data.len(), |i: int| dec(data[i] as nat))
}

/// The qids of a list in words.
pub open spec fn qid_texts(qids: Seq<Qid>) -> Seq<Seq<char>> {
    Seq::new(qids.len(), |i: int| qid_text(qids[i]))
}

/// The start of every reply: its name and its tag.
pub open spec fn head(name: Seq<char>, tag: Tag) -> Seq<char> {
    name + " { tag: Tag("@ + dec(tag.0 as nat) + ")"@
}

/// A reply in words.
pub open spec fn reply_text(m: RMessageView) -> Seq<char> {
    match m {
        RMessageView::Lerror { tag, ecode } => head("Lerror"@, tag) + ", ecode: "@ + dec(ecode as nat)
            + " }"@,
        RMessageView::Version { tag, msize, version } => head("Version"@, tag) + ", msize: "@ + dec(
            msize as nat,
        ) + ", version: "@ + quoted(version) + " }"@,
        RMessageView::Attach { tag, qid } => head("Attach"@, tag) + ", qid: "@ + qid_text(qid) + " }"@,
        RMessageView::Flush { tag } => head("Flush"@, tag) + " }"@,
        RMessageView::Walk { tag, wqids } => head("Walk"@, tag) + ", wqids: ["@ + comma_joined(
            qid_texts(wqids),
        ) + "] }"@,
        RMessageView::Lopen { tag, qid, iounit } => head("Lopen"@, tag) + ", qid: "@ + qid_text(qid)
            + ", iounit: "@ + dec(iounit as nat) + " }"@,
        RMessageView::Readlink { tag, target } => head("Readlink"@, tag) + ", target: "@ + quoted(
            target,
        ) + " }"@,
        RMessageView::Getattr { tag, valid, stat } => head("Getattr"@, tag) + ", valid: "@ + dec(
            valid as nat,
        ) + ", stat: "@ + stat_text(stat) + " }"@,
        RMessageView::Readdir { tag, data } => head("Readdir"@, tag) + ", data: ["@ + comma_joined(
            byte_texts(data),
        ) + "] }"@,
        RMessageView::Fsync { tag } => head("Fsync"@, tag) + " }"@,
        RMessageView::Read { tag, data } => head("Read"@, tag) + ", data: ["@ + comma_joined(
            byte_texts(data),
        ) + "] }"@,
        RMessageView::Clunk { tag } => head("Clunk"@, tag) + " }"@,
    }
}

/// Appends a label and a number.
fn label(t: &mut String, name: &str, n: u64)
    ensures
        final(t)@ == old(t)@ + name@ + dec(n as nat),
{
    t.append(name);
    t.append(dec_text(n).as_str());
}

fn show_qid(q: Qid) -> (t: String)
    ensures
        t@ == qid_text(q),
{
    let mut t = "Qid { type_: ".to_owned();
    t.append(dec_text(q.type_ as u64).as_str());
    label(&mut t, ", version: ", q.version as u64);
    label(&mut t, ", path: ", q.path);
    t.append(" }");
    t
}

fn show_stat(s: Stat) -> (t: String)
    ensures
        t@ == stat_text(s),
{
    let mut t = "Stat { qid: ".to_owned();
    t.append(show_qid(s.qid).as_str());
    label(&mut t, ", mode: ", s.mode as u64);
    label(&mut t, ", uid: ", s.uid as u64);
    label(&mut t, ", gid: ", s.gid as u64);
    label(&mut t, ", nlink: ", s.nlink as u64);
    label(&mut t, ", rdev: ", s.rdev as u64);
    label(&mut t, ", size: ", s.size as u64);
    label(&mut t, ", blksize: ", s.blksize as u64);
    label(&mut t, ", blocks: ", s.blocks as u64);
    label(&mut t, ", atime_sec: ", s.atime_sec as u64);
    label(&mut t, ", atime_nsec: ", s.atime_nsec as u64);
    label(&mut t, ", mtime_sec: ", s.mtime_sec as u64);
    label(&mut t, ", mtime_nsec: ", s.mtime_nsec as u64);
    label(&mut t, ", ctime_sec: ", s.ctime_sec as u64);
    label(&mut t, ", ctime_nsec: ", s.ctime_nsec as u64);
    label(&mut t, ", btime_sec: ", s.btime_sec as u64);
    label(&mut t, ", btime_nsec: ", s.btime_nsec as u64);
    label(&mut t, ", gen: ", s.gen as u64);
    label(&mut t, ", data_version: ", s.data_version as u64);
    t.append(" }");
    t
}

fn show_bytes(data: &Vec<u8>) -> (t: String)
    ensures
        t@ == comma_joined(byte_texts(data@)),
{
    let ghost all = byte_texts(data@);
    let mut t = "".to_owned();
    let mut i: usize = 0;
    assert(all.take(0).len() == 0);
    proof {
        reveal_strlit("");
    }
    while i < data.len()
        invariant
            i <= data@.len(),
            all == byte_texts(data@),
            t@ == comma_joined(all.take(i as int)),
            ""@.len() == 0,
        decreases data@.len() - i,
    {
        let ghost now = all.take(i + 1);
        assert(now.drop_last() =~= all.take(i as int));
        assert(now.last() == dec(data@[i as int] as nat));
        if i > 0 {
            t.append(", ");
        }
        let ghost before = t@;
        t.append(dec_text(data[i] as u64).as_str());
        assert(i == 0 ==> before + now.last() =~= now.last());
        i = i + 1;
    }
    assert(all.take(i as int) =~= all);
    t
}

fn show_qids(qids: &Vec<Qid>) -> (t: String)
    ensures
        t@ == comma_joined(qid_texts(qids@)),
{
    let ghost all = qid_texts(qids@);
    let mut t = "".to_owned();
    let mut i: usize = 0;
    assert(all.take(0).len() == 0);
    proof {
        reveal_strlit("");
    }
    while i < qids.len()
        invariant
            i <= qids@.len(),
            all == qid_texts(qids@),
            t@ == comma_joined(all.take(i as int)),
            ""@.len() == 0,
        decreases qids@.len() - i,
    {
        let ghost now = all.take(i + 1);
        assert(now.drop_last() =~= all.take(i as int));
        assert(now.last() == qid_text(qids@[i as int]));
        if i > 0 {
            t.append(", ");
        }
        let ghost before = t@;
        t.append(show_qid(qids[i]).as_str());
        assert(i == 0 ==> before + now.last() =~= now.last());
        i = i + 1;
    }
    assert(all.take(i as int) =~= all);
    t
}

fn start(name: &str, tag: Tag) -> (t: String)
    ensures
        t@ == head(name@, tag),
{
    let mut t = name.to_owned();
    label(&mut t, " { tag: Tag(", tag.0 as u64);
    t.append(")");
    t
}

/// A reply in words.
pub fn show_reply(m: &RMessage) -> (t: String)
    ensures
        t@ == reply_text(m@),
{
    match m {
        RMessage::Lerror { tag, ecode } => {
            let mut t = start("Lerror", *tag);
            label(&mut t, ", ecode: ", *ecode as u64);
            t.append(" }");
            t
        },
        RMessage::Version { tag, msize, version } => {
            let mut t = start("Version", *tag);
            label(&mut t, ", msize: ", *msize as u64);
            t.append(", version: ");
            t.append(quote(version.as_str()).as_str());
            t.append(" }");
            t
        },
        RMessage::Attach { tag, qid } => {
            let mut t = start("Attach", *tag);
            t.append(", qid: ");
            t.append(show_qid(*qid).as_str());
            t.append(" }");
            t
        },
        RMessage::Flush { tag } => {
            let mut t = start("Flush", *tag);
            t.append(" }");
            t
        },
        RMessage::Walk { tag, wqids } => {
            let mut t = start("Walk", *tag);
            t.append(", wqids: [");
            t.append(show_qids(wqids).as_str());
            t.append("] }");
            t
        },
        RMessage::Lopen { tag, qid, iounit } => {
            let mut t = start("Lopen", *tag);
            t.append(", qid: ");
            t.append(show_qid(*qid).as_str());
            label(&mut t, ", iounit: ", *iounit as u64);
            t.append(" }");
            t
        },
        RMessage::Readlink { tag, target } => {
            let mut t = start("Readlink", *tag);
            t.append(", target: ");
            t.append(quote(target.as_str()).as_str());
            t.append(" }");
            t
        },
        RMessage::Getattr { tag, valid, stat } => {
            let mut t = start("Getattr", *tag);
            label(&mut t, ", valid: ", *valid);
            t.append(", stat: ");
            t.append(show_stat(*stat).as_str());
            t.append(" }");
            t
        },
        RMessage::Readdir { tag, data } => {
            let mut t = start("Readdir", *tag);
            t.append(", data: [");
            t.append(show_bytes(data).as_str());
            t.append("] }");
            t
        },
        RMessage::Fsync { tag } => {
            let mut t = start("Fsync", *tag);
            t.append(" }");
            t
        },
        RMessage::Read { tag, data } => {
            let mut t = start("Read", *tag);
            t.append(", data: [");
            t.append(show_bytes(data).as_str());
            t.append("] }");
            t
        },
        RMessage::Clunk { tag } => {
            let mut t = start("Clunk", *tag);
            t.append(" }");
            t
        },
    }
}

} // verus!

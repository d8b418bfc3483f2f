//! 9P2000.L primitive types reused across message encodings.
use vstd::prelude::*;

verus! {

/// File identifier: the opaque handle exchanged between client and server.
#[derive(Copy, Clone, Debug, PartialEq, Eq, Hash, Structural)]
pub struct Fid(pub u32);

/// Message tag: pairs T and R messages.
#[derive(Copy, Clone, Debug, PartialEq, Eq, Hash, Structural)]
pub struct Tag(pub u16);

/// A 13-byte server-side identity for a file. `path` is the stable id used by
/// clients to detect aliases.
#[derive(Copy, Clone, Debug, PartialEq, Eq, Structural)]
pub struct Qid {
    /// Qid type bitfield (file/dir/append/excl/auth/tmp/etc.).
    pub type_: u8,
    pub version: u32,
    pub path: u64,
}

impl Qid {
    pub const TYPE_FILE: u8 = 0x00;

    pub const TYPE_DIR: u8 = 0x80;

    pub const TYPE_SYMLINK: u8 = 0x02;
}

impl Default for Qid {
    fn default() -> (q: Self)
        ensures
            q == (Qid { type_: 0, version: 0, path: 0 }),
    {
        Qid { type_: 0, version: 0, path: 0 }
    }
}

/// Single directory-entry record emitted by `Rreaddir`.
#[derive(Clone, Debug, PartialEq, Eq)]
pub struct DirEntry {
    pub qid: Qid,
    /// Cookie the client passes back on the next `Treaddir` to resume.
    pub offset: u64,
    /// Linux DT_* type code (DT_DIR=4, DT_REG=8, DT_LNK=10, ...).
    pub ty: u8,
    pub name: String,
}

/// What a [`DirEntry`] says.
pub struct DirEntryView {
    pub qid: Qid,
    pub offset: u64,
    pub ty: u8,
    pub name: Seq<char>,
}

impl View for DirEntry {
    type V = DirEntryView;

    open spec fn view(&self) -> DirEntryView {
        DirEntryView { qid: self.qid, offset: self.offset, ty: self.ty, name: self.name@ }
    }
}

/// Subset of the 9P2000.L getattr response the server emits: it fills in
/// mode/uid/gid/size/atime/mtime/ctime; the rest are zeroed.
#[derive(Copy, Clone, Debug, PartialEq, Eq, Structural)]
pub struct Stat {
    pub qid: Qid,
    pub mode: u32,
    pub uid: u32,
    pub gid: u32,
    pub nlink: u64,
    pub rdev: u64,
    pub size: u64,
    pub blksize: u64,
    pub blocks: u64,
    pub atime_sec: u64,
    pub atime_nsec: u64,
    pub mtime_sec: u64,
    pub mtime_nsec: u64,
    pub ctime_sec: u64,
    pub ctime_nsec: u64,
    pub btime_sec: u64,
    pub btime_nsec: u64,
    pub gen: u64,
    pub data_version: u64,
}

/// The `Stat` with every field zero.
pub open spec fn zero_stat() -> Stat {
    Stat {
        qid: Qid { type_: 0, version: 0, path: 0 },
        mode: 0,
        uid: 0,
        gid: 0,
        nlink: 0,
        rdev: 0,
        size: 0,
        blksize: 0,
        blocks: 0,
        atime_sec: 0,
        atime_nsec: 0,
        mtime_sec: 0,
        mtime_nsec: 0,
        ctime_sec: 0,
        ctime_nsec: 0,
        btime_sec: 0,
        btime_nsec: 0,
        gen: 0,
        data_version: 0,
    }
}

impl Default for Stat {
    fn default() -> (s: Self)
        ensures
            s == zero_stat(),
    {
        Stat {
            qid: Qid { type_: 0, version: 0, path: 0 },
            mode: 0,
            uid: 0,
            gid: 0,
            nlink: 0,
            rdev: 0,
            size: 0,
            blksize: 0,
            blocks: 0,
            atime_sec: 0,
            atime_nsec: 0,
            mtime_sec: 0,
            mtime_nsec: 0,
            ctime_sec: 0,
            ctime_nsec: 0,
            btime_sec: 0,
            btime_nsec: 0,
            gen: 0,
            data_version: 0,
        }
    }
}

} // verus!

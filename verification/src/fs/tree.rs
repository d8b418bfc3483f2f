//! The tree abstraction the server walks. The synthetic `/dev /svc /node` tree
//! and the small in-memory trees below plug in here.
//!
//! Nodes are opaque `u64` ids the tree's owner assigns. Path 0 is the root;
//! other ids are allocated however the tree wants.
use crate::bytes::utf8_text;
use crate::fs::errno::{EISDIR, ENOENT, ENOTDIR};
use crate::fs::types::{zero_stat, DirEntry, DirEntryView, Qid, Stat};
use crate::text::text_eq;
use vstd::prelude::*;
use vstd::slice::slice_subrange;
use vstd::slice::slice_to_vec;
use vstd::utf8::{decode_utf8, encode_utf8, valid_utf8};

verus! {

pub type NodeId = u64;

pub const ROOT_NODE: NodeId = 0;

/// What a list of directory entries says.
pub open spec fn entries_view(v: Seq<DirEntry>) -> Seq<DirEntryView> {
    Seq::new(v.len(), |i: int| v[i]@)
}

/// Whether what was returned is the bytes, or the errno, that is expected.
pub open spec fn gives_bytes(r: Result<Vec<u8>, u32>, want: Result<Seq<u8>, u32>) -> bool {
    match want {
        Ok(d) => r is Ok && r->Ok_0@ == d,
        Err(e) => r == Err::<Vec<u8>, u32>(e),
    }
}

/// Whether what was returned is the listing, or the errno, that is expected.
pub open spec fn gives_entries(
    r: Result<Vec<DirEntry>, u32>,
    want: Result<Seq<DirEntryView>, u32>,
) -> bool {
    match want {
        Ok(d) => r is Ok && entries_view(r->Ok_0@) == d,
        Err(e) => r == Err::<Vec<DirEntry>, u32>(e),
    }
}

/// Whether what was returned is the text that is expected.
pub open spec fn gives_text(r: Option<String>, want: Option<Seq<char>>) -> bool {
    match want {
        Some(t) => r is Some && r->Some_0@ == t,
        None => r is None,
    }
}

/// A read-only tree of files. Each operation has a specification function that
/// says what the tree holds.
pub trait Tree {
    /// The node named `name` directly under `parent`.
    spec fn child(&self, parent: NodeId, name: Seq<char>) -> Option<NodeId>;

    /// The identity of `node`.
    spec fn identity(&self, node: NodeId) -> Option<Qid>;

    /// The attributes of `node`.
    spec fn attributes(&self, node: NodeId) -> Option<Stat>;

    /// The at most `count` bytes of `node` from `offset` on.
    spec fn content(&self, node: NodeId, offset: u64, count: u32) -> Result<Seq<u8>, u32>;

    /// The entries of `node` from the cookie `offset` on.
    spec fn listing(&self, node: NodeId, offset: u64) -> Result<Seq<DirEntryView>, u32>;

    /// Where the symlink `node` points.
    spec fn link(&self, node: NodeId) -> Option<Seq<char>>;

    /// Whether `node` is a directory.
    spec fn directory(&self, node: NodeId) -> bool;

    /// Look up `name` directly under `parent`. `None` if not found: the server
    /// maps that to `ENOENT`.
    fn walk_one(&self, parent: NodeId, name: &str) -> (r: Option<NodeId>)
        ensures
            r == self.child(parent, name@),
    ;

    /// `Qid` for `node`. Every node has a stable qid for the lifetime of the
    /// server.
    fn qid(&self, node: NodeId) -> (r: Option<Qid>)
        ensures
            r == self.identity(node),
    ;

    /// Full stat. The server emits this in Rgetattr.
    fn stat(&self, node: NodeId) -> (r: Option<Stat>)
        ensures
            r == self.attributes(node),
    ;

    /// Read `count` bytes starting at `offset`. Empty at EOF; never errors on
    /// "past EOF": it just returns 0 bytes.
    fn read(&self, node: NodeId, offset: u64, count: u32) -> (r: Result<Vec<u8>, u32>)
        ensures
            gives_bytes(r, self.content(node, offset, count)),
    ;

    /// Directory entries starting at the offset cookie. Each
    /// `DirEntry.offset` is the cookie the client passes back to resume.
    fn readdir(&self, node: NodeId, offset: u64) -> (r: Result<Vec<DirEntry>, u32>)
        ensures
            gives_entries(r, self.listing(node, offset)),
    ;

    /// `readlink` target string. `None` if the node isn't a symlink.
    fn readlink(&self, node: NodeId) -> (r: Option<String>)
        ensures
            gives_text(r, self.link(node)),
    ;

    /// True if the node is a directory. The server consults this to emit
    /// ENOTDIR / EISDIR.
    fn is_dir(&self, node: NodeId) -> (r: bool)
        ensures
            r == self.directory(node),
    ;
}

/// The at most `count` bytes of `content` from `offset` on; none past the end.
pub open spec fn window(content: Seq<u8>, offset: u64, count: u32) -> Seq<u8> {
    if offset >= content.len() {
        Seq::empty()
    } else if offset + count >= content.len() {
        content.skip(offset as int)
    } else {
        content.subrange(offset as int, offset + count)
    }
}

/// Reading on where a read ended gives what one longer read gives, and past the
/// end there is nothing.
pub proof fn law_read_on(content: Seq<u8>, offset: u64, first: u32, more: u32)
    requires
        offset + first <= u64::MAX,
        first + more <= u32::MAX,
    ensures
        window(content, offset, first) + window(content, (offset + first) as u64, more) == window(
            content,
            offset,
            (first + more) as u32,
        ),
        offset >= content.len() ==> window(content, offset, first).len() == 0,
{
    assert(window(content, offset, first) + window(content, (offset + first) as u64, more)
        =~= window(content, offset, (first + more) as u32));
}

/// A window on a file's content.
pub fn read_window(content: &Vec<u8>, offset: u64, count: u32) -> (r: Vec<u8>)
    ensures
        r@ == window(content@, offset, count),
{
    let len: usize = content.len();
    if offset >= len as u64 {
        return Vec::new();
    }
    let off: usize = offset as usize;
    let left: usize = len - off;
    let n: usize = if (count as u64) < left as u64 {
        count as usize
    } else {
        left
    };
    let r = slice_to_vec(slice_subrange(content.as_slice(), off, off + n));
    assert(r@ =~= window(content@, offset, count));
    r
}

/// Trivial empty tree: only the root, with no children.
pub struct EmptyTree;

/// The stat of a read-only directory.
pub open spec fn dir_stat(qid: Qid) -> Stat {
    Stat { qid, mode: 0o040555, ..zero_stat() }
}

impl Tree for EmptyTree {
    open spec fn child(&self, parent: NodeId, name: Seq<char>) -> Option<NodeId> {
        None
    }

    open spec fn identity(&self, node: NodeId) -> Option<Qid> {
        if node == ROOT_NODE {
            Some(Qid { type_: Qid::TYPE_DIR, version: 0, path: ROOT_NODE })
        } else {
            None
        }
    }

    open spec fn attributes(&self, node: NodeId) -> Option<Stat> {
        if node == ROOT_NODE {
            Some(dir_stat(Qid { type_: Qid::TYPE_DIR, version: 0, path: ROOT_NODE }))
        } else {
            None
        }
    }

    open spec fn content(&self, node: NodeId, offset: u64, count: u32) -> Result<Seq<u8>, u32> {
        Err(EISDIR)
    }

    open spec fn listing(&self, node: NodeId, offset: u64) -> Result<Seq<DirEntryView>, u32> {
        if node == ROOT_NODE {
            Ok(Seq::empty())
        } else {
            Err(ENOENT)
        }
    }

    open spec fn link(&self, node: NodeId) -> Option<Seq<char>> {
        None
    }

    open spec fn directory(&self, node: NodeId) -> bool {
        node == ROOT_NODE
    }

    fn walk_one(&self, _parent: NodeId, _name: &str) -> (r: Option<NodeId>) {
        None
    }

    fn qid(&self, node: NodeId) -> (r: Option<Qid>) {
        if node == ROOT_NODE {
            Some(Qid { type_: Qid::TYPE_DIR, version: 0, path: ROOT_NODE })
        } else {
            None
        }
    }

    fn stat(&self, node: NodeId) -> (r: Option<Stat>) {
        if node == ROOT_NODE {
            let qid = Qid { type_: Qid::TYPE_DIR, version: 0, path: ROOT_NODE };
            Some(Stat { qid, mode: 0o040555, ..Stat::default() })
        } else {
            None
        }
    }

    fn read(&self, _node: NodeId, _offset: u64, _count: u32) -> (r: Result<Vec<u8>, u32>) {
        Err(EISDIR)
    }

    fn readdir(&self, node: NodeId, _offset: u64) -> (r: Result<Vec<DirEntry>, u32>) {
        if node == ROOT_NODE {
            let none: Vec<DirEntry> = Vec::new();
            assert(entries_view(none@) =~= Seq::empty());
            Ok(none)
        } else {
            Err(ENOENT)
        }
    }

    fn readlink(&self, _node: NodeId) -> (r: Option<String>) {
        None
    }

    fn is_dir(&self, node: NodeId) -> (r: bool) {
        node == ROOT_NODE
    }
}

/// Small in-memory tree: a root directory and one child, a regular file with
/// the given content or a symlink with the given target.
pub struct StubTree {
    pub child_name: String,
    pub child_content: Vec<u8>,
    pub child_is_symlink: bool,
}

impl StubTree {
    pub const ROOT: NodeId = 0;

    pub const CHILD: NodeId = 1;

    pub fn file(name: &str, content: &[u8]) -> (t: Self)
        ensures
            t.child_name@ == name@,
            t.child_content@ == content@,
            !t.child_is_symlink,
    {
        StubTree {
            child_name: name.to_owned(),
            child_content: slice_to_vec(content),
            child_is_symlink: false,
        }
    }

    pub fn symlink(name: &str, target: &str) -> (t: Self)
        ensures
            t.child_name@ == name@,
            t.child_content@ == encode_utf8(target@),
            t.child_is_symlink,
    {
        StubTree {
            child_name: name.to_owned(),
            child_content: slice_to_vec(target.as_bytes()),
            child_is_symlink: true,
        }
    }
}

impl Tree for StubTree {
    open spec fn child(&self, parent: NodeId, name: Seq<char>) -> Option<NodeId> {
        if parent == Self::ROOT && name == self.child_name@ {
            Some(Self::CHILD)
        } else {
            None
        }
    }

    open spec fn identity(&self, node: NodeId) -> Option<Qid> {
        if node == Self::ROOT {
            Some(Qid { type_: Qid::TYPE_DIR, version: 0, path: 0 })
        } else if node == Self::CHILD {
            let type_ = if self.child_is_symlink {
                Qid::TYPE_SYMLINK
            } else {
                Qid::TYPE_FILE
            };
            Some(Qid { type_, version: 0, path: 1 })
        } else {
            None
        }
    }

    open spec fn attributes(&self, node: NodeId) -> Option<Stat> {
        if node == Self::ROOT {
            Some(dir_stat(Qid { type_: Qid::TYPE_DIR, version: 0, path: 0 }))
        } else if node == Self::CHILD {
            let mode = if self.child_is_symlink {
                0o120777
            } else {
                0o100444
            };
            Some(
                Stat {
                    qid: self.identity(node)->Some_0,
                    mode,
                    size: self.child_content@.len() as u64,
                    ..zero_stat()
                },
            )
        } else {
            None
        }
    }

    open spec fn content(&self, node: NodeId, offset: u64, count: u32) -> Result<Seq<u8>, u32> {
        if node == Self::ROOT {
            Err(EISDIR)
        } else if node != Self::CHILD {
            Err(ENOENT)
        } else {
            Ok(window(self.child_content@, offset, count))
        }
    }

    open spec fn listing(&self, node: NodeId, offset: u64) -> Result<Seq<DirEntryView>, u32> {
        if node != Self::ROOT {
            Err(ENOTDIR)
        } else if offset > 0 {
            Ok(Seq::empty())
        } else {
            Ok(
                seq![
                    DirEntryView {
                        qid: self.identity(Self::CHILD)->Some_0,
                        offset: 1,
                        ty: if self.child_is_symlink {
                            10
                        } else {
                            8
                        },
                        name: self.child_name@,
                    },
                ],
            )
        }
    }

    open spec fn link(&self, node: NodeId) -> Option<Seq<char>> {
        if node == Self::CHILD && self.child_is_symlink && valid_utf8(self.child_content@) {
            Some(decode_utf8(self.child_content@))
        } else {
            None
        }
    }

    open spec fn directory(&self, node: NodeId) -> bool {
        node == Self::ROOT
    }

    fn walk_one(&self, parent: NodeId, name: &str) -> (r: Option<NodeId>) {
        if parent == Self::ROOT && text_eq(name, self.child_name.as_str()) {
            Some(Self::CHILD)
        } else {
            None
        }
    }

    fn qid(&self, node: NodeId) -> (r: Option<Qid>) {
        if node == Self::ROOT {
            Some(Qid { type_: Qid::TYPE_DIR, version: 0, path: 0 })
        } else if node == Self::CHILD {
            let type_: u8 = if self.child_is_symlink {
                Qid::TYPE_SYMLINK
            } else {
                Qid::TYPE_FILE
            };
            Some(Qid { type_, version: 0, path: 1 })
        } else {
            None
        }
    }

    fn stat(&self, node: NodeId) -> (r: Option<Stat>) {
        let qid = match self.qid(node) {
            Some(q) => q,
            None => {
                return None;
            },
        };
        if node == Self::ROOT {
            Some(Stat { qid, mode: 0o040555, ..Stat::default() })
        } else {
            let mode: u32 = if self.child_is_symlink {
                0o120777
            } else {
                0o100444
            };
            Some(Stat { qid, mode, size: self.child_content.len() as u64, ..Stat::default() })
        }
    }

    fn read(&self, node: NodeId, offset: u64, count: u32) -> (r: Result<Vec<u8>, u32>) {
        if node == Self::ROOT {
            return Err(EISDIR);
        }
        if node != Self::CHILD {
            return Err(ENOENT);
        }
        Ok(read_window(&self.child_content, offset, count))
    }

    fn readdir(&self, node: NodeId, offset: u64) -> (r: Result<Vec<DirEntry>, u32>) {
        if node != Self::ROOT {
            return Err(ENOTDIR);
        }
        let mut entries: Vec<DirEntry> = Vec::new();
        if offset == 0 {
            let type_: u8 = if self.child_is_symlink {
                Qid::TYPE_SYMLINK
            } else {
                Qid::TYPE_FILE
            };
            entries.push(
                DirEntry {
                    qid: Qid { type_, version: 0, path: 1 },
                    offset: 1,
                    ty: if self.child_is_symlink {
                        10
                    } else {
                        8
                    },
                    name: self.child_name.clone(),
                },
            );
        }
        assert(entries_view(entries@) =~= self.listing(node, offset)->Ok_0);
        Ok(entries)
    }

    fn readlink(&self, node: NodeId) -> (r: Option<String>) {
        if node == Self::CHILD && self.child_is_symlink {
            utf8_text(self.child_content.as_slice())
        } else {
            None
        }
    }

    fn is_dir(&self, node: NodeId) -> (r: bool) {
        node == Self::ROOT
    }
}

} // verus!

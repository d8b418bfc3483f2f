//! Synthetic file tree behind the 9P server: the node's hardware and the
//! cluster's services as files. Static fields (vendor, VRAM total) are stable
//! across reads; dynamic ones (`/dev/gpu/<i>/in_use`, `vram_free_mb`) say what
//! holds at the time of the read.
//!
//! - `/node`: the local node id in hex
//! - `/dev/gpu/<i>/{vendor, device, vram_total_mb, vram_free_mb, in_use}`
//! - `/svc/<name>`: symlink whose target lists the service's mailboxes
use crate::ad::schema::GpuInfoView;
use crate::ad::store::AdStore;
use crate::cap::broker::{CapBroker, Caps, DeviceKind};
use crate::fs::errno::{EISDIR, ENOENT, ENOTDIR};
use crate::fs::path::{DEV_DIR, DEV_GPU_DIR, GPU_BASE, NODE_FILE, SVC_BASE, SVC_DIR};
use crate::fs::tree::{
    entries_view, gives_text, read_window, window, NodeId as TreeNodeId, Tree, ROOT_NODE,
};
use crate::fs::types::{zero_stat, DirEntry, DirEntryView, Qid, Stat};
use crate::ident::{MboxId, NetId, NodeId};
use crate::order::{sort_named, sorted, views, Named};
use crate::render::{dec, dec_text, hex, hex_text};
use crate::scan::{parse_uint, uint};
use crate::text::{chars_of, text_eq};
use vstd::prelude::*;
use vstd::string::StringExecFns;
use vstd::utf8::encode_utf8;

verus! {

/// A service and the mailboxes that offer it.
#[derive(Debug, PartialEq, Eq)]
pub struct Service {
    pub name: String,
    pub net_ids: Vec<NetId>,
}

/// What a [`Service`] says.
pub struct ServiceView {
    pub name: Seq<char>,
    pub net_ids: Seq<NetId>,
}

impl View for Service {
    type V = ServiceView;

    open spec fn view(&self) -> ServiceView {
        ServiceView { name: self.name@, net_ids: self.net_ids@ }
    }
}

/// Everything the tree exposes: who the node is, its ads, who holds which of
/// its devices, and the live services.
pub struct NodeView {
    pub node_id: NodeId,
    pub ad: AdStore,
    pub caps: CapBroker,
    pub services: Vec<Service>,
}

impl NodeView {
    pub fn new(node_id: NodeId, ad: AdStore, caps: CapBroker) -> (v: Self)
        ensures
            v.node_id == node_id,
            v.ad == ad,
            v.caps == caps,
            v.services@ == Seq::<Service>::empty(),
    {
        NodeView { node_id, ad, caps, services: Vec::new() }
    }

    /// The node's GPUs.
    pub open spec fn gpus(&self) -> Seq<GpuInfoView> {
        self.ad@.own.gpus
    }
}

/// Tree backed by a `NodeView`.
pub struct SyntheticTree {
    pub view: NodeView,
}

/// The number modulo 2^64.
pub open spec fn low64(n: int) -> u64 {
    (n % 0x1_0000_0000_0000_0000) as u64
}

/// The id of a GPU's field, or with field 15 of the GPU's directory.
pub open spec fn gpu_path(index: int, field: int) -> u64 {
    low64(GPU_BASE + index * 16 + field)
}

/// The id of a service's symlink.
pub open spec fn svc_path(index: int) -> u64 {
    low64(SVC_BASE + index)
}

fn gpu_node(index: u64, field: u64) -> (p: u64)
    ensures
        p == gpu_path(index as int, field as int),
{
    ((GPU_BASE as u128 + index as u128 * 16 + field as u128) % 0x1_0000_0000_0000_0000) as u64
}

fn svc_node(index: u64) -> (p: u64)
    ensures
        p == svc_path(index as int),
{
    ((SVC_BASE as u128 + index as u128) % 0x1_0000_0000_0000_0000) as u64
}

/// Whether the id is in the GPU bucket.
pub open spec fn in_gpu_bucket(n: u64) -> bool {
    GPU_BASE <= n < SVC_BASE
}

/// The GPU that an id of the bucket is about.
pub open spec fn gpu_of(n: u64) -> int {
    (n - GPU_BASE) / 16
}

/// The field that an id of the bucket is about.
pub open spec fn field_of(n: u64) -> int {
    (n - GPU_BASE) % 16
}

/// The names of the field files.
pub open spec fn field_name(field: int) -> Seq<char> {
    if field == 0 {
        "vendor"@
    } else if field == 1 {
        "device"@
    } else if field == 2 {
        "vram_total_mb"@
    } else if field == 3 {
        "vram_free_mb"@
    } else {
        "in_use"@
    }
}

/// The field with the name.
pub open spec fn field_named(name: Seq<char>) -> Option<u64> {
    if name == "vendor"@ {
        Some(0)
    } else if name == "device"@ {
        Some(1)
    } else if name == "vram_total_mb"@ {
        Some(2)
    } else if name == "vram_free_mb"@ {
        Some(3)
    } else if name == "in_use"@ {
        Some(4)
    } else {
        None
    }
}

fn gpu_field_idx(name: &str) -> (r: Option<u64>)
    ensures
        r == field_named(name@),
{
    if text_eq(name, "vendor") {
        Some(0)
    } else if text_eq(name, "device") {
        Some(1)
    } else if text_eq(name, "vram_total_mb") {
        Some(2)
    } else if text_eq(name, "vram_free_mb") {
        Some(3)
    } else if text_eq(name, "in_use") {
        Some(4)
    } else {
        None
    }
}

fn gpu_field_name(field: u64) -> (s: String)
    ensures
        s@ == field_name(field as int),
{
    if field == 0 {
        "vendor".to_owned()
    } else if field == 1 {
        "device".to_owned()
    } else if field == 2 {
        "vram_total_mb".to_owned()
    } else if field == 3 {
        "vram_free_mb".to_owned()
    } else {
        "in_use".to_owned()
    }
}

/// Who holds the GPU: the holder of the oldest cap for it.
pub open spec fn gpu_holder(caps: Caps, index: u32) -> Option<MboxId>
    decreases caps.len(),
{
    if caps.len() == 0 {
        None
    } else if caps[0].kind == DeviceKind::GpuMinor(index) {
        Some(caps[0].holder)
    } else {
        gpu_holder(caps.skip(1), index)
    }
}

/// What `in_use` reads: `0`, or `1` and the holder.
pub open spec fn in_use_text(caps: Caps, index: u32) -> Seq<char> {
    match gpu_holder(caps, index) {
        Some(m) => "1 mbox="@ + dec(m.0 as nat) + "\n"@,
        None => "0\n"@,
    }
}

/// What a field file of a GPU reads.
pub open spec fn field_text(g: GpuInfoView, caps: Caps, index: u32, field: int) -> Option<
    Seq<char>,
> {
    if field == 0 {
        Some("0x"@ + hex(g.pci_vendor as nat, 4) + "\n"@)
    } else if field == 1 {
        Some("0x"@ + hex(g.pci_device as nat, 4) + "\n"@)
    } else if field == 2 {
        Some(dec(g.vram_total_mb as nat) + "\n"@)
    } else if field == 3 {
        Some(dec(g.vram_free_mb as nat) + "\n"@)
    } else if field == 4 {
        Some(in_use_text(caps, index))
    } else {
        None
    }
}

/// What `/node` reads: the id's sixteen bytes in hex.
pub open spec fn node_text(id: NodeId) -> Seq<char> {
    hex(id.0 as nat, 32) + "\n"@
}

/// One line of a service link: where one of its mailboxes is.
pub open spec fn net_line(id: NetId) -> Seq<char> {
    "node="@ + hex(id.node.0 as nat, 32) + " mbox="@ + dec(id.mbox.0 as nat) + "\n"@
}

/// The target of a service link.
pub open spec fn link_text(ids: Seq<NetId>) -> Seq<char>
    decreases ids.len(),
{
    if ids.len() == 0 {
        Seq::empty()
    } else {
        link_text(ids.drop_last()) + net_line(ids.last())
    }
}

/// The position of the first service with the name.
pub open spec fn service_at(services: Seq<Service>, name: Seq<char>) -> Option<int>
    decreases services.len(),
{
    if services.len() == 0 {
        None
    } else if services[0].name@ == name {
        Some(0)
    } else {
        match service_at(services.skip(1), name) {
            Some(i) => Some(i + 1),
            None => None,
        }
    }
}

/// A directory entry that has no cookie yet.
pub struct Row {
    pub qid: Qid,
    pub ty: u8,
    pub name: String,
}

/// What a [`Row`] says.
pub struct RowView {
    pub qid: Qid,
    pub ty: u8,
    pub name: Seq<char>,
}

impl View for Row {
    type V = RowView;

    open spec fn view(&self) -> RowView {
        RowView { qid: self.qid, ty: self.ty, name: self.name@ }
    }
}

impl Named for Row {
    open spec fn name_of(v: RowView) -> Seq<char> {
        v.name
    }

    fn name(&self) -> (r: &str) {
        self.name.as_str()
    }
}

/// A row for a directory.
pub open spec fn dir_row(path: u64, name: Seq<char>) -> RowView {
    RowView { qid: Qid { type_: Qid::TYPE_DIR, version: 0, path }, ty: 4, name }
}

/// A row for a file.
pub open spec fn file_row(path: u64, name: Seq<char>) -> RowView {
    RowView { qid: Qid { type_: Qid::TYPE_FILE, version: 0, path }, ty: 8, name }
}

/// A row for a symlink.
pub open spec fn link_row(path: u64, name: Seq<char>) -> RowView {
    RowView { qid: Qid { type_: Qid::TYPE_SYMLINK, version: 0, path }, ty: 10, name }
}

/// What a directory holds, before sorting.
pub open spec fn rows_of(v: NodeView, n: u64) -> Option<Seq<RowView>> {
    if n == ROOT_NODE {
        Some(
            seq![dir_row(DEV_DIR, "dev"@), file_row(NODE_FILE, "node"@), dir_row(SVC_DIR, "svc"@)],
        )
    } else if n == DEV_DIR {
        Some(seq![dir_row(DEV_GPU_DIR, "gpu"@)])
    } else if n == DEV_GPU_DIR {
        Some(Seq::new(v.gpus().len(), |i: int| dir_row(gpu_path(i, 15), dec(i as nat))))
    } else if in_gpu_bucket(n) && field_of(n) == 15 {
        Some(Seq::new(5, |f: int| file_row(gpu_path(gpu_of(n), f), field_name(f))))
    } else if n == SVC_DIR {
        Some(Seq::new(v.services@.len(), |i: int| link_row(svc_path(i), v.services@[i].name@)))
    } else {
        None
    }
}

/// The sorted rows as directory entries: each one's cookie says how many come
/// up to it.
pub open spec fn numbered(rows: Seq<RowView>) -> Seq<DirEntryView> {
    Seq::new(
        rows.len(),
        |i: int|
            DirEntryView {
                qid: rows[i].qid,
                offset: low64(i + 1),
                ty: rows[i].ty,
                name: rows[i].name,
            },
    )
}

/// The entries after the one with the cookie; all of them for cookie zero.
pub open spec fn from_cookie(es: Seq<DirEntryView>, offset: u64) -> Seq<DirEntryView> {
    es.skip(
        if offset < es.len() {
            offset as int
        } else {
            es.len() as int
        },
    )
}

impl SyntheticTree {
    pub fn new(view: NodeView) -> (t: Self)
        ensures
            t.view == view,
    {
        SyntheticTree { view }
    }

    /// The text of a GPU's field file, if there is such a GPU and field.
    pub open spec fn gpu_text(&self, n: u64) -> Option<Seq<char>> {
        if gpu_of(n) < self.view.gpus().len() {
            field_text(
                self.view.gpus()[gpu_of(n)],
                self.view.caps.caps@,
                gpu_of(n) as u32,
                field_of(n),
            )
        } else {
            None
        }
    }

    fn gpu_count(&self) -> (n: u64)
        ensures
            n as nat == self.view.gpus().len(),
    {
        self.view.ad.own.gpus.len() as u64
    }

    /// What `in_use` reads right now.
    fn render_in_use(&self, gpu_index: u32) -> (s: String)
        ensures
            s@ == in_use_text(self.view.caps.caps@, gpu_index),
    {
        let snaps = self.view.caps.snapshot();
        let ghost caps = self.view.caps.caps@;
        let mut i: usize = 0;
        assert(caps.skip(0) =~= caps);
        while i < snaps.len()
            invariant
                i <= snaps@.len() == caps.len(),
                caps == self.view.caps.caps@,
                forall|k: int|
                    0 <= k < caps.len() ==> (#[trigger] snaps@[k]).kind == caps[k].kind
                        && snaps@[k].holder == caps[k].holder,
                gpu_holder(caps, gpu_index) == gpu_holder(caps.skip(i as int), gpu_index),
            decreases snaps@.len() - i,
        {
            let snap = snaps[i];
            assert(caps.skip(i as int)[0] == caps[i as int]);
            assert(caps.skip(i as int).skip(1) =~= caps.skip(i + 1));
            if let DeviceKind::GpuMinor(idx) = snap.kind {
                if idx == gpu_index {
                    let mut s = "1 mbox=".to_owned();
                    s.append(dec_text(snap.holder.0).as_str());
                    s.append("\n");
                    return s;
                }
            }
            i = i + 1;
        }
        "0\n".to_owned()
    }

    /// The text of a field file of a GPU.
    fn gpu_field_content(&self, n: u64) -> (r: Option<String>)
        requires
            in_gpu_bucket(n),
        ensures
            gives_text(r, self.gpu_text(n)),
    {
        let index: u64 = (n - GPU_BASE) / 16;
        let field: u64 = (n - GPU_BASE) % 16;
        if index >= self.gpu_count() {
            return None;
        }
        let gpus = &self.view.ad.own.gpus;
        assert(self.view.gpus()[index as int] == gpus@[index as int]@);
        let gpu = &gpus[index as usize];
        if field == 0 {
            let mut s = "0x".to_owned();
            s.append(hex_text(gpu.pci_vendor as u128, 4).as_str());
            s.append("\n");
            Some(s)
        } else if field == 1 {
            let mut s = "0x".to_owned();
            s.append(hex_text(gpu.pci_device as u128, 4).as_str());
            s.append("\n");
            Some(s)
        } else if field == 2 {
            let mut s = dec_text(gpu.vram_total_mb);
            s.append("\n");
            Some(s)
        } else if field == 3 {
            let mut s = dec_text(gpu.vram_free_mb);
            s.append("\n");
            Some(s)
        } else if field == 4 {
            Some(self.render_in_use(index as u32))
        } else {
            None
        }
    }

    fn find_service(&self, name: &str) -> (r: Option<u64>)
        ensures
            match service_at(self.view.services@, name@) {
                Some(i) => r is Some && r->Some_0 == i && 0 <= i < self.view.services@.len(),
                None => r is None,
            },
    {
        let ghost all = self.view.services@;
        let mut i: usize = 0;
        assert(all.skip(0) =~= all);
        while i < self.view.services.len()
            invariant
                i <= all.len(),
                all == self.view.services@,
                service_at(all, name@) == match service_at(all.skip(i as int), name@) {
                    Some(k) => Some(k + i),
                    None => None,
                },
            decreases all.len() - i,
        {
            assert(all.skip(i as int)[0] == all[i as int]);
            assert(all.skip(i as int).skip(1) =~= all.skip(i + 1));
            if text_eq(self.view.services[i].name.as_str(), name) {
                return Some(i as u64);
            }
            i = i + 1;
        }
        assert(all.skip(i as int).len() == 0);
        None
    }

    /// What a directory holds, before sorting.
    fn rows(&self, n: u64) -> (r: Option<Vec<Row>>)
        ensures
            match rows_of(self.view, n) {
                None => r is None,
                Some(rows) => r is Some && views(r->Some_0@) == rows,
            },
    {
        let mut out: Vec<Row> = Vec::new();
        if n == ROOT_NODE {
            out.push(dir(DEV_DIR, "dev".to_owned()));
            out.push(file(NODE_FILE, "node".to_owned()));
            out.push(dir(SVC_DIR, "svc".to_owned()));
        } else if n == DEV_DIR {
            out.push(dir(DEV_GPU_DIR, "gpu".to_owned()));
        } else if n == DEV_GPU_DIR {
            let count: u64 = self.gpu_count();
            let mut i: u64 = 0;
            while i < count
                invariant
                    i <= count,
                    out@.len() == i,
                    forall|k: int|
                        0 <= k < i ==> #[trigger] out@[k]@ == dir_row(gpu_path(k, 15), dec(k as nat)),
                decreases count - i,
            {
                out.push(dir(gpu_node(i, 15), dec_text(i)));
                i = i + 1;
            }
        } else if GPU_BASE <= n && n < SVC_BASE && (n - GPU_BASE) % 16 == 15 {
            let index: u64 = (n - GPU_BASE) / 16;
            let mut f: u64 = 0;
            while f < 5
                invariant
                    f <= 5,
                    index == gpu_of(n),
                    out@.len() == f,
                    forall|k: int|
                        0 <= k < f ==> #[trigger] out@[k]@ == file_row(
                            gpu_path(gpu_of(n), k),
                            field_name(k),
                        ),
                decreases 5 - f,
            {
                out.push(file(gpu_node(index, f), gpu_field_name(f)));
                f = f + 1;
            }
        } else if n == SVC_DIR {
            let mut i: usize = 0;
            while i < self.view.services.len()
                invariant
                    i <= self.view.services@.len(),
                    out@.len() == i,
                    forall|k: int|
                        0 <= k < i ==> #[trigger] out@[k]@ == link_row(
                            svc_path(k),
                            self.view.services@[k].name@,
                        ),
                decreases self.view.services@.len() - i,
            {
                out.push(link(svc_node(i as u64), self.view.services[i].name.clone()));
                i = i + 1;
            }
        } else {
            return None;
        }
        assert(views(out@) =~= rows_of(self.view, n)->Some_0);
        Some(out)
    }
}

fn dir(path: u64, name: String) -> (r: Row)
    ensures
        r@ == dir_row(path, name@),
{
    Row { qid: Qid { type_: Qid::TYPE_DIR, version: 0, path }, ty: 4, name }
}

fn file(path: u64, name: String) -> (r: Row)
    ensures
        r@ == file_row(path, name@),
{
    Row { qid: Qid { type_: Qid::TYPE_FILE, version: 0, path }, ty: 8, name }
}

fn link(path: u64, name: String) -> (r: Row)
    ensures
        r@ == link_row(path, name@),
{
    Row { qid: Qid { type_: Qid::TYPE_SYMLINK, version: 0, path }, ty: 10, name }
}

/// Gives the rows their cookies and leaves out the first `from`.
fn number(rows: Vec<Row>, from: usize) -> (r: Vec<DirEntry>)
    requires
        from <= rows@.len(),
    ensures
        entries_view(r@) == numbered(views(rows@)).skip(from as int),
{
    let ghost all = views(rows@);
    let mut out: Vec<DirEntry> = Vec::new();
    let mut i: usize = from;
    while i < rows.len()
        invariant
            from <= i <= rows@.len(),
            all == views(rows@),
            out@.len() == i - from,
            forall|k: int| 0 <= k < i - from ==> #[trigger] out@[k]@ == numbered(all)[from + k],
        decreases rows@.len() - i,
    {
        assert(all[i as int] == rows@[i as int]@);
        let offset: u64 = ((i as u128 + 1) % 0x1_0000_0000_0000_0000) as u64;
        out.push(
            DirEntry { qid: rows[i].qid, offset, ty: rows[i].ty, name: rows[i].name.clone() },
        );
        i = i + 1;
    }
    assert(entries_view(out@) =~= numbered(all).skip(from as int));
    out
}

impl Tree for SyntheticTree {
    open spec fn child(&self, parent: TreeNodeId, name: Seq<char>) -> Option<TreeNodeId> {
        if parent == ROOT_NODE {
            if name == "node"@ {
                Some(NODE_FILE)
            } else if name == "dev"@ {
                Some(DEV_DIR)
            } else if name == "svc"@ {
                Some(SVC_DIR)
            } else {
                None
            }
        } else if parent == DEV_DIR {
            if name == "gpu"@ {
                Some(DEV_GPU_DIR)
            } else {
                None
            }
        } else if parent == DEV_GPU_DIR {
            match uint(name, 10, u64::MAX as nat) {
                Some(i) => if i < self.view.gpus().len() {
                    Some(gpu_path(i as int, 15))
                } else {
                    None
                },
                None => None,
            }
        } else if in_gpu_bucket(parent) && field_of(parent) == 15 {
            match field_named(name) {
                Some(f) => Some(gpu_path(gpu_of(parent), f as int)),
                None => None,
            }
        } else if parent == SVC_DIR {
            match service_at(self.view.services@, name) {
                Some(i) => Some(svc_path(i)),
                None => None,
            }
        } else {
            None
        }
    }

    open spec fn identity(&self, node: TreeNodeId) -> Option<Qid> {
        if node == ROOT_NODE || node == DEV_DIR || node == DEV_GPU_DIR || node == SVC_DIR {
            Some(Qid { type_: Qid::TYPE_DIR, version: 0, path: node })
        } else if node == NODE_FILE {
            Some(Qid { type_: Qid::TYPE_FILE, version: 0, path: node })
        } else if in_gpu_bucket(node) {
            let type_ = if field_of(node) == 15 {
                Qid::TYPE_DIR
            } else {
                Qid::TYPE_FILE
            };
            Some(Qid { type_, version: 0, path: node })
        } else if node >= SVC_BASE {
            Some(Qid { type_: Qid::TYPE_SYMLINK, version: 0, path: node })
        } else {
            None
        }
    }

    open spec fn attributes(&self, node: TreeNodeId) -> Option<Stat> {
        match self.identity(node) {
            None => None,
            Some(qid) => {
                let mode: u32 = if qid.type_ == Qid::TYPE_DIR {
                    0o040555
                } else if qid.type_ == Qid::TYPE_SYMLINK {
                    0o120777
                } else {
                    0o100444
                };
                let size: nat = if node == NODE_FILE {
                    33
                } else if in_gpu_bucket(node) {
                    match self.gpu_text(node) {
                        Some(t) => encode_utf8(t).len(),
                        None => 0,
                    }
                } else if node >= SVC_BASE {
                    match self.link(node) {
                        Some(t) => encode_utf8(t).len(),
                        None => 0,
                    }
                } else {
                    0
                };
                Some(Stat { qid, mode, nlink: 1, size: size as u64, ..zero_stat() })
            },
        }
    }

    open spec fn content(&self, node: TreeNodeId, offset: u64, count: u32) -> Result<
        Seq<u8>,
        u32,
    > {
        if node == NODE_FILE {
            Ok(window(encode_utf8(node_text(self.view.node_id)), offset, count))
        } else if in_gpu_bucket(node) && field_of(node) != 15 {
            match self.gpu_text(node) {
                Some(t) => Ok(window(encode_utf8(t), offset, count)),
                None => Err(ENOENT),
            }
        } else {
            Err(EISDIR)
        }
    }

    open spec fn listing(&self, node: TreeNodeId, offset: u64) -> Result<Seq<DirEntryView>, u32> {
        match rows_of(self.view, node) {
            None => if offset > 0 {
                Ok(Seq::empty())
            } else {
                Err(ENOTDIR)
            },
            Some(rows) => Ok(from_cookie(numbered(sorted::<Row>(rows)), offset)),
        }
    }

    open spec fn link(&self, node: TreeNodeId) -> Option<Seq<char>> {
        if node >= SVC_BASE && node - SVC_BASE < self.view.services@.len() {
            Some(link_text(self.view.services@[node - SVC_BASE].net_ids@))
        } else {
            None
        }
    }

    open spec fn directory(&self, node: TreeNodeId) -> bool {
        ||| node == ROOT_NODE
        ||| node == DEV_DIR
        ||| node == DEV_GPU_DIR
        ||| node == SVC_DIR
        ||| in_gpu_bucket(node) && field_of(node) == 15
    }

    fn walk_one(&self, parent: TreeNodeId, name: &str) -> (r: Option<TreeNodeId>) {
        if parent == ROOT_NODE {
            if text_eq(name, "node") {
                Some(NODE_FILE)
            } else if text_eq(name, "dev") {
                Some(DEV_DIR)
            } else if text_eq(name, "svc") {
                Some(SVC_DIR)
            } else {
                None
            }
        } else if parent == DEV_DIR {
            if text_eq(name, "gpu") {
                Some(DEV_GPU_DIR)
            } else {
                None
            }
        } else if parent == DEV_GPU_DIR {
            match parse_uint(&chars_of(name), 10, u64::MAX) {
                Some(i) => if i < self.gpu_count() {
                    Some(gpu_node(i, 15))
                } else {
                    None
                },
                None => None,
            }
        } else if GPU_BASE <= parent && parent < SVC_BASE && (parent - GPU_BASE) % 16 == 15 {
            match gpu_field_idx(name) {
                Some(f) => Some(gpu_node((parent - GPU_BASE) / 16, f)),
                None => None,
            }
        } else if parent == SVC_DIR {
            match self.find_service(name) {
                Some(i) => Some(svc_node(i)),
                None => None,
            }
        } else {
            None
        }
    }

    fn qid(&self, node: TreeNodeId) -> (r: Option<Qid>) {
        if node == ROOT_NODE || node == DEV_DIR || node == DEV_GPU_DIR || node == SVC_DIR {
            Some(Qid { type_: Qid::TYPE_DIR, version: 0, path: node })
        } else if node == NODE_FILE {
            Some(Qid { type_: Qid::TYPE_FILE, version: 0, path: node })
        } else if GPU_BASE <= node && node < SVC_BASE {
            let type_: u8 = if (node - GPU_BASE) % 16 == 15 {
                Qid::TYPE_DIR
            } else {
                Qid::TYPE_FILE
            };
            Some(Qid { type_, version: 0, path: node })
        } else if node >= SVC_BASE {
            Some(Qid { type_: Qid::TYPE_SYMLINK, version: 0, path: node })
        } else {
            None
        }
    }

    fn stat(&self, node: TreeNodeId) -> (r: Option<Stat>) {
        let qid = match self.qid(node) {
            Some(q) => q,
            None => {
                return None;
            },
        };
        let mode: u32 = if qid.type_ == Qid::TYPE_DIR {
            0o040555
        } else if qid.type_ == Qid::TYPE_SYMLINK {
            0o120777
        } else {
            0o100444
        };
        let size: u64 = if node == NODE_FILE {
            33
        } else if GPU_BASE <= node && node < SVC_BASE {
            match self.gpu_field_content(node) {
                Some(s) => s.as_str().as_bytes().len() as u64,
                None => 0,
            }
        } else if node >= SVC_BASE {
            match self.readlink(node) {
                Some(s) => s.as_str().as_bytes().len() as u64,
                None => 0,
            }
        } else {
            0
        };
        Some(Stat { qid, mode, nlink: 1, size, ..Stat::default() })
    }

    fn read(&self, node: TreeNodeId, offset: u64, count: u32) -> (r: Result<Vec<u8>, u32>) {
        let text = if node == NODE_FILE {
            let mut s = hex_text(self.view.node_id.0, 32);
            s.append("\n");
            s
        } else if GPU_BASE <= node && node < SVC_BASE && (node - GPU_BASE) % 16 != 15 {
            match self.gpu_field_content(node) {
                Some(s) => s,
                None => {
                    return Err(ENOENT);
                },
            }
        } else {
            return Err(EISDIR);
        };
        let payload = vstd::slice::slice_to_vec(text.as_str().as_bytes());
        Ok(read_window(&payload, offset, count))
    }

    fn readdir(&self, node: TreeNodeId, offset: u64) -> (r: Result<Vec<DirEntry>, u32>) {
        match self.rows(node) {
            None => {
                if offset > 0 {
                    let none: Vec<DirEntry> = Vec::new();
                    assert(entries_view(none@) =~= Seq::empty());
                    return Ok(none);
                }
                Err(ENOTDIR)
            },
            Some(rows) => {
                let rows = sort_named(rows);
                let n: usize = rows.len();
                let from: usize = if offset < n as u64 {
                    offset as usize
                } else {
                    n
                };
                Ok(number(rows, from))
            },
        }
    }

    fn readlink(&self, node: TreeNodeId) -> (r: Option<String>) {
        if node < SVC_BASE || node - SVC_BASE >= self.view.services.len() as u64 {
            return None;
        }
        let ids = &self.view.services[(node - SVC_BASE) as usize].net_ids;
        let mut s = String::new();
        let mut i: usize = 0;
        assert(ids@.take(0) =~= Seq::empty());
        while i < ids.len()
            invariant
                i <= ids@.len(),
                s@ == link_text(ids@.take(i as int)),
            decreases ids@.len() - i,
        {
            let ghost was = s@;
            let id = ids[i];
            s.append("node=");
            s.append(hex_text(id.node.0, 32).as_str());
            s.append(" mbox=");
            s.append(dec_text(id.mbox.0).as_str());
            s.append("\n");
            proof {
                assert(ids@.take(i + 1).drop_last() =~= ids@.take(i as int));
                assert(s@ =~= was + net_line(id));
            }
            i = i + 1;
        }
        assert(ids@.take(i as int) =~= ids@);
        Some(s)
    }

    fn is_dir(&self, node: TreeNodeId) -> (r: bool) {
        node == ROOT_NODE || node == DEV_DIR || node == DEV_GPU_DIR || node == SVC_DIR || (GPU_BASE
            <= node && node < SVC_BASE && (node - GPU_BASE) % 16 == 15)
    }
}

} // verus!

//! What a client finds in the synthetic tree: the files by the names that lead to
//! them, and the listings by the entries that come back.
use crate::cap::broker::{DeviceCap, DeviceKind};
use crate::fs::client::{law_listing_read_back, names_fit, parse_entries};
use crate::fs::codec::{RMessageView, TMessageView};
use crate::fs::errno::{EISDIR, ENOENT};
use crate::fs::path::{DEV_DIR, DEV_GPU_DIR, NODE_FILE, SVC_BASE, SVC_DIR};
use crate::fs::server::{dispatched, walk_path, Fids};
use crate::fs::synthetic::{
    gpu_holder, link_text, net_line, numbered, rows_of, service_at, Row, Service, SyntheticTree,
};
use crate::fs::synthetic_laws::{
    distinct_services, has_room, law_dec_reads_back, law_listing, law_listing_resumes,
};
use crate::fs::tree::{window, NodeId as TreeNodeId, Tree, ROOT_NODE};
use crate::fs::types::{DirEntryView, Fid, Qid, Tag};
use crate::ident::NetId;
use crate::order::sorted;
use crate::render::{dec, hex};
use crate::scan::{dec_u64, lines};
use crate::scan_laws::{lacks, law_dec, law_hex, law_lines};
use vstd::prelude::*;
use vstd::utf8::encode_utf8;

verus! {

/// Whether the file holds exactly the text: a read from any offset gives as many
/// of its bytes from there on as were asked for and as there are.
pub open spec fn holds_text<T: Tree>(t: &T, n: TreeNodeId, text: Seq<char>) -> bool {
    forall|offset: u64, count: u32| #[trigger]
        t.content(n, offset, count) matches Ok(d) && {
            let all = encode_utf8(text);
            &&& offset >= all.len() ==> d.len() == 0
            &&& offset < all.len() && count <= all.len() - offset ==> d.len() == count
            &&& offset < all.len() && count > all.len() - offset ==> d.len() == all.len() - offset
            &&& forall|k: int| 0 <= k < d.len() ==> #[trigger] d[k] == all[offset + k]
        }
}

/// Whether the names lead from the root to the node.
pub open spec fn leads_to<T: Tree>(t: &T, names: Seq<Seq<char>>, n: TreeNodeId) -> bool {
    walk_path(t, ROOT_NODE, names) matches Some((qids, at)) && at == n
}

/// Whether the node is a read-only file of the size of the text, and holds it.
pub open spec fn is_file<T: Tree>(t: &T, n: TreeNodeId, text: Seq<char>) -> bool {
    &&& holds_text(t, n, text)
    &&& !t.directory(n)
    &&& t.link(n) is None
    &&& t.identity(n) == Some(Qid { type_: 0x00, version: 0, path: n })
    &&& t.attributes(n) matches Some(stat) && stat.mode == 0o100444 && Some(stat.qid)
        == t.identity(n) && stat.nlink == 1 && (encode_utf8(text).len() <= u64::MAX ==> stat.size
        == encode_utf8(text).len())
}

proof fn lemma_walk_on<T: Tree>(t: &T, names: Seq<Seq<char>>, at: TreeNodeId, name: Seq<char>)
    requires
        leads_to(t, names, at),
        t.child(at, name) is Some,
        t.identity(t.child(at, name)->Some_0) is Some,
    ensures
        leads_to(t, names.push(name), t.child(at, name)->Some_0),
{
    assert(names.push(name).drop_last() =~= names);
}

proof fn lemma_reads(t: &SyntheticTree, n: TreeNodeId, text: Seq<char>)
    requires
        forall|offset: u64, count: u32| #[trigger]
            t.content(n, offset, count) == Ok::<Seq<u8>, u32>(
                window(encode_utf8(text), offset, count),
            ),
    ensures
        holds_text(t, n, text),
{
}

/// Reading a file: at most as many bytes as asked for, each the one at its place.
pub proof fn law_window(content: Seq<u8>, offset: u64, count: u32)
    ensures
        window(content, offset, count).len() <= count,
        offset >= content.len() ==> window(content, offset, count).len() == 0,
        offset + count <= content.len() ==> window(content, offset, count).len() == count,
        offset <= content.len() < offset + count ==> window(content, offset, count).len()
            == content.len() - offset,
        forall|k: int|
            0 <= k < window(content, offset, count).len() ==> #[trigger] window(
                content,
                offset,
                count,
            )[k] == content[offset + k],
{
}

/// Where `/node` leads: a file with the node's id, in 32 hexadecimal digits and a
/// newline.
pub proof fn law_node_file(t: SyntheticTree) -> (n: TreeNodeId)
    ensures
        leads_to(&t, seq!["node"@], n),
        is_file(&t, n, hex(t.view.node_id.0 as nat, 32) + seq!['\n']),
{
    reveal_strlit("\n");
    assert("\n"@ =~= seq!['\n']);
    lemma_root_names();
    let text = hex(t.view.node_id.0 as nat, 32) + seq!['\n'];
    lemma_walk_on(&t, Seq::empty(), ROOT_NODE, "node"@);
    assert(Seq::<Seq<char>>::empty().push("node"@) =~= seq!["node"@]);
    lemma_reads(&t, NODE_FILE, text);
    crate::fs::synthetic_laws::law_node_file_size(t, 33);
    law_hex(t.view.node_id.0 as nat, 32);
    assert forall|i: int| 0 <= i < text.len() implies '\0' <= #[trigger] text[i] <= '\u{7f}' by {
        if i < 32 {
            assert(text[i] == hex(t.view.node_id.0 as nat, 32)[i]);
        }
    }
    assert(vstd::utf8::is_ascii_chars(text));
    vstd::utf8::is_ascii_chars_encode_utf8(text);
    NODE_FILE
}

proof fn lemma_root_names()
    ensures
        "dev"@ != "node"@,
        "dev"@ != "svc"@,
        "node"@ != "svc"@,
{
    reveal_strlit("dev");
    reveal_strlit("node");
    reveal_strlit("svc");
    assert("dev"@[0] == 'd' && "node"@[0] == 'n' && "svc"@[0] == 's');
}

/// The names on the way to a file of a GPU.
pub open spec fn gpu_names(i: int, name: Seq<char>) -> Seq<Seq<char>> {
    seq!["dev"@, "gpu"@, dec(i as nat), name]
}

proof fn lemma_gpu_dir(t: SyntheticTree, i: int) -> (n: TreeNodeId)
    requires
        has_room(t.view),
        0 <= i < t.view.gpus().len(),
    ensures
        leads_to(&t, seq!["dev"@, "gpu"@, dec(i as nat)], n),
        n == 0x1000 + 16 * i + 15,
{
    lemma_root_names();
    law_dec_reads_back(i as nat);
    let none = Seq::<Seq<char>>::empty();
    lemma_walk_on(&t, none, ROOT_NODE, "dev"@);
    lemma_walk_on(&t, none.push("dev"@), DEV_DIR, "gpu"@);
    lemma_walk_on(&t, none.push("dev"@).push("gpu"@), DEV_GPU_DIR, dec(i as nat));
    assert(none.push("dev"@).push("gpu"@).push(dec(i as nat)) =~= seq![
        "dev"@,
        "gpu"@,
        dec(i as nat),
    ]);
    (0x1000 + 16 * i + 15) as u64
}

proof fn lemma_gpu_names()
    ensures
        "vendor"@ != "device"@,
        "vendor"@ != "vram_total_mb"@,
        "vendor"@ != "vram_free_mb"@,
        "vendor"@ != "in_use"@,
        "device"@ != "vram_total_mb"@,
        "device"@ != "vram_free_mb"@,
        "device"@ != "in_use"@,
        "vram_total_mb"@ != "vram_free_mb"@,
        "vram_total_mb"@ != "in_use"@,
        "vram_free_mb"@ != "in_use"@,
{
    reveal_strlit("vendor");
    reveal_strlit("device");
    reveal_strlit("vram_total_mb");
    reveal_strlit("vram_free_mb");
    reveal_strlit("in_use");
    assert("vendor"@.len() == 6 && "device"@.len() == 6 && "in_use"@.len() == 6);
    assert("vendor"@[0] == 'v' && "device"@[0] == 'd' && "in_use"@[0] == 'i');
    assert("vram_total_mb"@.len() == 13 && "vram_free_mb"@.len() == 12);
}

/// The file that the names lead to: it is there, and holds the text.
pub open spec fn found<T: Tree>(t: &T, names: Seq<Seq<char>>, text: Seq<char>) -> bool {
    walk_path(t, ROOT_NODE, names) matches Some((qids, n)) && is_file(t, n, text)
}

proof fn lemma_field(t: SyntheticTree, i: int, f: int, name: Seq<char>, text: Seq<char>)
    requires
        has_room(t.view),
        0 <= i < t.view.gpus().len(),
        0 <= f < 5,
        t.child((0x1000 + 16 * i + 15) as u64, name) == Some((0x1000 + 16 * i + f) as u64),
        t.gpu_text((0x1000 + 16 * i + f) as u64) == Some(text),
    ensures
        found(&t, gpu_names(i, name), text),
{
    let dir = lemma_gpu_dir(t, i);
    let n = (0x1000 + 16 * i + f) as u64;
    let way = seq!["dev"@, "gpu"@, dec(i as nat)];
    lemma_walk_on(&t, way, dir, name);
    assert(way.push(name) =~= gpu_names(i, name));
    lemma_reads(&t, n, text);
}

/// Each file of a GPU holds what the own ad says of that GPU under the file's
/// name: the ids as `0x` and four hexadecimal digits, the memory in decimal.
pub proof fn law_gpu_files(t: SyntheticTree, i: int)
    requires
        has_room(t.view),
        0 <= i < t.view.gpus().len(),
    ensures
        ({
            let g = t.view.ad@.own.gpus[i];
            &&& found(
                &t,
                gpu_names(i, "vendor"@),
                seq!['0', 'x'] + hex(g.pci_vendor as nat, 4) + seq!['\n'],
            )
            &&& found(
                &t,
                gpu_names(i, "device"@),
                seq!['0', 'x'] + hex(g.pci_device as nat, 4) + seq!['\n'],
            )
            &&& found(
                &t,
                gpu_names(i, "vram_total_mb"@),
                dec(g.vram_total_mb as nat) + seq!['\n'],
            )
            &&& found(&t, gpu_names(i, "vram_free_mb"@), dec(g.vram_free_mb as nat) + seq!['\n'])
        }),
{
    let g = t.view.ad@.own.gpus[i];
    reveal_strlit("\n");
    reveal_strlit("0x");
    assert("\n"@ =~= seq!['\n']);
    assert("0x"@ =~= seq!['0', 'x']);
    lemma_gpu_names();
    lemma_field(
        t,
        i,
        0,
        "vendor"@,
        seq!['0', 'x'] + hex(g.pci_vendor as nat, 4) + seq!['\n'],
    );
    lemma_field(
        t,
        i,
        1,
        "device"@,
        seq!['0', 'x'] + hex(g.pci_device as nat, 4) + seq!['\n'],
    );
    lemma_field(t, i, 2, "vram_total_mb"@, dec(g.vram_total_mb as nat) + seq!['\n']);
    lemma_field(t, i, 3, "vram_free_mb"@, dec(g.vram_free_mb as nat) + seq!['\n']);
}

/// `in_use` of a GPU that nobody holds.
pub proof fn law_gpu_free(t: SyntheticTree, i: int)
    requires
        has_room(t.view),
        0 <= i < t.view.gpus().len(),
        forall|k: int|
            0 <= k < t.view.caps.caps@.len() ==> (#[trigger] t.view.caps.caps@[k]).kind
                != DeviceKind::GpuMinor(i as u32),
    ensures
        found(&t, gpu_names(i, "in_use"@), seq!['0', '\n']),
{
    reveal_strlit("0\n");
    assert("0\n"@ =~= seq!['0', '\n']);
    lemma_gpu_names();
    lemma_no_holder(t.view.caps.caps@, i as u32);
    lemma_field(t, i, 4, "in_use"@, seq!['0', '\n']);
}

proof fn lemma_no_holder(caps: Seq<DeviceCap>, index: u32)
    requires
        forall|k: int|
            0 <= k < caps.len() ==> (#[trigger] caps[k]).kind != DeviceKind::GpuMinor(index),
    ensures
        gpu_holder(caps, index) is None,
    decreases caps.len(),
{
    if caps.len() > 0 {
        let rest = caps.skip(1);
        assert forall|k: int| 0 <= k < rest.len() implies (#[trigger] rest[k]).kind
            != DeviceKind::GpuMinor(index) by {
            assert(rest[k] == caps[k + 1]);
        }
        assert(caps[0].kind != DeviceKind::GpuMinor(index));
        lemma_no_holder(rest, index);
    }
}

/// `in_use` of a GPU that is held names the holder of the oldest cap for it.
pub proof fn law_gpu_held(t: SyntheticTree, i: int, k: int)
    requires
        has_room(t.view),
        0 <= i < t.view.gpus().len(),
        0 <= k < t.view.caps.caps@.len(),
        t.view.caps.caps@[k].kind == DeviceKind::GpuMinor(i as u32),
        forall|j: int|
            0 <= j < k ==> (#[trigger] t.view.caps.caps@[j]).kind != DeviceKind::GpuMinor(i as u32),
    ensures
        found(
            &t,
            gpu_names(i, "in_use"@),
            seq!['1', ' ', 'm', 'b', 'o', 'x', '='] + dec(
                t.view.caps.caps@[k].holder.0 as nat,
            ) + seq!['\n'],
        ),
{
    reveal_strlit("1 mbox=");
    reveal_strlit("\n");
    assert("\n"@ =~= seq!['\n']);
    assert("1 mbox="@ =~= seq!['1', ' ', 'm', 'b', 'o', 'x', '=']);
    lemma_gpu_names();
    lemma_oldest_holder(t.view.caps.caps@, i as u32, k);
    lemma_field(
        t,
        i,
        4,
        "in_use"@,
        seq!['1', ' ', 'm', 'b', 'o', 'x', '='] + dec(
            t.view.caps.caps@[k].holder.0 as nat,
        ) + seq!['\n'],
    );
}

proof fn lemma_oldest_holder(caps: Seq<DeviceCap>, index: u32, k: int)
    requires
        0 <= k < caps.len(),
        caps[k].kind == DeviceKind::GpuMinor(index),
        forall|j: int|
            0 <= j < k ==> (#[trigger] caps[j]).kind != DeviceKind::GpuMinor(index),
    ensures
        gpu_holder(caps, index) == Some(caps[k].holder),
    decreases caps.len(),
{
    if k > 0 {
        let rest = caps.skip(1);
        assert(caps[0].kind != DeviceKind::GpuMinor(index));
        assert(rest[k - 1] == caps[k]);
        assert forall|j: int| 0 <= j < k - 1 implies (#[trigger] rest[j]).kind
            != DeviceKind::GpuMinor(index) by {
            assert(rest[j] == caps[j + 1]);
        }
        lemma_oldest_holder(rest, index, k - 1);
    }
}

/// One line of a service's link.
pub open spec fn told(id: NetId) -> Seq<char> {
    seq!['n', 'o', 'd', 'e', '='] + hex(id.node.0 as nat, 32) + seq![
        ' ',
        'm',
        'b',
        'o',
        'x',
        '=',
    ] + dec(id.mbox.0 as nat)
}

/// A service is a symlink under its name, and its target has one line for each
/// of its mailboxes, in order, with the node and the mailbox.
pub proof fn law_service_link(t: SyntheticTree, i: int) -> (n: TreeNodeId)
    requires
        has_room(t.view),
        0 <= i < t.view.services@.len(),
        forall|k: int|
            0 <= k < i ==> (#[trigger] t.view.services@[k]).name@ != t.view.services@[i].name@,
    ensures
        leads_to(&t, seq!["svc"@, t.view.services@[i].name@], n),
        !t.directory(n),
        t.identity(n) == Some(Qid { type_: 0x02, version: 0, path: n }),
        t.link(n) matches Some(text) && {
            let ids = t.view.services@[i].net_ids@;
            &&& lines(text).len() == ids.len()
            &&& forall|k: int| 0 <= k < ids.len() ==> #[trigger] lines(text)[k] == told(ids[k])
            &&& t.attributes(n) matches Some(stat) && stat.mode == 0o120777 && (encode_utf8(
                text,
            ).len() <= u64::MAX ==> stat.size == encode_utf8(text).len())
        },
{
    lemma_root_names();
    let name = t.view.services@[i].name@;
    let none = Seq::<Seq<char>>::empty();
    lemma_service_at(t.view.services@, i);
    lemma_walk_on(&t, none, ROOT_NODE, "svc"@);
    lemma_walk_on(&t, none.push("svc"@), SVC_DIR, name);
    assert(none.push("svc"@).push(name) =~= seq!["svc"@, name]);
    lemma_link_lines(t.view.services@[i].net_ids@);
    (SVC_BASE + i) as u64
}

proof fn lemma_service_at(services: Seq<Service>, i: int)
    requires
        0 <= i < services.len(),
        forall|k: int| 0 <= k < i ==> (#[trigger] services[k]).name@ != services[i].name@,
    ensures
        service_at(services, services[i].name@) == Some(i),
    decreases i,
{
    if i > 0 {
        let t = services.skip(1);
        assert(t[i - 1] == services[i]);
        assert forall|k: int| 0 <= k < i - 1 implies (#[trigger] t[k]).name@ != t[i - 1].name@ by {
            assert(t[k] == services[k + 1]);
        }
        lemma_service_at(t, i - 1);
        assert(services[0].name@ != services[i].name@);
    }
}

proof fn lemma_told(id: NetId)
    ensures
        net_line(id) == told(id) + seq!['\n'],
        lacks(told(id), '\n'),
        told(id).len() > 0,
        told(id).last() != '\r',
{
    reveal_strlit("node=");
    reveal_strlit(" mbox=");
    reveal_strlit("\n");
    assert("node="@ =~= seq!['n', 'o', 'd', 'e', '=']);
    assert(" mbox="@ =~= seq![' ', 'm', 'b', 'o', 'x', '=']);
    assert("\n"@ =~= seq!['\n']);
    law_hex(id.node.0 as nat, 32);
    law_dec(id.mbox.0 as nat);
    let h = hex(id.node.0 as nat, 32);
    let d = dec(id.mbox.0 as nat);
    let l = told(id);
    assert forall|k: int| 0 <= k < l.len() implies l[k] != '\n' by {
        if 5 <= k < 37 {
            assert(l[k] == h[k - 5]);
        } else if k >= 43 {
            assert(l[k] == d[k - 43]);
        }
    }
    assert(l.last() == d[d.len() - 1]);
}

proof fn lemma_link_front(ids: Seq<NetId>)
    requires
        ids.len() > 0,
    ensures
        link_text(ids) == net_line(ids[0]) + link_text(ids.skip(1)),
    decreases ids.len(),
{
    if ids.len() == 1 {
        assert(ids.drop_last() =~= Seq::empty());
        assert(ids.skip(1) =~= Seq::empty());
        assert(link_text(ids) =~= net_line(ids[0]) + link_text(ids.skip(1)));
    } else {
        lemma_link_front(ids.drop_last());
        assert(ids.drop_last().skip(1) =~= ids.skip(1).drop_last());
        assert(link_text(ids) =~= net_line(ids[0]) + link_text(ids.skip(1)));
    }
}

proof fn lemma_link_lines(ids: Seq<NetId>)
    ensures
        lines(link_text(ids)).len() == ids.len(),
        forall|k: int| 0 <= k < ids.len() ==> #[trigger] lines(link_text(ids))[k] == told(ids[k]),
    decreases ids.len(),
{
    if ids.len() == 0 {
        law_lines(Seq::empty(), Seq::empty());
        assert(link_text(ids) =~= Seq::empty());
    } else {
        let rest = ids.skip(1);
        lemma_link_front(ids);
        lemma_told(ids[0]);
        lemma_link_lines(rest);
        law_lines(told(ids[0]), link_text(rest));
        let all = lines(link_text(ids));
        assert(all == seq![told(ids[0])] + lines(link_text(rest)));
        assert forall|k: int| 0 <= k < ids.len() implies #[trigger] all[k] == told(ids[k]) by {
            if k > 0 {
                assert(all[k] == lines(link_text(rest))[k - 1]);
                assert(rest[k - 1] == ids[k]);
            }
        }
    }
}

/// Only directories hold names, and a name that is no field, no GPU's number, no
/// service or none of the fixed ones leads nowhere.
pub proof fn law_nothing_else(t: SyntheticTree, name: Seq<char>, i: int)
    requires
        has_room(t.view),
        0 <= i < t.view.gpus().len(),
    ensures
        t.child(ROOT_NODE, name) is Some ==> name == "node"@ || name == "dev"@ || name == "svc"@,
        t.child(DEV_DIR, name) is Some ==> name == "gpu"@,
        t.child((0x1000 + 16 * i + 15) as u64, name) is Some ==> name == "vendor"@ || name
            == "device"@ || name == "vram_total_mb"@ || name == "vram_free_mb"@ || name
            == "in_use"@,
        t.child(DEV_GPU_DIR, dec(t.view.gpus().len())) is None,
        (forall|k: int|
            0 <= k < t.view.services@.len() ==> (#[trigger] t.view.services@[k]).name@ != name)
            ==> t.child(SVC_DIR, name) is None,
{
    law_dec_reads_back(t.view.gpus().len());
    if forall|k: int|
        0 <= k < t.view.services@.len() ==> (#[trigger] t.view.services@[k]).name@ != name {
        lemma_no_service(t.view.services@, name);
    }
}

proof fn lemma_no_service(services: Seq<Service>, name: Seq<char>)
    requires
        forall|k: int| 0 <= k < services.len() ==> (#[trigger] services[k]).name@ != name,
    ensures
        service_at(services, name) is None,
    decreases services.len(),
{
    if services.len() > 0 {
        let t = services.skip(1);
        assert forall|k: int| 0 <= k < t.len() implies (#[trigger] t[k]).name@ != name by {
            assert(t[k] == services[k + 1]);
        }
        assert(services[0].name@ != name);
        lemma_no_service(t, name);
    }
}

/// A directory is read-only, has no content and no target, and a node that does
/// not exist has neither.
pub proof fn law_directories(t: SyntheticTree, n: TreeNodeId, offset: u64, count: u32)
    requires
        t.directory(n),
    ensures
        t.content(n, offset, count) == Err::<Seq<u8>, u32>(EISDIR),
        t.link(n) is None,
        t.identity(n) == Some(Qid { type_: 0x80, version: 0, path: n }),
        t.attributes(n) matches Some(stat) && stat.mode == 0o040555 && Some(stat.qid)
            == t.identity(n) && stat.nlink == 1,
{
}

/// Under the directory of the GPUs a name leads to the GPU whose number it spells,
/// and nowhere where it spells none or there is no such GPU.
pub proof fn law_gpu_numbers(t: SyntheticTree, name: Seq<char>)
    requires
        has_room(t.view),
    ensures
        match dec_u64(name) {
            Some(i) => if i < t.view.gpus().len() {
                t.child(DEV_GPU_DIR, name) == Some((0x1000 + 16 * i + 15) as u64)
            } else {
                t.child(DEV_GPU_DIR, name) is None
            },
            None => t.child(DEV_GPU_DIR, name) is None,
        },
{
}

/// What each node number stands for: the fixed ones below sixteen, sixteen for each
/// GPU from 0x1000 on, the services from 0x2000 on; nothing else is there.
pub proof fn law_node_numbers(t: SyntheticTree, n: TreeNodeId, offset: u64, count: u32)
    ensures
        t.directory(n) <==> n == 0 || n == 2 || n == 3 || n == 4 || (0x1000 <= n < 0x2000 && (n
            - 0x1000) % 16 == 15),
        t.identity(n) is Some <==> n <= 4 || n >= 0x1000,
        n == 1 ==> t.identity(n)->Some_0.type_ == 0x00,
        0x1000 <= n < 0x2000 && (n - 0x1000) % 16 != 15 ==> t.identity(n)->Some_0.type_ == 0x00,
        n >= 0x2000 ==> t.identity(n)->Some_0.type_ == 0x02,
        n >= 0x2000 ==> t.attributes(n)->Some_0.mode == 0o120777,
        0x1000 <= n < 0x2000 && (n - 0x1000) % 16 != 15 && ((n - 0x1000) / 16
            >= t.view.gpus().len() || (n - 0x1000) % 16 > 4) ==> t.content(n, offset, count)
            == Err::<Seq<u8>, u32>(2),
        n >= 0x2000 || (4 < n < 0x1000) ==> t.content(n, offset, count) == Err::<Seq<u8>, u32>(21),
        t.link(n) is Some <==> n >= 0x2000 && n - 0x2000 < t.view.services@.len(),
        !t.directory(n) && offset == 0 ==> t.listing(n, offset) == Err::<Seq<DirEntryView>, u32>(20),
        !t.directory(n) && offset > 0 ==> (t.listing(n, offset) matches Ok(es) && es.len() == 0),
{
}

/// The entries in a reply to a listing request.
pub open spec fn entries_in(r: Result<RMessageView, u32>) -> Option<Seq<DirEntryView>> {
    match r {
        Ok(RMessageView::Readdir { data, .. }) => match parse_entries(data) {
            Ok(es) => Some(es),
            Err(_) => None,
        },
        _ => None,
    }
}

/// The reply to a listing request on a directory holds exactly the entries that
/// the tree lists from the cookie on, whatever the count; an error of the tree is
/// the reply. The fids stay.
pub proof fn law_readdir_reply<T: Tree>(
    tree: &T,
    fids: Fids,
    tag: Tag,
    fid: Fid,
    offset: u64,
    count: u32,
)
    requires
        fids.contains_key(fid.0),
        tree.directory(fids[fid.0].node),
    ensures
        ({
            let (after, r) = dispatched(
                tree,
                fids,
                TMessageView::Readdir { tag, fid, offset, count },
            );
            &&& after == fids
            &&& match tree.listing(fids[fid.0].node, offset) {
                Ok(es) => r is Ok && (names_fit(es) ==> entries_in(r) == Some(es)),
                Err(e) => r == Err::<RMessageView, u32>(e),
            }
        }),
{
    if let Ok(es) = tree.listing(fids[fid.0].node, offset) {
        if names_fit(es) {
            law_listing_read_back(es);
        }
    }
}

/// A listing of the synthetic tree goes on where it stopped: the first request
/// gives all entries, the one with an entry's cookie those after it, and the one
/// with the last entry's cookie none.
pub proof fn law_readdir_goes_on(
    t: SyntheticTree,
    fids: Fids,
    tag: Tag,
    fid: Fid,
    count: u32,
    k: int,
)
    requires
        fids.contains_key(fid.0),
        t.directory(fids[fid.0].node),
        rows_of(t.view, fids[fid.0].node)->Some_0.len() <= u64::MAX,
        names_fit(t.listing(fids[fid.0].node, 0)->Ok_0),
        0 <= k < t.listing(fids[fid.0].node, 0)->Ok_0.len(),
    ensures
        ({
            let all = entries_in(
                dispatched(&t, fids, TMessageView::Readdir { tag, fid, offset: 0, count }).1,
            );
            let next = entries_in(
                dispatched(
                    &t,
                    fids,
                    TMessageView::Readdir { tag, fid, offset: all->Some_0[k].offset, count },
                ).1,
            );
            &&& all == Some(t.listing(fids[fid.0].node, 0)->Ok_0)
            &&& next is Some
            &&& next->Some_0.len() == all->Some_0.len() - (k + 1)
            &&& forall|j: int|
                0 <= j < next->Some_0.len() ==> #[trigger] next->Some_0[j] == all->Some_0[k + 1 + j]
        }),
{
    let n = fids[fid.0].node;
    let es = t.listing(n, 0)->Ok_0;
    law_readdir_reply(&t, fids, tag, fid, 0, count);
    law_listing_resumes(t, n, k);
    let rest = es.skip(k + 1);
    assert forall|i: int| 0 <= i < rest.len() implies encode_utf8((#[trigger] rest[i]).name).len()
        <= 0xffff by {
        assert(rest[i] == es[k + 1 + i]);
    }
    law_readdir_reply(&t, fids, tag, fid, es[k].offset, count);
}

/// Whether the name is among the entries.
pub open spec fn lists_name(es: Seq<DirEntryView>, name: Seq<char>) -> bool {
    exists|i: int| 0 <= i < es.len() && (#[trigger] es[i]).name == name
}

proof fn lemma_row_listed(t: SyntheticTree, n: TreeNodeId, k: int)
    requires
        t.directory(n),
        has_room(t.view),
        distinct_services(t.view),
        0 <= k < rows_of(t.view, n)->Some_0.len(),
    ensures
        lists_name(t.listing(n, 0)->Ok_0, rows_of(t.view, n)->Some_0[k].name),
{
    law_listing(t, n);
    let row = rows_of(t.view, n)->Some_0[k];
    let es = t.listing(n, 0)->Ok_0;
    let i = choose|i: int|
        0 <= i < es.len() && (#[trigger] es[i]).name == row.name && es[i].qid == row.qid && es[i].ty
            == row.ty;
    assert(es[i].name == row.name);
}

/// Every name that leads somewhere is listed; a GPU under its number.
pub proof fn law_all_listed(t: SyntheticTree, n: TreeNodeId, name: Seq<char>)
    requires
        t.directory(n),
        has_room(t.view),
        distinct_services(t.view),
        n == DEV_GPU_DIR ==> exists|i: int|
            0 <= i < t.view.gpus().len() && name == #[trigger] dec(i as nat),
        n != DEV_GPU_DIR ==> t.child(n, name) is Some,
    ensures
        lists_name(t.listing(n, 0)->Ok_0, name),
{
    if n == ROOT_NODE {
        lemma_row_listed(t, n, 0);
        lemma_row_listed(t, n, 1);
        lemma_row_listed(t, n, 2);
    } else if n == DEV_DIR {
        lemma_row_listed(t, n, 0);
    } else if n == DEV_GPU_DIR {
        let i = choose|i: int| 0 <= i < t.view.gpus().len() && name == #[trigger] dec(i as nat);
        lemma_row_listed(t, n, i);
    } else if n == SVC_DIR {
        let i = service_at(t.view.services@, name)->Some_0;
        lemma_service_named(t.view.services@, name);
        lemma_row_listed(t, n, i);
    } else {
        lemma_row_listed(t, n, 0);
        lemma_row_listed(t, n, 1);
        lemma_row_listed(t, n, 2);
        lemma_row_listed(t, n, 3);
        lemma_row_listed(t, n, 4);
    }
}

proof fn lemma_service_named(services: Seq<Service>, name: Seq<char>)
    requires
        service_at(services, name) is Some,
    ensures
        0 <= service_at(services, name)->Some_0 < services.len(),
        services[service_at(services, name)->Some_0].name@ == name,
    decreases services.len(),
{
    if services[0].name@ != name {
        lemma_service_named(services.skip(1), name);
    }
}

/// The type of an entry tells what it is: 4 a directory, 10 a symlink, 8 a file.
pub proof fn law_entry_types(t: SyntheticTree, n: TreeNodeId, i: int)
    requires
        t.directory(n),
        has_room(t.view),
        0 <= i < t.listing(n, 0)->Ok_0.len(),
    ensures
        ({
            let e = t.listing(n, 0)->Ok_0[i];
            &&& t.directory(e.qid.path) ==> e.ty == 4 && e.qid.type_ == 0x80
            &&& n == SVC_DIR ==> e.ty == 10 && e.qid.type_ == 0x02
            &&& n != SVC_DIR && !t.directory(e.qid.path) ==> e.ty == 8 && e.qid.type_ == 0x00
        }),
{
    let rows = rows_of(t.view, n)->Some_0;
    crate::order::law_sorted::<Row>(rows);
    let es = t.listing(n, 0)->Ok_0;
    assert(es =~= numbered(sorted::<Row>(rows)));
    crate::order::law_sorted_members::<Row>(rows, i);
    let k = choose|k: int| 0 <= k < rows.len() && #[trigger] rows[k] == sorted::<Row>(rows)[i];
    crate::fs::synthetic_laws::law_listed_identity(t, n, k);
}

/// Where a path of the tree leads is what the server's walk leads to: the fid
/// stands for the node at the end, and one qid comes back for each name.
pub proof fn law_walk_served<T: Tree>(
    tree: &T,
    fids: Fids,
    tag: Tag,
    fid: Fid,
    newfid: Fid,
    names: Seq<Seq<char>>,
)
    requires
        fids.contains_key(fid.0),
    ensures
        ({
            let (after, r) = dispatched(
                tree,
                fids,
                TMessageView::Walk { tag, fid, newfid, wnames: names },
            );
            match walk_path(tree, fids[fid.0].node, names) {
                None => after == fids && r == Err::<RMessageView, u32>(ENOENT),
                Some((qids, n)) => {
                    &&& r matches Ok(RMessageView::Walk { tag: back, wqids }) && back == tag
                        && wqids.len() == names.len() && (names.len() > 0 ==> Some(wqids.last())
                        == tree.identity(n))
                    &&& after.contains_key(newfid.0)
                    &&& after[newfid.0].node == n
                    &&& !after[newfid.0].opened
                },
            }
        }),
{
    if walk_path(tree, fids[fid.0].node, names) is Some {
        crate::fs::server_laws::law_walk_qids(tree, fids[fid.0].node, names);
    }
}

} // verus!

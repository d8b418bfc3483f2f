//! What holds of the synthetic tree as a whole.
use crate::cap::broker::{exclusive_alone, DeviceKind};
use crate::fs::path::{DEV_DIR, DEV_GPU_DIR, NODE_FILE, SVC_BASE, SVC_DIR};
use crate::fs::synthetic::{
    dir_row, field_name, field_named, file_row, gpu_holder, gpu_path, link_row, node_text,
    numbered, rows_of, service_at, svc_path, NodeView, Row, Service, SyntheticTree,
};
use crate::fs::tree::{NodeId as TreeNodeId, Tree, ROOT_NODE};
use crate::fs::types::DirEntryView;
use crate::order::{
    in_order, law_sorted, law_sorted_members, law_sorted_strictly, names_differ, sorted, Named,
};
use crate::render::{dec, digit, hex, hex_digit};
use crate::scan::{digit_value, digits_value, uint};
use crate::text::before;
use vstd::prelude::*;

verus! {

proof fn lemma_digit(d: nat)
    requires
        d < 10,
    ensures
        digit_value(digit(d), 10) == Some(d),
        digit(d) != '+',
{
    assert(digit(d) as u32 == 48 + d);
}

/// A number is read back from its decimal form.
pub proof fn law_dec_reads_back(n: nat)
    requires
        n <= u64::MAX,
    ensures
        uint(dec(n), 10, u64::MAX as nat) == Some(n),
{
    lemma_dec_value(n);
}

proof fn lemma_dec_value(n: nat)
    ensures
        digits_value(dec(n), 10) == Some(n),
        dec(n).len() > 0,
        dec(n)[0] != '+',
    decreases n,
{
    if n < 10 {
        lemma_digit(n);
        assert(dec(n).drop_last() =~= Seq::empty());
        assert(dec(n).last() == digit(n));
    } else {
        lemma_dec_value(n / 10);
        lemma_digit(n % 10);
        assert(dec(n).drop_last() =~= dec(n / 10));
        assert(dec(n).last() == digit(n % 10));
    }
}

proof fn lemma_field_names()
    ensures
        forall|f: int| 0 <= f < 5 ==> field_named(#[trigger] field_name(f)) == Some(f as u64),
{
    reveal_strlit("vendor");
    reveal_strlit("device");
    reveal_strlit("vram_total_mb");
    reveal_strlit("vram_free_mb");
    reveal_strlit("in_use");
    assert("vendor"@.len() == 6 && "device"@.len() == 6 && "in_use"@.len() == 6);
    assert("vendor"@[0] == 'v' && "device"@[0] == 'd' && "in_use"@[0] == 'i');
    assert("vram_total_mb"@.len() == 13 && "vram_free_mb"@.len() == 12);
}

proof fn lemma_first_service(services: Seq<Service>, i: int)
    requires
        0 <= i < services.len(),
        forall|k: int|
            0 <= k < i ==> (#[trigger] services[k]).name@ != services[i].name@,
    ensures
        service_at(services, services[i].name@) == Some(i),
    decreases i,
{
    if i > 0 {
        let t = services.skip(1);
        assert(t[i - 1] == services[i]);
        assert forall|k: int| 0 <= k < i - 1 implies (#[trigger] t[k]).name@ != t[i - 1].name@ by {
            assert(t[k] == services[k + 1]);
        }
        lemma_first_service(t, i - 1);
        assert(services[0].name@ != services[i].name@);
    }
}

/// What a directory lists can be walked to: the name leads to the listed node.
/// Of several services with one name only the first can.
pub proof fn law_listed_can_be_walked(t: SyntheticTree, n: TreeNodeId, i: int)
    requires
        rows_of(t.view, n) is Some,
        0 <= i < rows_of(t.view, n)->Some_0.len(),
        t.view.gpus().len() <= u64::MAX,
        n == SVC_DIR ==> forall|k: int|
            0 <= k < i ==> (#[trigger] t.view.services@[k]).name@ != t.view.services@[i].name@,
    ensures
        ({
            let row = rows_of(t.view, n)->Some_0[i];
            t.child(n, row.name) == Some(row.qid.path)
        }),
{
    if n == ROOT_NODE {
        reveal_strlit("dev");
        reveal_strlit("node");
        reveal_strlit("svc");
        assert("dev"@[0] == 'd' && "node"@[0] == 'n' && "svc"@[0] == 's');
    } else if n == DEV_DIR {
    } else if n == DEV_GPU_DIR {
        law_dec_reads_back(i as nat);
    } else if n == SVC_DIR {
        lemma_first_service(t.view.services@, i);
    } else {
        lemma_field_names();
    }
}

/// A node has the identity that its listing shows, as long as the buckets have
/// room for the GPUs and the services.
pub proof fn law_listed_identity(t: SyntheticTree, n: TreeNodeId, i: int)
    requires
        rows_of(t.view, n) is Some,
        0 <= i < rows_of(t.view, n)->Some_0.len(),
        has_room(t.view),
    ensures
        ({
            let row = rows_of(t.view, n)->Some_0[i];
            &&& t.identity(row.qid.path) == Some(row.qid)
            &&& t.directory(row.qid.path) == (row.ty == 4)
        }),
{
}

/// Whether every GPU and every service has an id of its own: those of 256 GPUs
/// fit below those of the services.
pub open spec fn has_room(v: NodeView) -> bool {
    &&& v.gpus().len() <= 256
    &&& v.services@.len() <= u64::MAX - SVC_BASE
}

/// Whether no two services have the same name.
pub open spec fn distinct_services(v: NodeView) -> bool {
    forall|i: int, j: int|
        0 <= i < j < v.services@.len() ==> (#[trigger] v.services@[i]).name@ != (
        #[trigger] v.services@[j]).name@
}

proof fn lemma_rows_differ(v: NodeView, n: TreeNodeId)
    requires
        rows_of(v, n) is Some,
        v.gpus().len() <= u64::MAX,
        n == SVC_DIR ==> distinct_services(v),
    ensures
        names_differ::<Row>(rows_of(v, n)->Some_0),
{
    let rows = rows_of(v, n)->Some_0;
    assert forall|i: int, j: int| 0 <= i < j < rows.len() implies Row::name_of(
        #[trigger] rows[i],
    ) != Row::name_of(#[trigger] rows[j]) by {
        if n == ROOT_NODE {
            reveal_strlit("dev");
            reveal_strlit("node");
            reveal_strlit("svc");
            assert("dev"@[0] == 'd' && "node"@[0] == 'n' && "svc"@[0] == 's');
        } else if n == DEV_DIR {
        } else if n == DEV_GPU_DIR {
            law_dec_reads_back(i as nat);
            law_dec_reads_back(j as nat);
        } else if n == SVC_DIR {
            assert(v.services@[i].name@ != v.services@[j].name@);
        } else {
            lemma_field_names();
            assert(field_named(field_name(i)) != field_named(field_name(j)));
        }
    }
}

/// A listing holds exactly what the directory holds, in strictly ascending order
/// of the names; each entry's cookie is its position, counted from one; and what
/// is listed can be walked to and is what the listing says.
pub proof fn law_listing(t: SyntheticTree, n: TreeNodeId)
    requires
        t.directory(n),
        has_room(t.view),
        distinct_services(t.view),
    ensures
        t.listing(n, 0) is Ok,
        ({
            let es = t.listing(n, 0)->Ok_0;
            let rows = rows_of(t.view, n)->Some_0;
            &&& es.len() == rows.len()
            &&& forall|i: int, j: int|
                0 <= i < j < es.len() ==> before((#[trigger] es[i]).name, (#[trigger] es[j]).name)
            &&& forall|i: int|
                0 <= i < es.len() ==> (#[trigger] es[i]).offset == i + 1 && t.child(n, es[i].name)
                    == Some(es[i].qid.path) && t.identity(es[i].qid.path) == Some(es[i].qid)
            &&& forall|k: int|
                0 <= k < rows.len() ==> exists|i: int|
                    0 <= i < es.len() && (#[trigger] es[i]).name == (#[trigger] rows[k]).name
                        && es[i].qid == rows[k].qid && es[i].ty == rows[k].ty
        }),
{
    let rows = rows_of(t.view, n)->Some_0;
    let order = sorted::<Row>(rows);
    let es = t.listing(n, 0)->Ok_0;
    law_sorted::<Row>(rows);
    lemma_rows_differ(t.view, n);
    law_sorted_strictly::<Row>(rows);
    assert(es =~= numbered(order));
    assert forall|i: int, j: int| 0 <= i < j < es.len() implies before(
        (#[trigger] es[i]).name,
        (#[trigger] es[j]).name,
    ) by {
        assert(before(Row::name_of(order[i]), Row::name_of(order[j])));
    }
    assert forall|i: int| 0 <= i < es.len() implies (#[trigger] es[i]).offset == i + 1 && t.child(
        n,
        es[i].name,
    ) == Some(es[i].qid.path) && t.identity(es[i].qid.path) == Some(es[i].qid) by {
        law_sorted_members::<Row>(rows, i);
        let k = choose|k: int| 0 <= k < rows.len() && #[trigger] rows[k] == order[i];
        law_listed_can_be_walked(t, n, k);
        law_listed_identity(t, n, k);
    }
    assert forall|k: int| 0 <= k < rows.len() implies exists|i: int|
        0 <= i < es.len() && (#[trigger] es[i]).name == (#[trigger] rows[k]).name && es[i].qid
            == rows[k].qid && es[i].ty == rows[k].ty by {
        law_sorted_members::<Row>(rows, k);
        let i = choose|i: int| 0 <= i < rows.len() && #[trigger] order[i] == rows[k];
        assert(es[i].name == rows[k].name);
    }
}

/// Every GPU is listed under its number, and under it all its fields.
pub proof fn law_gpus_listed(t: SyntheticTree, gpu: int, field: int)
    requires
        has_room(t.view),
        0 <= gpu < t.view.gpus().len(),
        0 <= field < 5,
    ensures
        rows_of(t.view, DEV_GPU_DIR)->Some_0[gpu] == dir_row(gpu_path(gpu, 15), dec(gpu as nat)),
        rows_of(t.view, gpu_path(gpu, 15))->Some_0[field] == file_row(
            gpu_path(gpu, field),
            field_name(field),
        ),
{
}

/// Every service is listed under its name.
pub proof fn law_services_listed(t: SyntheticTree, service: int)
    requires
        0 <= service < t.view.services@.len(),
    ensures
        rows_of(t.view, SVC_DIR)->Some_0[service] == link_row(
            svc_path(service),
            t.view.services@[service].name@,
        ),
{
}

/// A listing is in the order of the names and lists exactly what the directory
/// holds, whatever the names are.
pub proof fn law_listing_sorted(v: NodeView, n: TreeNodeId)
    requires
        rows_of(v, n) is Some,
    ensures
        in_order::<Row>(sorted::<Row>(rows_of(v, n)->Some_0)),
        sorted::<Row>(rows_of(v, n)->Some_0).to_multiset() == rows_of(v, n)->Some_0.to_multiset(),
{
    law_sorted::<Row>(rows_of(v, n)->Some_0);
}

/// Passing back the cookie of an entry resumes right after it, wherever the
/// listing was cut.
pub proof fn law_listing_resumes(t: SyntheticTree, n: TreeNodeId, k: int)
    requires
        t.directory(n),
        rows_of(t.view, n)->Some_0.len() <= u64::MAX,
        0 <= k < t.listing(n, 0)->Ok_0.len(),
    ensures
        t.listing(n, t.listing(n, 0)->Ok_0[k].offset) == Ok::<Seq<DirEntryView>, u32>(
            t.listing(n, 0)->Ok_0.skip(k + 1),
        ),
{
    let rows = rows_of(t.view, n)->Some_0;
    law_sorted::<Row>(rows);
    let all = numbered(sorted::<Row>(rows));
    let es = t.listing(n, 0)->Ok_0;
    assert(es =~= all);
    assert(es[k].offset == k + 1);
    assert(all.skip(k + 1) =~= es.skip(k + 1));
}

/// Nothing lies under a file or a symlink.
pub proof fn law_nothing_under_files(t: SyntheticTree, p: TreeNodeId, name: Seq<char>)
    requires
        !t.directory(p),
    ensures
        t.child(p, name) is None,
{
}

/// A directory is one that can be listed; a file is one that can be read.
pub proof fn law_directory_or_content(t: SyntheticTree, n: TreeNodeId, count: u32)
    ensures
        t.directory(n) <==> t.listing(n, 0) is Ok,
        t.directory(n) ==> t.content(n, 0, count) is Err,
{
}

proof fn lemma_hex_ascii(n: nat, w: nat)
    ensures
        hex(n, w).len() == w,
        forall|i: int| 0 <= i < w ==> '\0' <= #[trigger] hex(n, w)[i] <= '\u{7f}',
    decreases w,
{
    if w > 0 {
        lemma_hex_ascii(n / 16, (w - 1) as nat);
        let d = n % 16;
        assert('\0' <= hex_digit(d) <= '\u{7f}');
    }
}

/// The size that `/node` claims is the number of bytes that it reads.
pub proof fn law_node_file_size(t: SyntheticTree, count: u32)
    requires
        count >= 33,
    ensures
        t.attributes(NODE_FILE) is Some,
        t.content(NODE_FILE, 0, count) is Ok,
        t.attributes(NODE_FILE)->Some_0.size == t.content(NODE_FILE, 0, count)->Ok_0.len(),
{
    let text = node_text(t.view.node_id);
    lemma_hex_ascii(t.view.node_id.0 as nat, 32);
    reveal_strlit("\n");
    assert forall|i: int| 0 <= i < text.len() implies '\0' <= #[trigger] text[i] <= '\u{7f}' by {
        if i < 32 {
            assert(text[i] == hex(t.view.node_id.0 as nat, 32)[i]);
        } else {
            assert(text[i] == '\n');
        }
    }
    assert(vstd::utf8::is_ascii_chars(text));
    vstd::utf8::is_ascii_chars_encode_utf8(text);
}

/// `in_use` tells the holder: for every cap on a GPU someone is named, and for
/// an exclusive one it is its holder.
pub proof fn law_in_use_names_holder(t: SyntheticTree, i: int, index: u32)
    requires
        exclusive_alone(t.view.caps.caps@),
        0 <= i < t.view.caps.caps@.len(),
        t.view.caps.caps@[i].kind == DeviceKind::GpuMinor(index),
    ensures
        gpu_holder(t.view.caps.caps@, index) is Some,
        t.view.caps.caps@[i].exclusive ==> gpu_holder(t.view.caps.caps@, index) == Some(
            t.view.caps.caps@[i].holder,
        ),
{
    lemma_holder(t.view.caps.caps@, i, index);
}

proof fn lemma_holder(caps: crate::cap::broker::Caps, i: int, index: u32)
    requires
        exclusive_alone(caps),
        0 <= i < caps.len(),
        caps[i].kind == DeviceKind::GpuMinor(index),
    ensures
        gpu_holder(caps, index) is Some,
        caps[i].exclusive ==> gpu_holder(caps, index) == Some(caps[i].holder),
    decreases caps.len(),
{
    if caps[0].kind != DeviceKind::GpuMinor(index) {
        let t = caps.skip(1);
        assert(t[i - 1] == caps[i]);
        assert forall|a: int, b: int|
            0 <= a < t.len() && 0 <= b < t.len() && a != b && (#[trigger] t[a]).kind == (
            #[trigger] t[b]).kind implies !t[a].exclusive && !t[b].exclusive by {
            assert(t[a] == caps[a + 1] && t[b] == caps[b + 1]);
        }
        lemma_holder(t, i - 1, index);
    } else if i != 0 {
        assert(caps[0].kind == caps[i].kind);
    }
}

} // verus!

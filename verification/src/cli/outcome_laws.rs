//! What each command's function returns, told of the function itself: whatever it
//! returned, it was this.
use crate::ad::schema::NodeAd;
use crate::cli::args::{validate_spawn_args, SpawnArgs};
use crate::cli::command_laws::{
    all_assign, law_ad_line, law_child_status, law_padded, law_short_id, law_spawn_args,
    stdin_there,
};
use crate::cli::error::{CliErr, CliErrView};
use crate::cli::group_laws::{
    all_read, labels_differ, law_accepted_group, law_good_group_accepted, law_refusals,
    same_letters,
};
use crate::cli::group_toml::{
    validate_group, GroupTomlError, GroupTomlErrorView, PlacementGroup, RawGroup,
};
use crate::cli::listing::{ad_line, ad_show, no_ads_line, pad, Show};
use crate::cli::spawn::{child_status, spawn_request, Output, Reply, Session, SpawnRequest};
use crate::cli::submit::{adapt_ad, assignment_line, assignment_lines, format_node_id, PlaceAd};
use crate::ident::NodeId;
use crate::render::dec;
use crate::scan::{digits_value, strip, words};
use crate::scan_laws::{blank_text, law_strip, solid};
use crate::text::texts;
use vstd::prelude::*;

verus! {

/// The arguments of a spawn are accepted exactly where all of them can be used,
/// and refused as a wrong use.
pub proof fn law_validate_spawn_args(
    args: &SpawnArgs,
    stdin_exists: bool,
    r: Result<(), CliErr>,
)
    requires
        call_ensures(validate_spawn_args, (args, stdin_exists), r),
    ensures
        r is Ok <==> {
            &&& !blank_text(args.requires@)
            &&& args.argv@.len() > 0
            &&& all_assign(texts(args.env@))
            &&& stdin_there(*args, stdin_exists)
        },
        r matches Err(e) ==> e@ is Usage,
{
    law_spawn_args(*args, stdin_exists);
}

/// A group is accepted exactly where its strategy is known, it has a member, its
/// labels differ and its predicates could be read.
pub proof fn law_validate_group<R>(
    raw: RawGroup,
    reqs: Vec<Result<R, String>>,
    r: Result<PlacementGroup<R>, GroupTomlError>,
)
    requires
        reqs@.len() == raw.member@.len(),
        call_ensures(validate_group::<R>, (raw, reqs), r),
    ensures
        r is Ok <==> {
            &&& same_letters(raw.strategy@, "pack"@) || same_letters(raw.strategy@, "spread"@)
            &&& raw.member@.len() > 0
            &&& labels_differ(raw.member@)
            &&& all_read(reqs@)
        },
        r matches Ok(g) ==> g.members@.len() == raw.member@.len() && forall|i: int|
            0 <= i < g.members@.len() ==> (#[trigger] g.members@[i]).label@
                == raw.member@[i].label@ && reqs@[i] == Ok::<R, String>(g.members@[i].req),
        r matches Err(e) ==> (e@ matches GroupTomlErrorView::DuplicateLabel(l) ==> exists|
            i: int,
            j: int,
        |
            0 <= i < j < raw.member@.len() && (#[trigger] raw.member@[i]).label@ == l && (
            #[trigger] raw.member@[j]).label@ == l),
{
    match r {
        Ok(g) => {
            law_accepted_group(raw, reqs@, g);
            crate::cli::group_laws::law_strategies(raw.strategy@);
        },
        Err(e) => {
            law_refusals(raw, reqs@, e@);
            if (same_letters(raw.strategy@, "pack"@) || same_letters(raw.strategy@, "spread"@))
                && raw.member@.len() > 0 && labels_differ(raw.member@) && all_read(reqs@) {
                law_good_group_accepted(raw, reqs@, e@);
            }
        },
    }
}

/// The request asks for what was typed: the predicate, the rank or none, the
/// command, the environment and whether devices are to be exclusive.
pub proof fn law_spawn_request(args: &SpawnArgs, req_id: u64, r: SpawnRequest)
    requires
        call_ensures(spawn_request, (args, req_id), r),
    ensures
        r.req_id == req_id,
        r.requires@ == args.requires@,
        args.rank matches Some(rank) ==> r.rank@ == rank@,
        args.rank is None ==> r.rank@.len() == 0,
        r.argv@.len() == args.argv@.len(),
        forall|i: int| 0 <= i < r.argv@.len() ==> (#[trigger] r.argv@[i])@ == args.argv@[i]@,
        r.env@.len() == args.env@.len(),
        forall|i: int| 0 <= i < r.env@.len() ==> (#[trigger] r.env@[i])@ == args.env@[i]@,
        r.exclusive_device == args.exclusive_device,
        r.hop == 0,
{
    reveal_strlit("");
    assert(texts(r.argv@).len() == texts(args.argv@).len());
    assert(texts(r.env@).len() == texts(args.env@).len());
    assert forall|i: int| 0 <= i < r.argv@.len() implies (#[trigger] r.argv@[i])@
        == args.argv@[i]@ by {
        assert(texts(r.argv@)[i] == texts(args.argv@)[i]);
    }
    assert forall|i: int| 0 <= i < r.env@.len() implies (#[trigger] r.env@[i])@
        == args.env@[i]@ by {
        assert(texts(r.env@)[i] == texts(args.env@)[i]);
    }
}

/// The exit code for a child: its own code's low byte; else 128 and the signal;
/// else 1.
pub proof fn law_child_exit(code: Option<i32>, signal: Option<i32>, r: u8)
    requires
        call_ensures(child_status, (code, signal), r),
    ensures
        code matches Some(c) ==> (r - c) % 256 == 0,
        code is None ==> (signal matches Some(s) ==> (0 <= s < 128 ==> r == 128 + s)),
        code is None && signal is None ==> r == 1,
{
    let c = if code is Some {
        code->Some_0
    } else {
        0
    };
    law_child_status(c, 0, signal);
}

/// What the daemon's replies do: output goes where it belongs and is passed on as
/// it is, the child's end is remembered, a refusal is a spawn that failed.
pub proof fn law_reply_taken(s: &mut Session, reply: Reply, r: Result<Option<Output>, CliErr>)
    requires
        call_ensures(Session::on_reply, (s, reply), r),
    ensures
        reply matches Reply::Stdio { stream, data } ==> (stream !is Stdin ==> (r matches Ok(Some(o))
            && o.data@ == data@ && (o.to_stderr <==> stream is Stderr))),
        reply matches Reply::Stdio { stream, .. } ==> (stream is Stdin ==> (r matches Ok(None))),
        reply matches Reply::Deny(m) ==> (r matches Err(e) && e@ == CliErrView::Spawn(m@)),
        reply matches Reply::Malformed(m) ==> (r matches Err(e) && e@ == CliErrView::Other(m@)),
        reply is Ack || reply is Unknown || reply is Exit ==> (r matches Ok(None)),
        reply matches Reply::Exit { code, signal } ==> final(s).exit_code is Some && (code
            matches Some(c) ==> (0 <= c < 256 ==> final(s).exit_code == Some(c as u8))) && (code
            is None ==> (signal matches Some(n) ==> (0 <= n < 128 ==> final(s).exit_code == Some(
            (128 + n) as u8,
        )))),
        !(reply is Exit) ==> final(s).exit_code == old(s).exit_code,
{
}

/// When the daemon closes the connection the command ends as the child did, or has
/// failed where that is not known.
pub proof fn law_session_closed(s: &Session, e: CliErr)
    requires
        call_ensures(Session::on_close, (s,), e),
    ensures
        s.exit_code matches Some(c) ==> e@ == CliErrView::Exit(c),
        s.exit_code is None ==> e@ is Other,
{
}

/// The exit code of an error, and what is said of it.
pub proof fn law_error_shown(e: &CliErr, c: u8, t: Option<String>)
    requires
        call_ensures(CliErr::exit_code, (e,), c),
        call_ensures(CliErr::complaint, (e,), t),
    ensures
        e@ matches CliErrView::Exit(x) ==> c == x && t is None,
        e@ is Spawn ==> c == 2,
        e@ is Usage || e@ is Other ==> c == 1,
        t is None <==> e@ is Exit,
        e@ matches CliErrView::Usage(m) ==> (t matches Some(s) && strip(s@, "classic: "@) == Some(
            m,
        )),
        e@ matches CliErrView::Other(m) ==> (t matches Some(s) && strip(s@, "classic: "@) == Some(
            m,
        )),
        e@ matches CliErrView::Spawn(m) ==> (t matches Some(s) && strip(
            s@,
            "classic: spawn failed: "@,
        ) == Some(m)),
{
    match e@ {
        CliErrView::Usage(m) => law_strip("classic: "@, m, Seq::empty()),
        CliErrView::Other(m) => law_strip("classic: "@, m, Seq::empty()),
        CliErrView::Spawn(m) => law_strip("classic: spawn failed: "@, m, Seq::empty()),
        CliErrView::Exit(_) => {},
    }
}

/// A line of the listing: the hostname, the generation and the number of GPUs.
pub proof fn law_listing_line(
    hostname: Option<String>,
    generation: Option<u64>,
    gpus: Option<usize>,
    s: String,
)
    requires
        call_ensures(ad_line, (hostname, generation, gpus), s),
        hostname matches Some(h) ==> solid(h@),
    ensures
        words(s@).len() == 3,
        hostname matches Some(h) ==> words(s@)[0] == h@,
        hostname is None ==> words(s@)[0] == seq!['?'],
        generation matches Some(g) ==> words(s@)[1] == seq!['g', 'e', 'n', '='] + dec(g as nat),
        generation is None ==> words(s@)[1] == seq!['g', 'e', 'n', '='] + dec(0),
        gpus matches Some(n) ==> words(s@)[2] == seq!['g', 'p', 'u', 's', '='] + dec(n as nat),
        gpus is None ==> words(s@)[2] == seq!['g', 'p', 'u', 's', '='] + dec(0),
{
    law_ad_line(
        match hostname {
            Some(h) => Some(h@),
            None => None,
        },
        generation,
        gpus,
    );
}

/// An ad that is asked for is printed, in JSON even where there is none; else its
/// absence is reported by hostname, as a spawn that failed.
pub proof fn law_shown(hostname: &str, json: bool, null: bool, r: Show)
    requires
        call_ensures(ad_show, (hostname, json, null), r),
    ensures
        r is Print <==> json || !null,
        r matches Show::Missing { notice, error } ==> notice@
            == "classic: no ad found for hostname '"@ + hostname@ + "'"@ && error@
            == CliErrView::Spawn("no ad for "@ + hostname@),
{
}

/// Where there are no ads the listing says so.
pub proof fn law_no_ads(s: String)
    requires
        call_ensures(no_ads_line, (), s),
    ensures
        s@ == "(no ads)"@,
{
}

/// A text is padded with spaces to the width.
pub proof fn law_pad(s: &str, w: usize, r: String)
    requires
        call_ensures(pad, (s, w), r),
    ensures
        r@.len() == if s@.len() >= w {
            s@.len()
        } else {
            w as nat
        },
        r@.take(s@.len() as int) == s@,
        forall|k: int| s@.len() <= k < r@.len() ==> #[trigger] r@[k] == ' ',
{
    law_padded(s@, w as nat);
}

/// The placement sees a node as its ad tells of it: its cores, its memory, its
/// load and its GPUs, each busy from a utilization of 50 percent on.
pub proof fn law_adapted(ad: &NodeAd, out: PlaceAd)
    requires
        call_ensures(adapt_ad, (ad,), out),
    ensures
        out.node_id == ad.node_id,
        out.hostname@ == ad.hostname@,
        out.gen == ad.generation,
        out.cores == ad.cpu.cores_online,
        out.threads == ad.cpu.cores_online,
        out.arch@ == ad.cpu.arch@,
        out.model@ == ad.cpu.model@,
        out.total_mb == ad.mem.total_mb,
        out.free_mb == ad.mem.available_mb,
        out.cpu_pct == ad.load.cpu_pct,
        out.mem_pct == ad.load.mem_pct,
        out.load_1m_milli == ad.load.loadavg_1m,
        out.gpu@.len() == ad.gpus@.len(),
        forall|i: int|
            0 <= i < ad.gpus@.len() ==> {
                let p = #[trigger] out.gpu@[i];
                let g = ad.gpus@[i];
                &&& p.index == g.index
                &&& p.vendor == g.pci_vendor
                &&& p.device == g.pci_device
                &&& p.model@ == g.name@
                &&& p.vram_mb == g.vram_total_mb
                &&& p.vram_free_mb == g.vram_free_mb
                &&& p.sm_count == 0
                &&& p.in_use <==> g.utilization_pct >= 50
                &&& !p.mig
            },
{
}

/// A node is shown by the leading 48 bits of its id, in hexadecimal.
pub proof fn law_node_shown(n: &NodeId, s: String)
    requires
        call_ensures(format_node_id, (n,), s),
    ensures
        s@.len() == 12,
        digits_value(s@, 16) == Some((n.0 / 0x1_0000_0000_0000_0000_0000) as nat),
{
    law_short_id(*n);
}

/// An assignment is shown by the member's label and the node; several one below
/// the other, in order.
pub proof fn law_assignments_shown(
    placement: &Vec<(String, NodeId)>,
    lines: Vec<String>,
    i: int,
)
    requires
        call_ensures(assignment_lines, (placement,), lines),
        0 <= i < placement@.len(),
    ensures
        lines@.len() == placement@.len(),
        strip(lines@[i]@, placement@[i].0@ + "  -> "@) matches Some(t) && digits_value(t, 16)
            == Some((placement@[i].1.0 / 0x1_0000_0000_0000_0000_0000) as nat),
{
    let (label, node) = placement@[i];
    law_short_id(node);
    law_strip(label@ + "  -> "@, crate::cli::submit::short_id(node), Seq::empty());
    assert(lines@[i]@ == label@ + "  -> "@ + crate::cli::submit::short_id(node));
}

/// One assignment.
pub proof fn law_assignment_shown(label: &str, node: &NodeId, s: String)
    requires
        call_ensures(assignment_line, (label, node), s),
    ensures
        strip(s@, label@ + "  -> "@) matches Some(t) && t.len() == 12 && digits_value(t, 16)
            == Some((node.0 / 0x1_0000_0000_0000_0000_0000) as nat),
{
    law_short_id(*node);
    law_strip(label@ + "  -> "@, crate::cli::submit::short_id(*node), Seq::empty());
}

} // verus!

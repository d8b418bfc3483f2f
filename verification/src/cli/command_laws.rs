//! What the commands accept, print and return, told by what was typed and what
//! the daemon said.
use crate::ad::schema::GpuInfo;
use crate::cli::args::{first_bad, objection, SpawnArgs};
use crate::cli::error::{complaint, exit_code, CliErrView};
use crate::cli::group_toml::{group_error_text, GroupTomlErrorView};
use crate::cli::listing::{ad_text, padded};
use crate::cli::spawn::{closing, known, rank_text, status, Reply};
use crate::cli::submit::{gpu_adapted, short_id, submit_error_text, PlaceGpu, SubmitErrorView};
use crate::ident::NodeId;
use crate::render::{dec, hex, hex_digit};
use crate::scan::{digits_value, is_space, words};
use crate::scan_laws::{
    blank_text, hex_range, lacks, law_dec, law_hex, law_white_space, law_words,
    law_words_skip_blanks, solid,
};
use crate::text::{quoted, texts};
use vstd::prelude::*;

verus! {

/// Whether the file for the standard input is there: none is asked for, it is the
/// own one, or it exists.
pub open spec fn stdin_there(args: SpawnArgs, stdin_exists: bool) -> bool {
    args.stdin is None || args.stdin->Some_0@ == seq!['-'] || stdin_exists
}

/// Whether every entry has an equals sign.
pub open spec fn all_assign(env: Seq<Seq<char>>) -> bool {
    forall|i: int| 0 <= i < env.len() ==> !lacks(#[trigger] env[i], '=')
}

proof fn lemma_first_bad(env: Seq<Seq<char>>)
    ensures
        match first_bad(env) {
            None => all_assign(env),
            Some(e) => exists|i: int| #[trigger] first_without(env, i) && e == env[i],
        },
    decreases env.len(),
{
    if env.len() > 0 {
        let t = env.skip(1);
        lemma_first_bad(t);
        lemma_contains(env[0], '=');
        if env[0].contains('=') {
            match first_bad(t) {
                None => {
                    assert forall|i: int| 0 <= i < env.len() implies !lacks(
                        #[trigger] env[i],
                        '=',
                    ) by {
                        if i > 0 {
                            assert(t[i - 1] == env[i]);
                            assert(!lacks(t[i - 1], '='));
                        }
                    }
                },
                Some(e) => {
                    let i = choose|i: int| #[trigger] first_without(t, i) && e == t[i];
                    assert forall|j: int| 0 <= j < i + 1 implies !lacks(#[trigger] env[j], '=') by {
                        if j > 0 {
                            assert(t[j - 1] == env[j]);
                            assert(!lacks(t[j - 1], '='));
                        }
                    }
                    assert(env[i + 1] == t[i]);
                    assert(first_without(env, i + 1));
                },
            }
        } else {
            assert(first_without(env, 0));
        }
    }
}

proof fn lemma_contains(s: Seq<char>, c: char)
    ensures
        s.contains(c) <==> !lacks(s, c),
{
    if s.contains(c) {
        let k = choose|k: int| 0 <= k < s.len() && s[k] == c;
        assert(s[k] == c);
    }
}

/// Whether the entry is the first without an equals sign.
pub open spec fn first_without(env: Seq<Seq<char>>, i: int) -> bool {
    &&& 0 <= i < env.len()
    &&& lacks(env[i], '=')
    &&& forall|j: int| 0 <= j < i ==> !lacks(#[trigger] env[j], '=')
}

/// The arguments of a spawn are accepted exactly where the predicate is not blank,
/// there is a command, every environment entry has an equals sign and the file for
/// the standard input is there.
pub proof fn law_spawn_args(args: SpawnArgs, stdin_exists: bool)
    ensures
        objection(args, stdin_exists) is None <==> {
            &&& !blank_text(args.requires@)
            &&& args.argv@.len() > 0
            &&& all_assign(texts(args.env@))
            &&& stdin_there(args, stdin_exists)
        },
{
    reveal_strlit("-");
    assert("-"@ =~= seq!['-']);
    crate::ad::discovery::proc_laws::law_blank(args.requires@);
    lemma_first_bad(texts(args.env@));
}

/// An objection is to the first thing that is wrong, in this order: the predicate,
/// the command, the first bad environment entry, the file.
pub proof fn law_spawn_objections(args: SpawnArgs, stdin_exists: bool, i: int)
    ensures
        ({
            let r = objection(args, stdin_exists);
            let env = texts(args.env@);
            let blank = blank_text(args.requires@);
            let bare = args.argv@.len() == 0;
            &&& blank ==> r == Some(
                "--requires must be a non-empty predicate (use \"true\" for any node)"@,
            )
            &&& !blank && bare ==> r == Some("argv after `--` must have at least one element"@)
            &&& !blank && !bare && first_without(env, i) ==> r == Some(
                "--env entry "@ + quoted(env[i]) + " must be of the form KEY=VAL"@,
            )
            &&& !blank && !bare && all_assign(env) && !stdin_there(args, stdin_exists) ==> r
                == Some(
                "--stdin file "@ + quoted(args.stdin->Some_0@)
                    + " does not exist (use \"-\" to inherit stdin)"@,
            )
        }),
{
    reveal_strlit("-");
    assert("-"@ =~= seq!['-']);
    crate::ad::discovery::proc_laws::law_blank(args.requires@);
    let env = texts(args.env@);
    lemma_first_bad(env);
    if first_without(env, i) {
        match first_bad(env) {
            None => {
                assert(!lacks(env[i], '='));
            },
            Some(e) => {
                let j = choose|j: int| #[trigger] first_without(env, j) && e == env[j];
                if i < j {
                    assert(!lacks(env[i], '='));
                } else if j < i {
                    assert(!lacks(env[j], '='));
                }
            },
        }
    }
    if all_assign(env) && first_bad(env) is Some {
        let j = choose|j: int| #[trigger] first_without(env, j) && first_bad(env)->Some_0 == env[j];
        assert(!lacks(env[j], '='));
    }
}

/// How a command ends: 1 for a wrong use and for anything else that went wrong, 2
/// for a spawn that failed, and the child's own code without a word.
pub proof fn law_command_ends(m: Seq<char>, c: u8)
    ensures
        exit_code(CliErrView::Usage(m)) == 1,
        exit_code(CliErrView::Spawn(m)) == 2,
        exit_code(CliErrView::Other(m)) == 1,
        exit_code(CliErrView::Exit(c)) == c,
        complaint(CliErrView::Exit(c)) is None,
        complaint(CliErrView::Usage(m)) == Some("classic: "@ + m),
        complaint(CliErrView::Other(m)) == Some("classic: "@ + m),
        complaint(CliErrView::Spawn(m)) == Some("classic: "@ + ("spawn failed: "@ + m)),
{
    reveal_strlit("classic: ");
    reveal_strlit("spawn failed: ");
    reveal_strlit("classic: spawn failed: ");
    assert("classic: spawn failed: "@ + m =~= "classic: "@ + ("spawn failed: "@ + m));
}

/// A padded text starts with the text, goes on with spaces, and is as wide as
/// asked for unless the text is wider.
pub proof fn law_padded(s: Seq<char>, w: nat)
    ensures
        padded(s, w).take(s.len() as int) == s,
        blank_text(padded(s, w).skip(s.len() as int)),
        s.len() <= w ==> padded(s, w).len() == w,
        s.len() > w ==> padded(s, w) == s,
        forall|k: int| s.len() <= k < padded(s, w).len() ==> #[trigger] padded(s, w)[k] == ' ',
{
    law_white_space(' ');
    let p = padded(s, w);
    assert(p.take(s.len() as int) =~= s);
    let gap = p.skip(s.len() as int);
    assert forall|k: int| 0 <= k < gap.len() implies is_space(#[trigger] gap[k]) by {
        assert(gap[k] == ' ');
    }
}

/// A line of the listing has three words: the hostname, the generation and the
/// number of GPUs; what the daemon left out is `?` or 0.
pub proof fn law_ad_line(hostname: Option<Seq<char>>, generation: Option<u64>, gpus: Option<usize>)
    requires
        hostname matches Some(h) ==> solid(h),
    ensures
        words(ad_text(hostname, generation, gpus)) == seq![
            if hostname is Some {
                hostname->Some_0
            } else {
                seq!['?']
            },
            seq!['g', 'e', 'n', '='] + dec(
                if generation is Some {
                    generation->Some_0 as nat
                } else {
                    0
                },
            ),
            seq!['g', 'p', 'u', 's', '='] + dec(
                if gpus is Some {
                    gpus->Some_0 as nat
                } else {
                    0
                },
            ),
        ],
{
    reveal_strlit("?");
    reveal_strlit(" gen=");
    reveal_strlit(" gpus=");
    assert("?"@ =~= seq!['?']);
    let h = if hostname is Some {
        hostname->Some_0
    } else {
        seq!['?']
    };
    let g: nat = if generation is Some {
        generation->Some_0 as nat
    } else {
        0
    };
    let n: nat = if gpus is Some {
        gpus->Some_0 as nat
    } else {
        0
    };
    law_white_space('?');
    law_white_space(' ');
    let gen = seq!['g', 'e', 'n', '='] + dec(g);
    let num = seq!['g', 'p', 'u', 's', '='] + dec(n);
    lemma_solid_number(seq!['g', 'e', 'n', '='], g);
    lemma_solid_number(seq!['g', 'p', 'u', 's', '='], n);
    let gap1 = padded(h, 24).skip(h.len() as int) + seq![' '];
    let gap2 = padded(dec(g), 6).skip(dec(g).len() as int) + seq![' '];
    law_padded(h, 24);
    law_padded(dec(g), 6);
    lemma_longer_gap(padded(h, 24).skip(h.len() as int));
    lemma_longer_gap(padded(dec(g), 6).skip(dec(g).len() as int));
    let p = padded(h, 24).skip(h.len() as int);
    let q = padded(dec(g), 6).skip(dec(g).len() as int);
    lemma_three_words(h, gap1, gen, gap2, num);
    assert(padded(h, 24) =~= h + p);
    assert(padded(dec(g), 6) =~= dec(g) + q);
    assert(" gen="@ =~= seq![' '] + seq!['g', 'e', 'n', '=']);
    assert(" gpus="@ =~= seq![' '] + seq!['g', 'p', 'u', 's', '=']);
    lemma_assemble(h, p, seq!['g', 'e', 'n', '='], dec(g), q, seq!['g', 'p', 'u', 's', '='], dec(n));
}

proof fn lemma_three_words(
    a: Seq<char>,
    gap1: Seq<char>,
    b: Seq<char>,
    gap2: Seq<char>,
    c: Seq<char>,
)
    requires
        solid(a),
        solid(b),
        solid(c),
        blank_text(gap1),
        blank_text(gap2),
        gap1.len() > 0,
        gap2.len() > 0,
    ensures
        words(a + (gap1 + (b + (gap2 + c)))) == seq![a, b, c],
{
    let e = Seq::<char>::empty();
    assert(is_space(gap1[0]) && is_space(gap2[0]));
    law_words(c, e);
    assert(c + e =~= c);
    law_words_skip_blanks(gap2, c);
    law_words(b, gap2 + c);
    law_words_skip_blanks(gap1, b + (gap2 + c));
    law_words(a, gap1 + (b + (gap2 + c)));
    assert(words(a + (gap1 + (b + (gap2 + c)))) =~= seq![a, b, c]);
}

proof fn lemma_assemble(
    h: Seq<char>,
    p: Seq<char>,
    x: Seq<char>,
    d: Seq<char>,
    q: Seq<char>,
    y: Seq<char>,
    n: Seq<char>,
)
    ensures
        (h + p) + (seq![' '] + x) + (d + q) + (seq![' '] + y) + n == h + ((p + seq![' ']) + ((x + d)
            + ((q + seq![' ']) + (y + n)))),
{
    assert((h + p) + (seq![' '] + x) + (d + q) + (seq![' '] + y) + n =~= h + ((p + seq![' ']) + ((x
        + d) + ((q + seq![' ']) + (y + n)))));
}

/// The columns of a line: the hostname takes 24 characters, the generation six
/// behind its label, more only where they do not suffice, and nothing follows the
/// number of GPUs.
pub proof fn law_ad_columns(hostname: Seq<char>, generation: u64, gpus: usize)
    ensures
        ({
            let line = ad_text(Some(hostname), Some(generation), Some(gpus));
            let h = if hostname.len() > 24 {
                hostname.len() as int
            } else {
                24
            };
            let d = dec(generation as nat);
            let g = if d.len() > 6 {
                d.len() as int
            } else {
                6
            };
            &&& line.subrange(0, hostname.len() as int) == hostname
            &&& line.subrange(h, h + 5) == " gen="@
            &&& line.subrange(h + 5, h + 5 + d.len()) == d
            &&& line.subrange(h + 5 + g, h + 11 + g) == " gpus="@
            &&& line.skip(h + 11 + g) == dec(gpus as nat)
            &&& forall|k: int| hostname.len() <= k < h ==> #[trigger] line[k] == ' '
            &&& forall|k: int| h + 5 + d.len() <= k < h + 5 + g ==> #[trigger] line[k] == ' '
        }),
{
    reveal_strlit(" gen=");
    reveal_strlit(" gpus=");
    let d = dec(generation as nat);
    law_padded(hostname, 24);
    law_padded(d, 6);
    lemma_columns(
        hostname,
        padded(hostname, 24),
        " gen="@,
        d,
        padded(d, 6),
        " gpus="@,
        dec(gpus as nat),
    );
}

proof fn lemma_columns(
    host: Seq<char>,
    a: Seq<char>,
    b: Seq<char>,
    d: Seq<char>,
    c: Seq<char>,
    e: Seq<char>,
    f: Seq<char>,
)
    requires
        host.len() <= a.len(),
        a.take(host.len() as int) == host,
        b.len() == 5,
        d.len() <= c.len(),
        c.take(d.len() as int) == d,
        e.len() == 6,
        forall|k: int| host.len() <= k < a.len() ==> #[trigger] a[k] == ' ',
        forall|k: int| d.len() <= k < c.len() ==> #[trigger] c[k] == ' ',
    ensures
        ({
            let line = a + b + c + e + f;
            let h = a.len() as int;
            let g = c.len() as int;
            &&& line.subrange(0, host.len() as int) == host
            &&& line.subrange(h, h + 5) == b
            &&& line.subrange(h + 5, h + 5 + d.len()) == d
            &&& line.subrange(h + 5 + g, h + 11 + g) == e
            &&& line.skip(h + 11 + g) == f
            &&& forall|k: int| host.len() <= k < h ==> #[trigger] line[k] == ' '
            &&& forall|k: int| h + 5 + d.len() <= k < h + 5 + g ==> #[trigger] line[k] == ' '
        }),
{
    let line = a + b + c + e + f;
    let h = a.len() as int;
    let g = c.len() as int;
    assert(line.subrange(0, host.len() as int) =~= a.take(host.len() as int));
    assert(line.subrange(h, h + 5) =~= b);
    assert(line.subrange(h + 5, h + 5 + d.len()) =~= c.take(d.len() as int));
    assert(line.subrange(h + 5 + g, h + 11 + g) =~= e);
    assert(line.skip(h + 11 + g) =~= f);
    assert forall|k: int| host.len() <= k < h implies #[trigger] line[k] == ' ' by {
        assert(line[k] == a[k]);
    }
    assert forall|k: int| h + 5 + d.len() <= k < h + 5 + g implies #[trigger] line[k] == ' ' by {
        assert(line[k] == c[k - h - 5]);
    }
}

proof fn lemma_longer_gap(gap: Seq<char>)
    requires
        blank_text(gap),
    ensures
        blank_text(gap + seq![' ']),
        is_space((gap + seq![' '])[0]),
{
    law_white_space(' ');
    let g = gap + seq![' '];
    assert forall|k: int| 0 <= k < g.len() implies is_space(#[trigger] g[k]) by {
        if k < gap.len() {
            assert(g[k] == gap[k]);
        }
    }
    assert(is_space(g[0]));
}

proof fn lemma_solid_number(head: Seq<char>, n: nat)
    requires
        head == seq!['g', 'e', 'n', '='] || head == seq!['g', 'p', 'u', 's', '='],
    ensures
        solid(head + dec(n)),
{
    law_dec(n);
    let s = head + dec(n);
    law_white_space('g');
    law_white_space('e');
    law_white_space('n');
    law_white_space('p');
    law_white_space('u');
    law_white_space('s');
    law_white_space('=');
    assert forall|k: int| 0 <= k < s.len() implies !is_space(#[trigger] s[k]) by {
        if k >= head.len() {
            let c = dec(n)[k - head.len()];
            assert('0' <= c <= '9');
            law_white_space(c);
        }
    }
}

/// The exit code of a child: its own one cut to a byte where it ended by itself,
/// whatever else is said; else 128 and the signal; else 1.
pub proof fn law_child_status(c: i32, s: i32, signal: Option<i32>)
    ensures
        (status(Some(c), signal) - c) % 256 == 0,
        0 <= status(Some(c), signal) < 256,
        0 <= s < 128 ==> status(None, Some(s)) == 128 + s,
        status(None, Some(s)) >= 128,
        status(None, None) == 1,
{
}

/// A command whose daemon went away before the child ended has failed.
pub proof fn law_no_exit_known(replies: Seq<Reply>)
    requires
        forall|i: int| 0 <= i < replies.len() ==> !((#[trigger] replies[i]) is Exit),
    ensures
        known(replies) is None,
        closing(known(replies)) is Other,
        exit_code(closing(known(replies))) == 1,
    decreases replies.len(),
{
    if replies.len() > 0 {
        assert(!(replies[replies.len() - 1] is Exit));
        let init = replies.drop_last();
        assert forall|i: int| 0 <= i < init.len() implies !((#[trigger] init[i]) is Exit) by {
            assert(init[i] == replies[i]);
        }
        law_no_exit_known(init);
    }
}

/// A rank that is not given is empty.
pub proof fn law_rank(r: String)
    ensures
        rank_text(Some(r)) == r@,
        rank_text(None).len() == 0,
{
    reveal_strlit("");
}

/// The short form of a node's id: the twelve leading of its 32 hexadecimal digits.
pub proof fn law_short_id(n: NodeId)
    ensures
        short_id(n).len() == 12,
        digits_value(short_id(n), 16) == Some(
            (n.0 / 0x1_0000_0000_0000_0000_0000) as nat,
        ),
{
    law_hex(n.0 as nat, 32);
    lemma_hex_take(n.0 as nat, 12, 20);
    assert(hex_range(20) == 0x1_0000_0000_0000_0000_0000 && hex_range(12) == 0x1_0000_0000_0000) by {
        reveal_with_fuel(hex_range, 21);
    }
    let top = n.0 as nat / hex_range(20);
    law_hex(top, 12);
    assert(hex(n.0 as nat, 32).take(12) =~= hex(top, 12));
}

proof fn lemma_hex_take(n: nat, a: nat, b: nat)
    ensures
        hex(n, a + b).len() == a + b,
        hex_range(b) > 0,
        hex(n, a + b).take(a as int) == hex(n / hex_range(b), a),
    decreases b,
{
    law_hex(n, a + b);
    if b == 0 {
        assert(hex_range(0) == 1);
        assert(hex(n, a).take(a as int) =~= hex(n, a));
    } else {
        let c = (b - 1) as nat;
        lemma_hex_take(n / 16, a, c);
        assert(hex(n, a + b) =~= hex(n / 16, a + c).push(hex_digit(n % 16)));
        assert(hex(n, a + b).take(a as int) =~= hex(n / 16, a + c).take(a as int));
        assert(hex_range(b) == 16 * hex_range(c));
        vstd::arithmetic::div_mod::lemma_div_denominator(n as int, 16, hex_range(c) as int);
        assert((n / 16) / hex_range(c) == n / hex_range(b));
    }
}

/// A GPU as the placement sees it: the same device with the same memory, and in
/// use from a utilization of 50 percent on.
pub proof fn law_gpu_adapted(p: PlaceGpu, g: GpuInfo)
    requires
        gpu_adapted(p, g),
    ensures
        p.index == g.index,
        p.vendor == g.pci_vendor,
        p.device == g.pci_device,
        p.model@ == g.name@,
        p.vram_mb == g.vram_total_mb,
        p.vram_free_mb == g.vram_free_mb,
        p.in_use <==> g.utilization_pct >= 50,
        p.sm_count == 0,
        !p.mig,
{
}

/// What went wrong with a group, in words: each reason in its own, with what it is
/// about.
pub proof fn law_group_errors(s: Seq<char>, label: Seq<char>, e: GroupTomlErrorView)
    ensures
        group_error_text(GroupTomlErrorView::NotFound(s)) == "file not found: "@ + s,
        group_error_text(GroupTomlErrorView::Io(s)) == "io: "@ + s,
        group_error_text(GroupTomlErrorView::Toml(s)) == "toml: "@ + s,
        group_error_text(GroupTomlErrorView::UnknownStrategy(s)) == "strategy '"@ + s
            + "' is not one of: pack, spread"@,
        group_error_text(GroupTomlErrorView::Predicate { label, err: s })
            == "predicate for member '"@ + label + "' is invalid: "@ + s,
        group_error_text(GroupTomlErrorView::DuplicateLabel(label)) == "duplicate member label: "@
            + label,
        group_error_text(GroupTomlErrorView::Empty) == "group has no members"@,
        submit_error_text(SubmitErrorView::Toml(e)) == "submit: "@ + group_error_text(e),
        submit_error_text(SubmitErrorView::AdFetch(s)) == "submit: "@ + ("ad fetch: "@ + s),
        submit_error_text(SubmitErrorView::Place(s)) == "submit: "@ + ("placement: "@ + s),
{
    reveal_strlit("submit: ");
    reveal_strlit("ad fetch: ");
    reveal_strlit("placement: ");
    reveal_strlit("submit: ad fetch: ");
    reveal_strlit("submit: placement: ");
    assert("submit: ad fetch: "@ + s =~= "submit: "@ + ("ad fetch: "@ + s));
    assert("submit: placement: "@ + s =~= "submit: "@ + ("placement: "@ + s));
}

} // verus!

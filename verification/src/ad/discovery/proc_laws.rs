//! What the readings of `/proc` come to, told by the lines that a file is made of.
use crate::ad::discovery::cpu::{
    blank, core_key, core_of, cores, cpu_info, first_blank, first_mhz, first_text, last_number,
    packages, records, whole_mhz,
};
use crate::ad::discovery::load::{cpu_times, first_line, jiffies, numbers, sum, word_at};
use crate::ad::discovery::mem::{
    kb_or_zero, last_kb, leading_number, mem_info, mem_lines, reclaimable, tellable,
};
use crate::ad::discovery::field;
use crate::render::dec;
use crate::scan::{
    dec_u32, dec_u64, is_space, lines, split, starts_with, trim_end, trim_start, trimmed, words,
};
use crate::scan_laws::{
    blank_text, lacks, law_dec, law_dec_read, law_split_once, law_trimmed, law_white_space,
    law_words, law_words_skip_blanks, solid,
};
use vstd::prelude::*;

verus! {

/// Whether the text neither starts nor ends with white space.
pub open spec fn tight(s: Seq<char>) -> bool {
    s.len() > 0 ==> !is_space(s[0]) && !is_space(s.last())
}

/// A line gives its key and its value, whatever white space stands around them;
/// later colons belong to the value.
pub proof fn law_field(
    a: Seq<char>,
    key: Seq<char>,
    b: Seq<char>,
    c: Seq<char>,
    value: Seq<char>,
    d: Seq<char>,
)
    requires
        blank_text(a),
        blank_text(b),
        blank_text(c),
        blank_text(d),
        tight(key),
        key.len() > 0,
        lacks(key, ':'),
        tight(value),
    ensures
        field(a + key + b + seq![':'] + c + value + d) == Some((key, value)),
{
    let line = a + key + b + seq![':'] + c + value + d;
    let head = key + b;
    law_white_space(':');
    assert forall|k: int| 0 <= k < head.len() implies head[k] != ':' by {
        if k >= key.len() {
            assert(head[k] == b[k - key.len()]);
            assert(is_space(b[k - key.len()]));
        }
    }
    let e = Seq::<char>::empty();
    law_trimmed(e, key, b);
    assert(e + key + b =~= head);
    law_trimmed(c, value, e);
    assert(c + value + e =~= c + value);
    if value.len() == 0 {
        let core = head + seq![':'];
        law_trimmed(a, core, c + d);
        assert(a + core + (c + d) =~= line);
        law_split_once(head, ':', e);
        assert(core + e =~= core);
        law_trimmed(e, e, e);
        assert(e + e + e =~= e);
        assert(value =~= e);
    } else {
        let core = head + seq![':'] + (c + value);
        assert(core.last() == value.last());
        assert(core[0] == key[0]);
        law_trimmed(a, core, d);
        assert(a + core + d =~= line);
        law_split_once(head, ':', c + value);
    }
}

/// A line without a colon gives none.
pub proof fn law_no_field(line: Seq<char>)
    requires
        lacks(line, ':'),
    ensures
        field(line) is None,
{
    lemma_trimmed_within(line);
    let t = trimmed(line);
    assert forall|k: int| 0 <= k < t.len() implies t[k] != ':' by {
        assert(line.contains(t[k]));
    }
    law_split_once(t, ':', Seq::empty());
}

proof fn lemma_trimmed_within(s: Seq<char>)
    ensures
        forall|k: int| 0 <= k < trimmed(s).len() ==> s.contains(#[trigger] trimmed(s)[k]),
{
    lemma_start_within(s);
    let t = trim_start(s);
    lemma_end_within(t);
    assert forall|k: int| 0 <= k < trimmed(s).len() implies s.contains(#[trigger] trimmed(s)[k]) by {
        let i = choose|i: int| 0 <= i < t.len() && t[i] == trimmed(s)[k];
        assert(s.contains(t[i]));
    }
}

proof fn lemma_start_within(s: Seq<char>)
    ensures
        forall|k: int|
            0 <= k < trim_start(s).len() ==> s.contains(
                #[trigger] trim_start(s)[k],
            ),
    decreases s.len(),
{
    let t = trim_start(s);
    if s.len() > 0 && is_space(s[0]) {
        lemma_start_within(s.skip(1));
        assert forall|k: int| 0 <= k < t.len() implies s.contains(#[trigger] t[k]) by {
            let u = s.skip(1);
            assert(u.contains(trim_start(u)[k]));
            let i = choose|i: int| 0 <= i < u.len() && u[i] == t[k];
            assert(s[i + 1] == t[k]);
        }
    } else {
        assert forall|k: int| 0 <= k < t.len() implies s.contains(#[trigger] t[k]) by {
            assert(s[k] == t[k]);
        }
    }
}

proof fn lemma_end_within(s: Seq<char>)
    ensures
        forall|k: int|
            0 <= k < trim_end(s).len() ==> s.contains(
                #[trigger] trim_end(s)[k],
            ),
    decreases s.len(),
{
    let t = trim_end(s);
    if s.len() > 0 && is_space(s.last()) {
        lemma_end_within(s.drop_last());
        assert forall|k: int| 0 <= k < t.len() implies s.contains(#[trigger] t[k]) by {
            let u = s.drop_last();
            assert(u.contains(trim_end(u)[k]));
            let i = choose|i: int| 0 <= i < u.len() && u[i] == t[k];
            assert(s[i] == t[k]);
        }
    } else {
        assert forall|k: int| 0 <= k < t.len() implies s.contains(#[trigger] t[k]) by {
            assert(s[k] == t[k]);
        }
    }
}

/// Whether the line has the key.
pub open spec fn keyed(line: Seq<char>, key: Seq<char>) -> bool {
    field(line) matches Some((k, v)) && k == key
}

/// Whether the value starts with the number as a word of its own.
pub open spec fn leads_with(v: Seq<char>, n: u64) -> bool {
    let d = dec(n as nat);
    &&& v.len() >= d.len()
    &&& v.take(d.len() as int) == d
    &&& v.len() > d.len() ==> is_space(v[d.len() as int])
}

/// A value such as `16385020 kB` gives its number.
pub proof fn law_leading_number(v: Seq<char>, n: u64)
    requires
        leads_with(v, n),
    ensures
        leading_number(v) == n,
{
    let d = dec(n as nat);
    law_dec(n as nat);
    law_dec_read(n as nat);
    assert forall|k: int| 0 <= k < d.len() implies !is_space(#[trigger] d[k]) by {
        law_white_space(d[k]);
    }
    let rest = v.skip(d.len() as int);
    assert(v =~= d + rest);
    law_words(d, rest);
}

/// Whether the last line with the key gives the number.
pub open spec fn told_at(ls: Seq<Seq<char>>, key: Seq<char>, i: int, n: u64) -> bool {
    &&& 0 <= i < ls.len()
    &&& field(ls[i]) matches Some((k, v)) && k == key && leads_with(v, n)
    &&& forall|j: int| i < j < ls.len() ==> !keyed(#[trigger] ls[j], key)
}

/// Whether no line has the key.
pub open spec fn untold(ls: Seq<Seq<char>>, key: Seq<char>) -> bool {
    forall|j: int| 0 <= j < ls.len() ==> !keyed(#[trigger] ls[j], key)
}

/// Whether the lines give the number for the key, zero where no line has it.
pub open spec fn gives(ls: Seq<Seq<char>>, key: Seq<char>, n: u64) -> bool {
    (exists|i: int| #[trigger] told_at(ls, key, i, n)) || (untold(ls, key) && n == 0)
}

proof fn lemma_last_kb(ls: Seq<Seq<char>>, key: Seq<char>, i: int, n: u64)
    requires
        told_at(ls, key, i, n),
    ensures
        last_kb(ls, key) == Some(n),
    decreases ls.len(),
{
    if i == ls.len() - 1 {
        law_leading_number(field(ls[i])->Some_0.1, n);
    } else {
        assert(!keyed(ls[ls.len() - 1], key));
        let init = ls.drop_last();
        assert forall|j: int| i < j < init.len() implies !keyed(#[trigger] init[j], key) by {
            assert(init[j] == ls[j]);
        }
        lemma_last_kb(init, key, i, n);
    }
}

proof fn lemma_no_kb(ls: Seq<Seq<char>>, key: Seq<char>)
    requires
        untold(ls, key),
    ensures
        last_kb(ls, key) is None,
    decreases ls.len(),
{
    if ls.len() > 0 {
        assert(!keyed(ls[ls.len() - 1], key));
        let init = ls.drop_last();
        assert forall|j: int| 0 <= j < init.len() implies !keyed(#[trigger] init[j], key) by {
            assert(init[j] == ls[j]);
        }
        lemma_no_kb(init, key);
    }
}

proof fn lemma_kb(ls: Seq<Seq<char>>, key: Seq<char>, n: u64)
    requires
        gives(ls, key, n),
    ensures
        kb_or_zero(ls, key) == n,
{
    if exists|i: int| #[trigger] told_at(ls, key, i, n) {
        let i = choose|i: int| #[trigger] told_at(ls, key, i, n);
        lemma_last_kb(ls, key, i, n);
    } else {
        lemma_no_kb(ls, key);
    }
}

/// Whether a number of kilobytes makes so many whole megabytes.
pub open spec fn kb_as_mb(mb: u64, kb: int) -> bool {
    mb * 1024 <= kb < (mb + 1) * 1024
}

/// The memory is what `MemTotal` and `MemAvailable` say, in whole megabytes.
pub proof fn law_meminfo(raw: Seq<char>, total: u64, i: int, available: u64)
    requires
        gives(lines(raw), "MemTotal"@, total),
        told_at(lines(raw), "MemAvailable"@, i, available),
    ensures
        kb_as_mb(mem_info(raw).total_mb, total as int),
        kb_as_mb(mem_info(raw).available_mb, available as int),
        mem_lines(raw).total_kb == total,
        mem_lines(raw).available_kb == Some(available),
{
    lemma_kb(lines(raw), "MemTotal"@, total);
    lemma_last_kb(lines(raw), "MemAvailable"@, i, available);
}

/// Where no line says what is available, it is what is free, in buffers and
/// cached.
pub proof fn law_meminfo_without_available(
    raw: Seq<char>,
    total: u64,
    free: u64,
    buffers: u64,
    cached: u64,
)
    requires
        gives(lines(raw), "MemTotal"@, total),
        untold(lines(raw), "MemAvailable"@),
        gives(lines(raw), "MemFree"@, free),
        gives(lines(raw), "Buffers"@, buffers),
        gives(lines(raw), "Cached"@, cached),
        free + buffers + cached <= u64::MAX,
    ensures
        tellable(raw),
        kb_as_mb(mem_info(raw).total_mb, total as int),
        kb_as_mb(mem_info(raw).available_mb, free + buffers + cached),
        mem_lines(raw).available_kb is None,
        mem_lines(raw).total_kb == total,
        mem_lines(raw).free_kb == free,
        mem_lines(raw).buffers_kb == buffers,
        mem_lines(raw).cached_kb == cached,
{
    lemma_kb(lines(raw), "MemTotal"@, total);
    lemma_kb(lines(raw), "MemFree"@, free);
    lemma_kb(lines(raw), "Buffers"@, buffers);
    lemma_kb(lines(raw), "Cached"@, cached);
    lemma_no_kb(lines(raw), "MemAvailable"@);
    assert(reclaimable(raw) == free + buffers + cached);
}

/// A line is blank where it has nothing but white space.
pub proof fn law_blank(line: Seq<char>)
    ensures
        blank(line) <==> blank_text(line),
{
    if blank_text(line) {
        law_trimmed(line, Seq::empty(), Seq::empty());
        assert(line + Seq::<char>::empty() + Seq::<char>::empty() =~= line);
    } else {
        let k = choose|k: int| 0 <= k < line.len() && !is_space(#[trigger] line[k]);
        lemma_ink(line, k);
    }
}

proof fn lemma_ink(s: Seq<char>, k: int)
    requires
        0 <= k < s.len(),
        !is_space(s[k]),
    ensures
        trimmed(s).len() > 0,
    decreases s.len(),
{
    if is_space(s[0]) {
        assert(s.skip(1)[k - 1] == s[k]);
        lemma_ink(s.skip(1), k - 1);
    } else {
        lemma_ink_end(s);
    }
}

proof fn lemma_ink_end(s: Seq<char>)
    requires
        s.len() > 0,
        !is_space(s[0]),
    ensures
        trim_end(s).len() > 0,
    decreases s.len(),
{
    if is_space(s.last()) {
        assert(s.drop_last()[0] == s[0]);
        lemma_ink_end(s.drop_last());
    }
}

/// Whether none of the lines is blank.
pub open spec fn inked(ls: Seq<Seq<char>>) -> bool {
    forall|i: int| 0 <= i < ls.len() ==> !blank_text(#[trigger] ls[i])
}

/// A blank line ends a record; the records behind it are those of the rest.
pub proof fn law_records(rec: Seq<Seq<char>>, gap: Seq<char>, rest: Seq<Seq<char>>)
    requires
        inked(rec),
        blank_text(gap),
    ensures
        records(rec + seq![gap] + rest) == seq![rec] + records(rest),
        records(rec) == seq![rec],
{
    let ls = rec + seq![gap] + rest;
    let n = rec.len() as int;
    assert forall|i: int| 0 <= i < n implies !blank_text(#[trigger] ls[i]) by {
        assert(ls[i] == rec[i]);
    }
    assert(ls[n] == gap);
    lemma_first_blank(ls, n);
    lemma_first_blank(rec, n);
    assert(ls.take(n) =~= rec);
    assert(ls.skip(n + 1) =~= rest);
}

proof fn lemma_first_blank(ls: Seq<Seq<char>>, n: int)
    requires
        0 <= n <= ls.len(),
        forall|i: int| 0 <= i < n ==> !blank_text(#[trigger] ls[i]),
        n < ls.len() ==> blank_text(ls[n]),
    ensures
        first_blank(ls) == n,
    decreases n,
{
    if ls.len() > 0 {
        law_blank(ls[0]);
    }
    if n > 0 {
        let t = ls.skip(1);
        assert(!blank_text(ls[0]));
        assert forall|i: int| 0 <= i < n - 1 implies !blank_text(#[trigger] t[i]) by {
            assert(t[i] == ls[i + 1]);
        }
        lemma_first_blank(t, n - 1);
    }
}

/// Whether the first `n` lines are the first record.
pub open spec fn first_record(ls: Seq<Seq<char>>, n: int) -> bool {
    &&& 0 <= n <= ls.len()
    &&& inked(ls.take(n))
    &&& n < ls.len() ==> blank_text(ls[n])
}

proof fn lemma_first_record(ls: Seq<Seq<char>>, n: int)
    requires
        first_record(ls, n),
    ensures
        records(ls).len() > 0,
        records(ls)[0] == ls.take(n),
{
    let rec = ls.take(n);
    if n < ls.len() {
        law_records(rec, ls[n], ls.skip(n + 1));
        assert(rec + seq![ls[n]] + ls.skip(n + 1) =~= ls);
    } else {
        law_records(rec, Seq::empty(), Seq::empty());
        assert(rec =~= ls);
    }
}

/// Whether the line gives a text for the key.
pub open spec fn gives_text(line: Seq<char>, key: Seq<char>) -> bool {
    field(line) matches Some((k, v)) && k == key && v.len() > 0
}

/// Whether line `i` is the first with a text for the key, and this is the text.
pub open spec fn first_given(
    ls: Seq<Seq<char>>,
    n: int,
    key: Seq<char>,
    i: int,
    text: Seq<char>,
) -> bool {
    &&& 0 <= i < n
    &&& field(ls[i]) == Some((key, text))
    &&& text.len() > 0
    &&& forall|j: int| 0 <= j < i ==> !gives_text(#[trigger] ls[j], key)
}

proof fn lemma_first_text(rec: Seq<Seq<char>>, key: Seq<char>, i: int, text: Seq<char>)
    requires
        first_given(rec, rec.len() as int, key, i, text),
    ensures
        first_text(rec, key) == text,
    decreases rec.len(),
{
    if i > 0 {
        let t = rec.skip(1);
        assert(!gives_text(rec[0], key));
        assert(t[i - 1] == rec[i]);
        assert forall|j: int| 0 <= j < i - 1 implies !gives_text(#[trigger] t[j], key) by {
            assert(t[j] == rec[j + 1]);
        }
        lemma_first_text(t, key, i - 1, text);
    }
}

proof fn lemma_no_text(rec: Seq<Seq<char>>, key: Seq<char>)
    requires
        forall|j: int| 0 <= j < rec.len() ==> !gives_text(#[trigger] rec[j], key),
    ensures
        first_text(rec, key).len() == 0,
    decreases rec.len(),
{
    if rec.len() > 0 {
        let t = rec.skip(1);
        assert(!gives_text(rec[0], key));
        assert forall|j: int| 0 <= j < t.len() implies !gives_text(#[trigger] t[j], key) by {
            assert(t[j] == rec[j + 1]);
        }
        lemma_no_text(t, key);
    }
}

/// Model and vendor are the first texts that the first record gives for them, and
/// empty where it gives none.
pub proof fn law_cpu_texts(
    raw: Seq<char>,
    cores_online: u32,
    arch: Seq<char>,
    n: int,
    i: int,
    text: Seq<char>,
)
    requires
        first_record(lines(raw), n),
    ensures
        first_given(lines(raw), n, "model name"@, i, text) ==> cpu_info(
            raw,
            cores_online,
            arch,
        ).model == text,
        first_given(lines(raw), n, "vendor_id"@, i, text) ==> cpu_info(
            raw,
            cores_online,
            arch,
        ).vendor == text,
        (forall|j: int| 0 <= j < n ==> !gives_text(#[trigger] lines(raw)[j], "model name"@))
            ==> cpu_info(raw, cores_online, arch).model.len() == 0,
        (forall|j: int| 0 <= j < n ==> !gives_text(#[trigger] lines(raw)[j], "vendor_id"@))
            ==> cpu_info(raw, cores_online, arch).vendor.len() == 0,
        cpu_info(raw, cores_online, arch).cores_online == cores_online,
        cpu_info(raw, cores_online, arch).arch == arch,
{
    let ls = lines(raw);
    let rec = ls.take(n);
    lemma_first_record(ls, n);
    assert(forall|j: int| 0 <= j < n ==> #[trigger] rec[j] == ls[j]);
    if first_given(ls, n, "model name"@, i, text) {
        lemma_first_text(rec, "model name"@, i, text);
    }
    if first_given(ls, n, "vendor_id"@, i, text) {
        lemma_first_text(rec, "vendor_id"@, i, text);
    }
    if forall|j: int| 0 <= j < n ==> !gives_text(#[trigger] ls[j], "model name"@) {
        assert forall|j: int| 0 <= j < rec.len() implies !gives_text(
            #[trigger] rec[j],
            "model name"@,
        ) by {
            assert(rec[j] == ls[j]);
        }
        lemma_no_text(rec, "model name"@);
    }
    if forall|j: int| 0 <= j < n ==> !gives_text(#[trigger] ls[j], "vendor_id"@) {
        assert forall|j: int| 0 <= j < rec.len() implies !gives_text(
            #[trigger] rec[j],
            "vendor_id"@,
        ) by {
            assert(rec[j] == ls[j]);
        }
        lemma_no_text(rec, "vendor_id"@);
    }
}

/// A frequency counts up to its decimal point.
pub proof fn law_whole_mhz(mhz: u32, fraction: Seq<char>)
    ensures
        whole_mhz(dec(mhz as nat)) == mhz,
        whole_mhz(dec(mhz as nat) + seq!['.'] + fraction) == mhz,
{
    let d = dec(mhz as nat);
    law_dec(mhz as nat);
    law_dec_read(mhz as nat);
    assert forall|k: int| 0 <= k < d.len() implies d[k] != '.' by {
        assert('0' <= d[k] <= '9');
    }
    law_split_once(d, '.', fraction);
    assert(split(d + seq!['.'] + fraction, '.')[0] == d);
    assert(split(d, '.') =~= seq![d]);
}

/// The frequency is the first that the first record gives and that is not zero.
pub proof fn law_cpu_mhz(
    raw: Seq<char>,
    cores_online: u32,
    arch: Seq<char>,
    n: int,
    i: int,
    mhz: u32,
    fraction: Seq<char>,
)
    requires
        first_record(lines(raw), n),
        0 <= i < n,
        mhz != 0,
        ({
            ||| field(lines(raw)[i]) == Some(("cpu MHz"@, dec(mhz as nat)))
            ||| field(lines(raw)[i]) == Some(
                ("cpu MHz"@, dec(mhz as nat) + seq!['.'] + fraction),
            )
        }),
        forall|j: int| 0 <= j < i ==> !gives_mhz(#[trigger] lines(raw)[j]),
    ensures
        cpu_info(raw, cores_online, arch).mhz == mhz,
{
    let ls = lines(raw);
    let rec = ls.take(n);
    lemma_first_record(ls, n);
    law_whole_mhz(mhz, fraction);
    assert forall|j: int| 0 <= j < i implies !gives_mhz(#[trigger] rec[j]) by {
        assert(rec[j] == ls[j]);
    }
    assert(rec[i] == ls[i]);
    lemma_first_mhz(rec, i);
}

proof fn lemma_first_mhz(rec: Seq<Seq<char>>, i: int)
    requires
        0 <= i < rec.len(),
        gives_mhz(rec[i]),
        forall|j: int| 0 <= j < i ==> !gives_mhz(#[trigger] rec[j]),
    ensures
        first_mhz(rec) == whole_mhz(field(rec[i])->Some_0.1),
    decreases rec.len(),
{
    if i > 0 {
        let t = rec.skip(1);
        assert(!gives_mhz(rec[0]));
        assert(t[i - 1] == rec[i]);
        assert forall|j: int| 0 <= j < i - 1 implies !gives_mhz(#[trigger] t[j]) by {
            assert(t[j] == rec[j + 1]);
        }
        lemma_first_mhz(t, i - 1);
    }
}

/// Whether the line gives a frequency that is not zero.
pub open spec fn gives_mhz(line: Seq<char>) -> bool {
    field(line) matches Some((k, v)) && k == "cpu MHz"@ && whole_mhz(v) != 0
}

/// Where the first record gives no frequency it is zero.
pub proof fn law_cpu_no_mhz(raw: Seq<char>, cores_online: u32, arch: Seq<char>, n: int)
    requires
        first_record(lines(raw), n),
        forall|j: int| 0 <= j < n ==> !gives_mhz(#[trigger] lines(raw)[j]),
    ensures
        cpu_info(raw, cores_online, arch).mhz == 0,
{
    let ls = lines(raw);
    let rec = ls.take(n);
    lemma_first_record(ls, n);
    assert forall|j: int| 0 <= j < rec.len() implies !gives_mhz(#[trigger] rec[j]) by {
        assert(rec[j] == ls[j]);
    }
    lemma_no_mhz(rec);
}

proof fn lemma_no_mhz(rec: Seq<Seq<char>>)
    requires
        forall|j: int| 0 <= j < rec.len() ==> !gives_mhz(#[trigger] rec[j]),
    ensures
        first_mhz(rec) == 0,
    decreases rec.len(),
{
    if rec.len() > 0 {
        let t = rec.skip(1);
        assert(!gives_mhz(rec[0]));
        assert forall|j: int| 0 <= j < t.len() implies !gives_mhz(#[trigger] t[j]) by {
            assert(t[j] == rec[j + 1]);
        }
        lemma_no_mhz(t);
    }
}

/// Whether the record's last line with the key gives exactly the number.
pub open spec fn numbered_at(rec: Seq<Seq<char>>, key: Seq<char>, i: int, n: u32) -> bool {
    &&& 0 <= i < rec.len()
    &&& field(rec[i]) == Some((key, dec(n as nat)))
    &&& forall|j: int| i < j < rec.len() ==> !keyed(#[trigger] rec[j], key)
}

proof fn lemma_last_number(rec: Seq<Seq<char>>, key: Seq<char>, i: int, n: u32)
    requires
        numbered_at(rec, key, i, n),
    ensures
        last_number(rec, key) == Some(n),
    decreases rec.len(),
{
    law_dec_read(n as nat);
    if i < rec.len() - 1 {
        let init = rec.drop_last();
        assert(!keyed(rec[rec.len() - 1], key));
        assert forall|j: int| i < j < init.len() implies !keyed(#[trigger] init[j], key) by {
            assert(init[j] == rec[j]);
        }
        lemma_last_number(init, key, i, n);
    }
}

proof fn lemma_no_number(rec: Seq<Seq<char>>, key: Seq<char>)
    requires
        untold(rec, key),
    ensures
        last_number(rec, key) is None,
    decreases rec.len(),
{
    if rec.len() > 0 {
        let init = rec.drop_last();
        assert(!keyed(rec[rec.len() - 1], key));
        assert forall|j: int| 0 <= j < init.len() implies !keyed(#[trigger] init[j], key) by {
            assert(init[j] == rec[j]);
        }
        lemma_no_number(init, key);
    }
}

/// A record names its core by its package and its number in it; one that lacks
/// either names none.
pub proof fn law_core_named(rec: Seq<Seq<char>>, i: int, package: u32, j: int, core: u32)
    ensures
        numbered_at(rec, "physical id"@, i, package) && numbered_at(rec, "core id"@, j, core)
            ==> core_of(rec) == Some((package, core)),
        untold(rec, "physical id"@) || untold(rec, "core id"@) ==> core_of(rec) is None,
{
    if numbered_at(rec, "physical id"@, i, package) && numbered_at(rec, "core id"@, j, core) {
        lemma_last_number(rec, "physical id"@, i, package);
        lemma_last_number(rec, "core id"@, j, core);
    }
    if untold(rec, "physical id"@) {
        lemma_no_number(rec, "physical id"@);
    }
    if untold(rec, "core id"@) {
        lemma_no_number(rec, "core id"@);
    }
}

/// Whether some record names the core.
pub open spec fn has_core(recs: Seq<Seq<Seq<char>>>, core: (u32, u32)) -> bool {
    exists|i: int| 0 <= i < recs.len() && core_of(#[trigger] recs[i]) == Some(core)
}

/// Whether some record names a core of the package.
pub open spec fn has_package(recs: Seq<Seq<Seq<char>>>, package: u32) -> bool {
    exists|core: u32| #[trigger] has_core(recs, (package, core))
}

/// The different cores that the records name.
pub open spec fn named_cores(recs: Seq<Seq<Seq<char>>>) -> Set<(u32, u32)> {
    Set::new(|core: (u32, u32)| has_core(recs, core))
}

/// The packages of those cores.
pub open spec fn named_packages(recs: Seq<Seq<Seq<char>>>) -> Set<u32> {
    Set::new(|package: u32| has_package(recs, package))
}

proof fn lemma_has_core(recs: Seq<Seq<Seq<char>>>, core: (u32, u32))
    requires
        recs.len() > 0,
    ensures
        has_core(recs, core) <==> has_core(recs.drop_last(), core) || core_of(recs.last()) == Some(
            core,
        ),
{
    let init = recs.drop_last();
    if has_core(recs, core) {
        let i = choose|i: int| 0 <= i < recs.len() && core_of(#[trigger] recs[i]) == Some(core);
        if i < init.len() {
            assert(init[i] == recs[i]);
        }
    }
    if has_core(init, core) {
        let i = choose|i: int| 0 <= i < init.len() && core_of(#[trigger] init[i]) == Some(core);
        assert(recs[i] == init[i]);
    }
    if core_of(recs.last()) == Some(core) {
        assert(core_of(recs[recs.len() - 1]) == Some(core));
    }
}

proof fn lemma_cores(recs: Seq<Seq<Seq<char>>>)
    ensures
        named_cores(recs).finite(),
        named_cores(recs).len() == cores(recs).len(),
        cores(recs).finite(),
        forall|p: u32, c: u32|
            cores(recs).contains(#[trigger] core_key(p, c)) <==> has_core(recs, (p, c)),
    decreases recs.len(),
{
    if recs.len() == 0 {
        assert(named_cores(recs) =~= Set::empty());
    } else {
        let init = recs.drop_last();
        lemma_cores(init);
        assert forall|core: (u32, u32)| has_core(recs, core) <==> has_core(init, core) || core_of(
            recs.last(),
        ) == Some(core) by {
            lemma_has_core(recs, core);
        }
        match core_of(recs.last()) {
            Some((p, c)) => {
                assert(named_cores(recs) =~= named_cores(init).insert((p, c)));
                assert(cores(init).contains(core_key(p, c)) <==> has_core(init, (p, c)));
                assert forall|q: u32, d: u32| cores(recs).contains(
                    #[trigger] core_key(q, d),
                ) <==> has_core(recs, (q, d)) by {
                    assert(core_key(q, d) == core_key(p, c) ==> q == p && d == c);
                }
            },
            None => {
                assert(named_cores(recs) =~= named_cores(init));
            },
        }
    }
}

proof fn lemma_packages(recs: Seq<Seq<Seq<char>>>)
    ensures
        named_packages(recs) == packages(recs),
        packages(recs).finite(),
    decreases recs.len(),
{
    if recs.len() == 0 {
        assert(named_packages(recs) =~= packages(recs));
    } else {
        let init = recs.drop_last();
        lemma_packages(init);
        assert forall|p: u32| named_packages(recs).contains(p) <==> packages(recs).contains(p) by {
            if has_package(recs, p) {
                let c = choose|c: u32| #[trigger] has_core(recs, (p, c));
                lemma_has_core(recs, (p, c));
                if has_core(init, (p, c)) {
                    assert(has_package(init, p));
                    assert(named_packages(init).contains(p));
                }
            }
            if packages(recs).contains(p) {
                if named_packages(init).contains(p) {
                    let c = choose|c: u32| #[trigger] has_core(init, (p, c));
                    lemma_has_core(recs, (p, c));
                } else {
                    let c = core_of(recs.last())->Some_0.1;
                    lemma_has_core(recs, (p, c));
                }
            }
        }
        assert(named_packages(recs) =~= packages(recs));
    }
}

/// The physical cores are the different cores that the records name, the sockets
/// their packages; where none is named, the online cores and one socket.
pub proof fn law_cpu_counts(raw: Seq<char>, cores_online: u32, arch: Seq<char>)
    ensures
        ({
            let recs = records(lines(raw));
            let info = cpu_info(raw, cores_online, arch);
            &&& (forall|i: int| 0 <= i < recs.len() ==> core_of(#[trigger] recs[i]) is None)
                ==> info.cores_physical == cores_online && info.sockets == 1
            &&& (exists|i: int| 0 <= i < recs.len() && core_of(#[trigger] recs[i]) is Some)
                && named_cores(recs).len() <= u32::MAX && named_packages(recs).len() <= u32::MAX
                ==> info.cores_physical == named_cores(recs).len() && info.sockets
                == named_packages(recs).len()
        }),
{
    let recs = records(lines(raw));
    lemma_cores(recs);
    lemma_packages(recs);
    if forall|i: int| 0 <= i < recs.len() ==> core_of(#[trigger] recs[i]) is None {
        assert(named_cores(recs) =~= Set::empty());
        assert(named_packages(recs) =~= Set::empty());
    }
    if exists|i: int| 0 <= i < recs.len() && core_of(#[trigger] recs[i]) is Some {
        let i = choose|i: int| 0 <= i < recs.len() && core_of(#[trigger] recs[i]) is Some;
        let core = core_of(recs[i])->Some_0;
        assert(has_core(recs, core));
        assert(named_cores(recs).contains(core));
        assert(has_package(recs, core.0)) by {
            assert(has_core(recs, (core.0, core.1)));
        }
        assert(named_packages(recs).contains(core.0));
        assert(named_cores(recs).len() > 0) by {
            if named_cores(recs).len() == 0 {
                named_cores(recs).lemma_len0_is_empty();
            }
        }
        assert(named_packages(recs).len() > 0) by {
            if named_packages(recs).len() == 0 {
                named_packages(recs).lemma_len0_is_empty();
            }
        }
    }
}

/// The first line that starts with a text is the one found.
pub proof fn law_first_line(ls: Seq<Seq<char>>, prefix: Seq<char>, i: int)
    requires
        0 <= i < ls.len(),
        starts_with(ls[i], prefix),
        forall|j: int| 0 <= j < i ==> !starts_with(#[trigger] ls[j], prefix),
    ensures
        first_line(ls, prefix) == ls[i],
    decreases i,
{
    if i > 0 {
        let t = ls.skip(1);
        assert(!starts_with(ls[0], prefix));
        assert(t[i - 1] == ls[i]);
        assert forall|j: int| 0 <= j < i - 1 implies !starts_with(#[trigger] t[j], prefix) by {
            assert(t[j] == ls[j + 1]);
        }
        law_first_line(t, prefix, i - 1);
    }
}

/// The counters as they stand on a line, each behind a space.
pub open spec fn counters_text(ns: Seq<u64>) -> Seq<char>
    decreases ns.len(),
{
    if ns.len() == 0 {
        Seq::empty()
    } else {
        seq![' '] + dec(ns[0] as nat) + counters_text(ns.skip(1))
    }
}

proof fn lemma_counter_words(ns: Seq<u64>)
    ensures
        numbers(words(counters_text(ns))) == ns,
        counters_text(ns).len() > 0 ==> is_space(counters_text(ns)[0]),
    decreases ns.len(),
{
    law_white_space(' ');
    if ns.len() == 0 {
        assert(words(counters_text(ns)) =~= Seq::empty());
        assert(numbers(words(counters_text(ns))) =~= ns);
    } else {
        let d = dec(ns[0] as nat);
        let rest = counters_text(ns.skip(1));
        lemma_counter_words(ns.skip(1));
        law_dec(ns[0] as nat);
        law_dec_read(ns[0] as nat);
        assert forall|k: int| 0 <= k < d.len() implies !is_space(#[trigger] d[k]) by {
            law_white_space(d[k]);
        }
        law_words(d, rest);
        law_words_skip_blanks(seq![' '], d + rest);
        assert(seq![' '] + (d + rest) =~= counters_text(ns));
        lemma_numbers_front(d, words(rest));
        assert(seq![ns[0]] + ns.skip(1) =~= ns);
    }
}

proof fn lemma_numbers_front(w: Seq<char>, ws: Seq<Seq<char>>)
    requires
        dec_u64(w) is Some,
    ensures
        numbers(seq![w] + ws) == seq![dec_u64(w)->Some_0] + numbers(ws),
    decreases ws.len(),
{
    let all = seq![w] + ws;
    if ws.len() == 0 {
        assert(all.drop_last() =~= Seq::<Seq<char>>::empty());
        assert(all.last() == w);
        assert(numbers(all.drop_last()) =~= Seq::<u64>::empty());
        assert(numbers(all) =~= seq![dec_u64(w)->Some_0] + numbers(ws));
    } else {
        lemma_numbers_front(w, ws.drop_last());
        assert(all.drop_last() =~= seq![w] + ws.drop_last());
        assert(all.last() == ws.last());
        assert(numbers(all) =~= seq![dec_u64(w)->Some_0] + numbers(ws));
    }
}

/// The counters are those behind `cpu` on the first line that starts with it and a
/// space; `cpu0` and the like are other lines.
pub proof fn law_jiffies(raw: Seq<char>, i: int, ns: Seq<u64>)
    requires
        0 <= i < lines(raw).len(),
        lines(raw)[i] == seq!['c', 'p', 'u'] + counters_text(ns),
        ns.len() > 0,
        forall|j: int| 0 <= j < i ==> !starts_with(#[trigger] lines(raw)[j], "cpu "@),
    ensures
        jiffies(raw) == ns,
        cpu_times(raw).1 == sum(ns),
        cpu_times(raw).0 == (if ns.len() > 3 {
            ns[3] as nat
        } else {
            0
        }) + (if ns.len() > 4 {
            ns[4] as nat
        } else {
            0
        }),
{
    reveal_strlit("cpu ");
    let cpu = seq!['c', 'p', 'u'];
    let line = lines(raw)[i];
    let rest = counters_text(ns);
    assert("cpu "@ =~= seq!['c', 'p', 'u', ' ']);
    assert(rest[0] == ' ');
    assert(line.take(4) =~= "cpu "@);
    law_first_line(lines(raw), "cpu "@, i);
    law_white_space('c');
    law_white_space('p');
    law_white_space('u');
    lemma_counter_words(ns);
    law_words(cpu, rest);
    assert(words(line).skip(1) =~= words(rest));
}

/// A sum is that of its parts.
pub proof fn law_sum(a: Seq<u64>, n: u64, b: Seq<u64>)
    ensures
        sum(a + b) == sum(a) + sum(b),
        sum(seq![n]) == n,
        sum(Seq::empty()) == 0,
    decreases b.len(),
{
    assert(seq![n].drop_last() =~= Seq::<u64>::empty());
    assert(sum(seq![n].drop_last()) == 0);
    assert(seq![n].last() == n);
    if b.len() == 0 {
        assert(a + b =~= a);
    } else {
        law_sum(a, n, b.drop_last());
        assert((a + b).drop_last() =~= a + b.drop_last());
    }
}

/// A reading of `/proc/loadavg`: the averages are its first three words.
pub proof fn law_loadavg(a: Seq<char>, b: Seq<char>, c: Seq<char>, rest: Seq<char>)
    requires
        solid(a),
        solid(b),
        solid(c),
        rest.len() > 0 ==> is_space(rest[0]),
    ensures
        ({
            let ws = words(a + seq![' '] + b + seq![' '] + c + rest);
            &&& word_at(ws, 0) == Some(a)
            &&& word_at(ws, 1) == Some(b)
            &&& word_at(ws, 2) == Some(c)
        }),
        word_at(words(a), 1) is None,
        word_at(words(Seq::empty()), 0) is None,
{
    law_white_space(' ');
    let gap = seq![' '];
    let e = Seq::<char>::empty();
    law_words(c, rest);
    law_words_skip_blanks(gap, c + rest);
    law_words(b, gap + (c + rest));
    law_words_skip_blanks(gap, b + (gap + (c + rest)));
    law_words(a, gap + (b + (gap + (c + rest))));
    assert(a + (gap + (b + (gap + (c + rest)))) =~= a + gap + b + gap + c + rest);
    law_words(a, e);
    assert(a + e =~= a);
}

/// The last line with a key decides: where its value is no number, the record
/// names no core.
pub proof fn law_core_not_named(rec: Seq<Seq<char>>, i: int)
    requires
        0 <= i < rec.len(),
        field(rec[i]) matches Some((k, v)) && dec_u32(v) is None,
        keyed(rec[i], "physical id"@) || keyed(rec[i], "core id"@),
        forall|j: int|
            i < j < rec.len() ==> !keyed(#[trigger] rec[j], field(rec[i])->Some_0.0),
    ensures
        core_of(rec) is None,
{
    lemma_last_is_no_number(rec, field(rec[i])->Some_0.0, i);
}

proof fn lemma_last_is_no_number(rec: Seq<Seq<char>>, key: Seq<char>, i: int)
    requires
        0 <= i < rec.len(),
        keyed(rec[i], key),
        dec_u32(field(rec[i])->Some_0.1) is None,
        forall|j: int| i < j < rec.len() ==> !keyed(#[trigger] rec[j], key),
    ensures
        last_number(rec, key) is None,
    decreases rec.len(),
{
    if i < rec.len() - 1 {
        let init = rec.drop_last();
        assert(!keyed(rec[rec.len() - 1], key));
        assert forall|j: int| i < j < init.len() implies !keyed(#[trigger] init[j], key) by {
            assert(init[j] == rec[j]);
        }
        lemma_last_is_no_number(init, key, i);
    }
}

/// A value that starts with no number counts as zero.
pub proof fn law_no_leading_number(v: Seq<char>)
    ensures
        words(v).len() == 0 ==> leading_number(v) == 0,
        words(v).len() > 0 && dec_u64(words(v)[0]) is None ==> leading_number(v) == 0,
{
}

/// Of the words of a line those that are numbers count, in order; the others are
/// passed over.
pub proof fn law_numbers(ws: Seq<Seq<char>>, w: Seq<char>)
    ensures
        numbers(Seq::empty()).len() == 0,
        dec_u64(w) matches Some(n) ==> numbers(ws.push(w)) == numbers(ws).push(n),
        dec_u64(w) is None ==> numbers(ws.push(w)) == numbers(ws),
{
    assert(ws.push(w).drop_last() =~= ws);
}

/// Without such a line there are no counters, and no time went by.
pub proof fn law_no_jiffies(raw: Seq<char>)
    requires
        forall|j: int|
            0 <= j < lines(raw).len() ==> !starts_with(#[trigger] lines(raw)[j], "cpu "@),
    ensures
        jiffies(raw).len() == 0,
        cpu_times(raw) == (0nat, 0nat),
{
    lemma_no_line(lines(raw), "cpu "@);
    assert(words(Seq::<char>::empty()).len() == 0);
}

proof fn lemma_no_line(ls: Seq<Seq<char>>, prefix: Seq<char>)
    requires
        forall|j: int| 0 <= j < ls.len() ==> !starts_with(#[trigger] ls[j], prefix),
    ensures
        first_line(ls, prefix) == Seq::<char>::empty(),
    decreases ls.len(),
{
    if ls.len() > 0 {
        let t = ls.skip(1);
        assert(!starts_with(ls[0], prefix));
        assert forall|j: int| 0 <= j < t.len() implies !starts_with(#[trigger] t[j], prefix) by {
            assert(t[j] == ls[j + 1]);
        }
        lemma_no_line(t, prefix);
    }
}

} // verus!

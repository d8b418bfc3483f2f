//! Memory probe for `/proc/meminfo`. Falls back to `MemFree + Buffers + Cached`
//! when `MemAvailable` is missing (pre-3.14 kernels).
use crate::ad::discovery::{field, field_of, file_text, read_string};
use crate::ad::schema::{MemInfo, MemInfoView};
use crate::scan::{dec_u64, first_word, lines, parse_u64, pieces, split_lines, split_words};
use crate::text::spells;
use vstd::prelude::*;

verus! {

/// The number that a value such as `16385020 kB` starts with, or zero.
pub open spec fn leading_number(v: Seq<char>) -> u64 {
    match first_word(v) {
        Some(w) => match dec_u64(w) {
            Some(n) => n,
            None => 0,
        },
        None => 0,
    }
}

/// The number on the last line with the key.
pub open spec fn last_kb(ls: Seq<Seq<char>>, key: Seq<char>) -> Option<u64>
    decreases ls.len(),
{
    if ls.len() == 0 {
        None
    } else {
        match field(ls.last()) {
            Some((k, v)) => if k == key {
                Some(leading_number(v))
            } else {
                last_kb(ls.drop_last(), key)
            },
            None => last_kb(ls.drop_last(), key),
        }
    }
}

/// The same, zero where there is no such line.
pub open spec fn kb_or_zero(ls: Seq<Seq<char>>, key: Seq<char>) -> u64 {
    match last_kb(ls, key) {
        Some(n) => n,
        None => 0,
    }
}

/// What is free in one way or another, where the kernel does not say what is
/// available.
pub open spec fn reclaimable(raw: Seq<char>) -> nat {
    let ls = lines(raw);
    (kb_or_zero(ls, "MemFree"@) + kb_or_zero(ls, "Buffers"@) + kb_or_zero(ls, "Cached"@)) as nat
}

/// Whether the available memory can be told.
pub open spec fn tellable(raw: Seq<char>) -> bool {
    last_kb(lines(raw), "MemAvailable"@) is None ==> reclaimable(raw) <= u64::MAX
}

/// What the text of `/proc/meminfo` says, in whole megabytes.
pub open spec fn mem_info(raw: Seq<char>) -> MemInfoView {
    let available = match last_kb(lines(raw), "MemAvailable"@) {
        Some(n) => n as nat,
        None => reclaimable(raw),
    };
    MemInfoView {
        total_mb: (kb_or_zero(lines(raw), "MemTotal"@) / 1024) as u64,
        available_mb: (available / 1024) as u64,
    }
}

/// The lines of `/proc/meminfo` that count, in kilobytes.
#[derive(Copy, Clone, Debug, PartialEq, Eq, Structural)]
pub struct MemLines {
    pub total_kb: u64,
    pub available_kb: Option<u64>,
    pub free_kb: u64,
    pub buffers_kb: u64,
    pub cached_kb: u64,
}

/// What [`read_lines`] finds in the text.
pub open spec fn mem_lines(raw: Seq<char>) -> MemLines {
    let ls = lines(raw);
    MemLines {
        total_kb: kb_or_zero(ls, "MemTotal"@),
        available_kb: last_kb(ls, "MemAvailable"@),
        free_kb: kb_or_zero(ls, "MemFree"@),
        buffers_kb: kb_or_zero(ls, "Buffers"@),
        cached_kb: kb_or_zero(ls, "Cached"@),
    }
}

/// The number that a value starts with, or zero.
pub fn read_leading(v: &Vec<char>) -> (n: u64)
    ensures
        n == leading_number(v@),
{
    let ws = split_words(v);
    if ws.len() == 0 {
        return 0;
    }
    assert(pieces(ws@)[0] == ws@[0]@);
    match parse_u64(&ws[0]) {
        Some(n) => n,
        None => 0,
    }
}

fn find_kb(ls: &Vec<Vec<char>>, key: &str) -> (r: Option<u64>)
    ensures
        r == last_kb(pieces(ls@), key@),
{
    let ghost all = pieces(ls@);
    let mut i: usize = ls.len();
    assert(all.take(i as int) =~= all);
    while i > 0
        invariant
            i <= ls@.len(),
            all == pieces(ls@),
            last_kb(all, key@) == last_kb(all.take(i as int), key@),
        decreases i,
    {
        i = i - 1;
        let ghost now = all.take(i + 1);
        assert(now.last() == ls@[i as int]@);
        assert(now.drop_last() =~= all.take(i as int));
        if let Some((k, v)) = field_of(&ls[i]) {
            if spells(&k, key) {
                return Some(read_leading(&v));
            }
        }
    }
    None
}

fn find_or_zero(ls: &Vec<Vec<char>>, key: &str) -> (n: u64)
    ensures
        n == kb_or_zero(pieces(ls@), key@),
{
    match find_kb(ls, key) {
        Some(n) => n,
        None => 0,
    }
}

/// Reads the lines that count.
pub fn read_lines(raw: &Vec<char>) -> (r: MemLines)
    ensures
        r == mem_lines(raw@),
{
    let ls = split_lines(raw);
    MemLines {
        total_kb: find_or_zero(&ls, "MemTotal"),
        available_kb: find_kb(&ls, "MemAvailable"),
        free_kb: find_or_zero(&ls, "MemFree"),
        buffers_kb: find_or_zero(&ls, "Buffers"),
        cached_kb: find_or_zero(&ls, "Cached"),
    }
}

/// Reads the text of `/proc/meminfo`.
pub fn parse(raw: &Vec<char>) -> (r: MemInfo)
    requires
        tellable(raw@),
    ensures
        r@ == mem_info(raw@),
{
    let m = read_lines(raw);
    let available_kb: u64 = match m.available_kb {
        Some(n) => n,
        None => m.free_kb + m.buffers_kb + m.cached_kb,
    };
    MemInfo { total_mb: m.total_kb / 1024, available_mb: available_kb / 1024 }
}

/// What the content of `/proc/meminfo` says, if it is text.
pub fn probe(content: &[u8]) -> (r: Option<MemInfo>)
    requires
        file_text(content@) matches Some(raw) ==> tellable(raw),
    ensures
        match file_text(content@) {
            None => r is None,
            Some(raw) => r is Some && r->Some_0@ == mem_info(raw),
        },
{
    match read_string(content) {
        None => None,
        Some(raw) => Some(parse(&raw)),
    }
}

/// Whether the sizes on the lines of `/proc/meminfo` can be added up.
pub fn probe_fits(content: &[u8]) -> (r: bool)
    ensures
        r == (file_text(content@) matches Some(raw) ==> tellable(raw)),
{
    match read_string(content) {
        None => true,
        Some(raw) => {
            let m = read_lines(&raw);
            m.available_kb.is_some() || m.free_kb as u128 + m.buffers_kb as u128
                + m.cached_kb as u128 <= u64::MAX as u128
        },
    }
}

/// How much of the memory is in use, in whole percent.
pub open spec fn mem_pct_of(m: MemInfoView) -> u32 {
    if m.total_mb == 0 || m.available_mb >= m.total_mb {
        0
    } else {
        ((m.total_mb - m.available_mb) * 100 / m.total_mb as int) as u32
    }
}

/// How much of the memory is in use, in whole percent.
pub fn mem_pct(m: &MemInfo) -> (r: u32)
    ensures
        r == mem_pct_of(m@),
        r <= 100,
{
    if m.total_mb == 0 || m.available_mb >= m.total_mb {
        return 0;
    }
    let used: u128 = (m.total_mb - m.available_mb) as u128;
    let total: u128 = m.total_mb as u128;
    assert(used * 100 / (total as int) <= 100) by (nonlinear_arith)
        requires
            0 < total,
            0 <= used <= total,
    ;
    (used * 100 / total) as u32
}

} // verus!

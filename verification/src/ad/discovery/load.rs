//! Load and CPU-utilisation probe. `/proc/loadavg` is single-shot; CPU percent
//! requires comparing two `/proc/stat` snapshots so the probe carries a small
//! amount of state across calls.
use crate::ad::schema::{LoadSample, LoadSampleView};
use crate::scan::{
    dec_u64, lines, parse_u64, pieces, split_lines, split_words, stands_at, starts_with, words,
};
use crate::text::{chars_of, text_of};
use vstd::prelude::*;

verus! {

/// The `n`-th word, if there are so many.
pub open spec fn word_at(ws: Seq<Seq<char>>, n: int) -> Option<Seq<char>> {
    if 0 <= n < ws.len() {
        Some(ws[n])
    } else {
        None
    }
}

/// Whether an optional text is the expected one.
pub open spec fn is_text(r: Option<String>, want: Option<Seq<char>>) -> bool {
    match want {
        None => r is None,
        Some(t) => r is Some && r->Some_0@ == t,
    }
}

fn nth_text(ws: &Vec<Vec<char>>, n: usize) -> (r: Option<String>)
    ensures
        is_text(r, word_at(pieces(ws@), n as int)),
{
    if n < ws.len() {
        assert(pieces(ws@)[n as int] == ws@[n as int]@);
        Some(text_of(&ws[n]))
    } else {
        None
    }
}

/// The 1/5/15-minute fields of `/proc/loadavg`, as they are written there.
pub fn parse_loadavg(raw: &str) -> (r: (Option<String>, Option<String>, Option<String>))
    ensures
        is_text(r.0, word_at(words(raw@), 0)),
        is_text(r.1, word_at(words(raw@), 1)),
        is_text(r.2, word_at(words(raw@), 2)),
{
    let ws = split_words(&chars_of(raw));
    (nth_text(&ws, 0), nth_text(&ws, 1), nth_text(&ws, 2))
}

/// The first line that starts with the prefix, or an empty one.
pub open spec fn first_line(ls: Seq<Seq<char>>, prefix: Seq<char>) -> Seq<char>
    decreases ls.len(),
{
    if ls.len() == 0 {
        Seq::empty()
    } else if starts_with(ls[0], prefix) {
        ls[0]
    } else {
        first_line(ls.skip(1), prefix)
    }
}

/// The words that are numbers.
pub open spec fn numbers(ws: Seq<Seq<char>>) -> Seq<u64>
    decreases ws.len(),
{
    if ws.len() == 0 {
        Seq::empty()
    } else {
        match dec_u64(ws.last()) {
            Some(n) => numbers(ws.drop_last()).push(n),
            None => numbers(ws.drop_last()),
        }
    }
}

/// The sum of the numbers.
pub open spec fn sum(ns: Seq<u64>) -> nat
    decreases ns.len(),
{
    if ns.len() == 0 {
        0
    } else {
        sum(ns.drop_last()) + ns.last() as nat
    }
}

/// The counters on the aggregate line of `/proc/stat`: user, nice, system,
/// idle, iowait, irq, softirq, steal, guest, guest_nice.
pub open spec fn jiffies(raw: Seq<char>) -> Seq<u64> {
    let ws = words(first_line(lines(raw), "cpu "@));
    if ws.len() == 0 {
        Seq::empty()
    } else {
        numbers(ws.skip(1))
    }
}

/// The `n`-th counter, or zero.
pub open spec fn counter(ns: Seq<u64>, n: int) -> nat {
    if 0 <= n < ns.len() {
        ns[n] as nat
    } else {
        0
    }
}

/// The idle and the total time: idle counts idle and iowait.
pub open spec fn cpu_times(raw: Seq<char>) -> (nat, nat) {
    let ns = jiffies(raw);
    (counter(ns, 3) + counter(ns, 4), sum(ns))
}

proof fn lemma_sum_grows(ns: Seq<u64>, k: int)
    requires
        0 <= k <= ns.len(),
    ensures
        sum(ns.take(k)) <= sum(ns),
    decreases ns.len() - k,
{
    if k < ns.len() {
        assert(ns.take(k + 1).drop_last() =~= ns.take(k));
        lemma_sum_grows(ns, k + 1);
    } else {
        assert(ns.take(k) =~= ns);
    }
}

/// Idle time is part of the total.
pub proof fn lemma_idle_in_total(ns: Seq<u64>)
    ensures
        counter(ns, 3) + counter(ns, 4) <= sum(ns),
{
    reveal_with_fuel(sum, 3);
    if ns.len() > 4 {
        lemma_sum_grows(ns, 5);
        assert(ns.take(5).drop_last() =~= ns.take(4));
        assert(ns.take(4).drop_last() =~= ns.take(3));
    } else if ns.len() > 3 {
        lemma_sum_grows(ns, 4);
        assert(ns.take(4).drop_last() =~= ns.take(3));
    }
}

fn find_line(ls: &Vec<Vec<char>>, prefix: &Vec<char>) -> (r: Vec<char>)
    ensures
        r@ == first_line(pieces(ls@), prefix@),
{
    let ghost all = pieces(ls@);
    let mut i: usize = 0;
    assert(all.skip(0) =~= all);
    while i < ls.len()
        invariant
            i <= ls@.len(),
            all == pieces(ls@),
            first_line(all, prefix@) == first_line(all.skip(i as int), prefix@),
        decreases ls@.len() - i,
    {
        assert(all.skip(i as int)[0] == ls@[i as int]@);
        assert(all.skip(i as int).skip(1) =~= all.skip(i + 1));
        assert(ls@[i as int]@.skip(0) =~= ls@[i as int]@);
        if stands_at(&ls[i], 0, prefix) {
            return ls[i].clone();
        }
        i = i + 1;
    }
    Vec::new()
}

/// The counters on the aggregate line of `/proc/stat`.
pub fn read_jiffies(raw: &str) -> (r: Vec<u64>)
    ensures
        r@ == jiffies(raw@),
{
    let ls = split_lines(&chars_of(raw));
    let line = find_line(&ls, &chars_of("cpu "));
    let ws = split_words(&line);
    let ghost all = pieces(ws@);
    let mut out: Vec<u64> = Vec::new();
    let mut i: usize = 1;
    if ws.len() == 0 {
        return out;
    }
    let ghost rest = all.skip(1);
    assert(rest.take(0) =~= Seq::empty());
    while i < ws.len()
        invariant
            1 <= i <= ws@.len(),
            all == pieces(ws@),
            rest == all.skip(1),
            out@ == numbers(rest.take(i - 1)),
        decreases ws@.len() - i,
    {
        assert(rest.take(i as int).drop_last() =~= rest.take(i - 1));
        assert(rest.take(i as int).last() == ws@[i as int]@);
        if let Some(n) = parse_u64(&ws[i]) {
            out.push(n);
        }
        i = i + 1;
    }
    assert(rest.take(i - 1) =~= rest);
    out
}

/// Parse the cpu aggregate line of `/proc/stat`: `(idle_jiffies,
/// total_jiffies)`.
pub fn parse_stat(raw: &str) -> (r: (u64, u64))
    requires
        cpu_times(raw@).1 <= u64::MAX,
    ensures
        r.0 as nat == cpu_times(raw@).0,
        r.1 as nat == cpu_times(raw@).1,
{
    let ns = read_jiffies(raw);
    let mut total: u64 = 0;
    let mut i: usize = 0;
    assert(ns@.take(0) =~= Seq::empty());
    while i < ns.len()
        invariant
            i <= ns@.len(),
            sum(ns@) <= u64::MAX,
            total as nat == sum(ns@.take(i as int)),
        decreases ns@.len() - i,
    {
        proof {
            assert(ns@.take(i + 1).drop_last() =~= ns@.take(i as int));
            lemma_sum_grows(ns@, i + 1);
        }
        total = total + ns[i];
        i = i + 1;
    }
    assert(ns@.take(i as int) =~= ns@);
    proof {
        lemma_idle_in_total(ns@);
    }
    let idle: u64 = if ns.len() > 3 {
        ns[3]
    } else {
        0
    };
    let iowait: u64 = if ns.len() > 4 {
        ns[4]
    } else {
        0
    };
    (idle + iowait, total)
}

/// Whether the counters on the aggregate line can be added up.
pub fn stat_fits(raw: &str) -> (r: bool)
    ensures
        r == (cpu_times(raw@).1 <= u64::MAX),
{
    let ns = read_jiffies(raw);
    let mut total: u64 = 0;
    let mut i: usize = 0;
    assert(ns@.take(0) =~= Seq::empty());
    while i < ns.len()
        invariant
            i <= ns@.len(),
            total as nat == sum(ns@.take(i as int)),
            ns@ == jiffies(raw@),
        decreases ns@.len() - i,
    {
        assert(ns@.take(i + 1).drop_last() =~= ns@.take(i as int));
        match total.checked_add(ns[i]) {
            Some(t) => {
                total = t;
            },
            None => {
                proof {
                    lemma_sum_grows(ns@, i + 1);
                }
                return false;
            },
        }
        i = i + 1;
    }
    assert(ns@.take(i as int) =~= ns@);
    true
}

/// How far a counter got; a counter that went back got nowhere.
pub open spec fn progress(prev: u64, now: u64) -> nat {
    if now >= prev {
        (now - prev) as nat
    } else {
        0
    }
}

/// Whether no more idle time than time in all went by between two snapshots of
/// `(idle, total)`.
pub open spec fn steady(prev: (u64, u64), now: (u64, u64)) -> bool {
    progress(prev.1, now.1) == 0 || progress(prev.0, now.0) <= progress(prev.1, now.1)
}

/// How busy the processors were between two snapshots, in whole percent.
pub open spec fn busy_pct(prev: (u64, u64), now: (u64, u64)) -> u32 {
    let idle = progress(prev.0, now.0);
    let total = progress(prev.1, now.1);
    if total == 0 {
        0
    } else {
        ((total - idle) * 100 / total as int) as u32
    }
}

/// Whether two snapshots can be compared.
pub fn is_steady(prev: (u64, u64), now: (u64, u64)) -> (r: bool)
    ensures
        r == steady(prev, now),
{
    let idle: u64 = now.0.saturating_sub(prev.0);
    let total: u64 = now.1.saturating_sub(prev.1);
    total == 0 || idle <= total
}

/// How busy the processors were between two snapshots, in whole percent.
pub fn delta_pct(prev: (u64, u64), now: (u64, u64)) -> (r: u32)
    requires
        steady(prev, now),
    ensures
        r == busy_pct(prev, now),
        r <= 100,
{
    let idle: u64 = now.0.saturating_sub(prev.0);
    let total: u64 = now.1.saturating_sub(prev.1);
    if total == 0 {
        return 0;
    }
    let busy: u128 = (total - idle) as u128;
    let all: u128 = total as u128;
    assert(busy * 100 / (all as int) <= 100) by (nonlinear_arith)
        requires
            0 < all,
            0 <= busy <= all,
    ;
    (busy * 100 / all) as u32
}

/// The load probe: it remembers the last `/proc/stat` snapshot.
#[derive(Copy, Clone, Debug, PartialEq, Eq)]
pub struct LoadProbe {
    /// `(idle, total)` from the most recent `/proc/stat` cpu line.
    pub last: Option<(u64, u64)>,
}

/// What was read for one load sample.
#[derive(Copy, Clone, Debug, PartialEq, Eq)]
pub struct LoadReading {
    /// The load averages, times 1000.
    pub loadavg: (u32, u32, u32),
    /// `(idle, total)` jiffies.
    pub times: (u64, u64),
}

/// The sample that a reading gives.
pub open spec fn load_sample(
    last: Option<(u64, u64)>,
    r: LoadReading,
    mem_pct: u32,
    task_count: u32,
) -> LoadSampleView {
    LoadSampleView {
        loadavg_1m: r.loadavg.0,
        loadavg_5m: r.loadavg.1,
        loadavg_15m: r.loadavg.2,
        cpu_pct: match last {
            Some(prev) => busy_pct(prev, r.times),
            None => 0,
        },
        mem_pct,
        task_count,
    }
}

impl LoadProbe {
    pub fn new() -> (p: Self)
        ensures
            p.last is None,
    {
        LoadProbe { last: None }
    }

    /// One sample. The first one has no baseline, so its CPU percentage is
    /// zero.
    pub fn sample(&mut self, r: LoadReading, mem_pct: u32, task_count: u32) -> (s: LoadSample)
        requires
            old(self).last matches Some(prev) ==> steady(prev, r.times),
        ensures
            final(self).last == Some(r.times),
            s@ == load_sample(old(self).last, r, mem_pct, task_count),
    {
        let cpu_pct: u32 = match self.last {
            Some(prev) => delta_pct(prev, r.times),
            None => 0,
        };
        self.last = Some(r.times);
        LoadSample {
            loadavg_1m: r.loadavg.0,
            loadavg_5m: r.loadavg.1,
            loadavg_15m: r.loadavg.2,
            cpu_pct,
            mem_pct,
            task_count,
        }
    }
}

impl Default for LoadProbe {
    fn default() -> (p: Self)
        ensures
            p.last is None,
    {
        LoadProbe::new()
    }
}

} // verus!

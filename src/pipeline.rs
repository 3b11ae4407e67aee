//! The knobs and bookkeeping of the streaming stage: how many elements are
//! transformed together, how many finished batches may wait for the writer,
//! and when the writer reports progress.
//!
//! The queue capacity is the main control on memory: at most that many
//! batches of at most `CHUNK_SIZE` records are held at once, whatever the
//! size of the input.

use vstd::prelude::*;
use crate::filter::{char_is_space, chars_of, is_space, split_char, split_on, starts_with};

verus! {

/// Elements transformed together in one parallel batch.
pub const CHUNK_SIZE: usize = 10_000;

/// Finished batches the output queue holds before senders wait.
pub const OUTPUT_QUEUE_CAPACITY: usize = 1000;

/// Written batches between two progress reports.
pub const REPORT_INTERVAL_BATCHES: u64 = 100;

/// Transformed batches between two memory checks by the producer.
pub const MEMORY_CHECK_INTERVAL: u64 = 50;

/// Resident memory, in MiB, above which the producer pauses briefly.
pub const MEMORY_LIMIT_MB: u64 = 8192;

/// `a + b`, or `u64::MAX` when that does not fit.
pub open spec fn saturating(a: int, b: int) -> int {
    if a + b > u64::MAX {
        u64::MAX as int
    } else {
        a + b
    }
}

fn saturating_add(a: u64, b: u64) -> (r: u64)
    ensures
        r == saturating(a as int, b as int),
{
    if a > u64::MAX - b {
        u64::MAX
    } else {
        a + b
    }
}

/// What the writer has written so far.
#[derive(Clone, Copy, Debug, PartialEq, Eq, Structural)]
pub struct SinkProgress {
    pub batches: u64,
    pub features: u64,
}

impl SinkProgress {
    /// Nothing written yet.
    pub fn new() -> (r: SinkProgress)
        ensures
            r.batches == 0 && r.features == 0,
    {
        SinkProgress { batches: 0, features: 0 }
    }

    /// Counts one written batch of `n` records; true when a progress report
    /// is due, once every `REPORT_INTERVAL_BATCHES` batches.
    pub fn record_batch(&mut self, n: u64) -> (report: bool)
        ensures
            final(self).batches == saturating(old(self).batches as int, 1),
            final(self).features == saturating(old(self).features as int, n as int),
            report == (final(self).batches % REPORT_INTERVAL_BATCHES == 0),
    {
        self.batches = saturating_add(self.batches, 1);
        self.features = saturating_add(self.features, n);
        self.batches % REPORT_INTERVAL_BATCHES == 0
    }
}

/// Whether the producer checks memory after its `transformed`-th batch.
pub fn memory_check_due(transformed: u64) -> (b: bool)
    ensures
        b == (transformed > 0 && transformed % MEMORY_CHECK_INTERVAL == 0),
{
    transformed > 0 && transformed % MEMORY_CHECK_INTERVAL == 0
}

/// Whether a resident size of `mb` MiB is over the limit.
pub fn over_memory_limit(mb: u64) -> (b: bool)
    ensures
        b == (mb > MEMORY_LIMIT_MB),
{
    mb > MEMORY_LIMIT_MB
}


/// Scans `s` for whitespace-separated words: the words completed so far and
/// the word in progress.
pub open spec fn scan_words(s: Seq<char>) -> (Seq<Seq<char>>, Seq<char>)
    decreases s.len(),
{
    if s.len() == 0 {
        (Seq::empty(), Seq::empty())
    } else {
        let (ws, cur) = scan_words(s.drop_last());
        let c = s.last();
        if is_space(c) {
            if cur.len() > 0 {
                (ws.push(cur), Seq::empty())
            } else {
                (ws, Seq::empty())
            }
        } else {
            (ws, cur.push(c))
        }
    }
}

/// The non-empty whitespace-separated words of `s`, in order.
pub open spec fn words(s: Seq<char>) -> Seq<Seq<char>> {
    let (ws, cur) = scan_words(s);
    if cur.len() > 0 {
        ws.push(cur)
    } else {
        ws
    }
}

/// The value of a string of decimal digits.
pub open spec fn digits_value(s: Seq<char>) -> int
    decreases s.len(),
{
    if s.len() == 0 {
        0
    } else {
        digits_value(s.drop_last()) * 10 + (s.last() as int - '0' as int)
    }
}

/// Every character is a decimal digit.
pub open spec fn all_digits(s: Seq<char>) -> bool {
    forall|i: int| 0 <= i < s.len() ==> '0' <= #[trigger] s[i] <= '9'
}

/// An unsigned decimal number with an optional leading `+`, when it fits in 64 bits.
pub open spec fn spec_parse_u64(w: Seq<char>) -> Option<u64> {
    let d = if w.len() > 0 && w[0] == '+' { w.drop_first() } else { w };
    if d.len() > 0 && all_digits(d) && digits_value(d) <= u64::MAX {
        Some(digits_value(d) as u64)
    } else {
        None
    }
}

/// The resident size in MiB read from a process status text: the second
/// word of the first `VmRSS:` line that has two words, in KiB, divided by
/// 1024; none without such a line or when that word is not a number.
pub open spec fn spec_resident_mb(lines: Seq<Seq<char>>) -> Option<u64>
    decreases lines.len(),
{
    if lines.len() == 0 {
        None
    } else {
        let l = lines[0];
        if starts_with(l, "VmRSS:"@) && words(l).len() >= 2 {
            match spec_parse_u64(words(l)[1]) {
                Some(kb) => Some((kb / 1024) as u64),
                None => None,
            }
        } else {
            spec_resident_mb(lines.drop_first())
        }
    }
}

fn words_of(s: &Vec<char>) -> (r: Vec<Vec<char>>)
    ensures
        r@.map_values(|v: Vec<char>| v@) == words(s@),
{
    let mut ws: Vec<Vec<char>> = Vec::new();
    let mut cur: Vec<char> = Vec::new();
    let mut i: usize = 0;
    while i < s.len()
        invariant
            i <= s.len(),
            (ws@.map_values(|v: Vec<char>| v@), cur@) == scan_words(s@.subrange(0, i as int)),
        decreases s.len() - i,
    {
        let c = s[i];
        assert(s@.subrange(0, i + 1).drop_last() =~= s@.subrange(0, i as int));
        if char_is_space(c) {
            if cur.len() > 0 {
                let done = cur;
                ws.push(done);
                assert(ws@.map_values(|v: Vec<char>| v@) =~= scan_words(s@.subrange(0, i + 1)).0);
            }
            cur = Vec::new();
            assert(cur@ =~= Seq::<char>::empty());
        } else {
            cur.push(c);
        }
        i = i + 1;
    }
    assert(s@.subrange(0, s.len() as int) =~= s@);
    if cur.len() > 0 {
        ws.push(cur);
        assert(ws@.map_values(|v: Vec<char>| v@) =~= words(s@));
    }
    ws
}

proof fn lemma_digits_value_nonneg(s: Seq<char>)
    requires
        all_digits(s),
    ensures
        digits_value(s) >= 0,
    decreases s.len(),
{
    if s.len() > 0 {
        assert(all_digits(s.drop_last())) by {
            assert forall|i: int| 0 <= i < s.drop_last().len() implies '0' <= #[trigger] s.drop_last()[i] <= '9' by {
                assert(s.drop_last()[i] == s[i]);
            }
        }
        lemma_digits_value_nonneg(s.drop_last());
        assert('0' <= s[s.len() - 1] <= '9');
    }
}

/// Reads an unsigned decimal number with an optional leading `+`.
fn parse_u64(w: &Vec<char>) -> (r: Option<u64>)
    ensures
        r == spec_parse_u64(w@),
{
    let start: usize = if w.len() > 0 && w[0] == '+' { 1 } else { 0 };
    let ghost d = if w@.len() > 0 && w@[0] == '+' { w@.drop_first() } else { w@ };
    assert(d =~= w@.subrange(start as int, w@.len() as int));
    if start >= w.len() {
        return None;
    }
    let mut acc: u64 = 0;
    let mut over = false;
    let mut i: usize = start;
    while i < w.len()
        invariant
            start <= i <= w.len(),
            d == (if w@.len() > 0 && w@[0] == '+' { w@.drop_first() } else { w@ }),
            d =~= w@.subrange(start as int, w@.len() as int),
            all_digits(w@.subrange(start as int, i as int)),
            !over ==> acc == digits_value(w@.subrange(start as int, i as int)),
            over ==> digits_value(w@.subrange(start as int, i as int)) > u64::MAX,
        decreases w.len() - i,
    {
        let c = w[i];
        if c < '0' || c > '9' {
            assert(d[i - start] == c);
            assert(!all_digits(d));
            return None;
        }
        let ghost prev = w@.subrange(start as int, i as int);
        let ghost next = w@.subrange(start as int, i + 1);
        assert(next.drop_last() =~= prev);
        assert(all_digits(next)) by {
            assert forall|k: int| 0 <= k < next.len() implies '0' <= #[trigger] next[k] <= '9' by {
                if k < prev.len() {
                    assert(next[k] == prev[k]);
                }
            }
        }
        let digit = (c as u32 - '0' as u32) as u64;
        if !over {
            let wide: u128 = acc as u128 * 10 + digit as u128;
            if wide > u64::MAX as u128 {
                over = true;
            } else {
                acc = wide as u64;
            }
        } else {
            proof {
                lemma_digits_value_nonneg(prev);
            }
        }
        i = i + 1;
    }
    assert(w@.subrange(start as int, w@.len() as int) =~= d);
    if over {
        None
    } else {
        Some(acc)
    }
}

/// The resident size in MiB that a process status text reports.
pub fn resident_mb_from_status(status: &str) -> (r: Option<u64>)
    ensures
        r == spec_resident_mb(split_char(status@, '\n')),
{
    let text = chars_of(status);
    let lines = split_on(&text, '\n');
    let ghost ls = lines@.map_values(|v: Vec<char>| v@);
    let label = chars_of("VmRSS:");
    assert(ls.subrange(0, ls.len() as int) =~= ls);
    let mut i: usize = 0;
    while i < lines.len()
        invariant
            ls == lines@.map_values(|v: Vec<char>| v@),
            ls == split_char(text@, '\n'),
            text@ == status@,
            label@ == "VmRSS:"@,
            i <= lines.len(),
            spec_resident_mb(ls) == spec_resident_mb(ls.subrange(i as int, ls.len() as int)),
        decreases lines.len() - i,
    {
        let line = &lines[i];
        let ghost rest = ls.subrange(i as int, ls.len() as int);
        assert(rest[0] == line@);
        assert(rest.drop_first() =~= ls.subrange(i + 1, ls.len() as int));
        let labelled = line.len() >= label.len() && same_prefix(line, &label);
        if labelled {
            let ws = words_of(line);
            if ws.len() >= 2 {
                assert(ws[1]@ == words(line@)[1]);
                return match parse_u64(&ws[1]) {
                    Some(kb) => Some(kb / 1024),
                    None => None,
                };
            }
        }
        i = i + 1;
    }
    None
}

/// Whether `s` starts with `p`.
fn same_prefix(s: &Vec<char>, p: &Vec<char>) -> (b: bool)
    requires
        p.len() <= s.len(),
    ensures
        b == starts_with(s@, p@),
{
    let mut k: usize = 0;
    while k < p.len()
        invariant
            p.len() <= s.len(),
            k <= p.len(),
            s@.subrange(0, k as int) == p@.subrange(0, k as int),
        decreases p.len() - k,
    {
        if s[k] != p[k] {
            assert(s@.subrange(0, p.len() as int)[k as int] != p@[k as int]);
            return false;
        }
        assert(s@.subrange(0, k + 1) =~= s@.subrange(0, k as int).push(s@[k as int]));
        assert(p@.subrange(0, k + 1) =~= p@.subrange(0, k as int).push(p@[k as int]));
        k = k + 1;
    }
    assert(p@.subrange(0, p.len() as int) =~= p@);
    true
}

} // verus!

//! Judging benchmark timings: the band each latency falls in, the summary
//! over all results, and the report line of a result.
use crate::number::{decimal, decimal_chars};
use crate::runner::append;
use crate::text::{chars_of, contains, string_of};
use vstd::prelude::*;

verus! {

/// The outcome of one benchmark.
#[derive(Debug)]
pub struct BenchmarkResult {
    /// What was measured.
    pub name: String,
    /// How long it took, in milliseconds.
    pub duration_ms: u128,
    /// Whether it completed.
    pub success: bool,
}

/// How a latency is judged (and coloured: green, yellow, red).
#[derive(Debug, Clone, Copy, PartialEq, Eq, Structural)]
pub enum Band {
    /// Under 100 ms.
    Fast,
    /// Under 500 ms.
    Moderate,
    /// 500 ms or more.
    Slow,
}

/// The band of a latency in milliseconds.
pub open spec fn band_of(ms: int) -> Band {
    if ms < 100 {
        Band::Fast
    } else if ms < 500 {
        Band::Moderate
    } else {
        Band::Slow
    }
}

/// The band of a latency in milliseconds.
pub fn latency_band(ms: u128) -> (b: Band)
    ensures
        b == band_of(ms as int),
{
    if ms < 100 {
        Band::Fast
    } else if ms < 500 {
        Band::Moderate
    } else {
        Band::Slow
    }
}

/// How the average of all results is judged.
#[derive(Debug, Clone, Copy, PartialEq, Eq, Structural)]
pub enum Grade {
    /// Average under 200 ms.
    Excellent,
    /// Average under 500 ms.
    Good,
    /// Average of 500 ms or more.
    NeedsImprovement,
}

/// The grade of an average latency in milliseconds.
pub open spec fn grade_of(avg: int) -> Grade {
    if avg < 200 {
        Grade::Excellent
    } else if avg < 500 {
        Grade::Good
    } else {
        Grade::NeedsImprovement
    }
}

/// The sum of the durations.
pub open spec fn total_ms(rs: Seq<BenchmarkResult>) -> int
    decreases rs.len(),
{
    if rs.len() == 0 {
        0
    } else {
        total_ms(rs.drop_last()) + rs.last().duration_ms
    }
}

/// Whether the results can be summarized: there is at least one and their
/// total fits in a `u128`.
pub fn summary_defined(results: &[BenchmarkResult]) -> (b: bool)
    ensures
        b == (results@.len() > 0 && total_ms(results@) <= u128::MAX),
{
    if results.len() == 0 {
        return false;
    }
    let mut total: u128 = 0;
    let mut i: usize = 0;
    while i < results.len()
        invariant
            i <= results@.len(),
            total == total_ms(results@.take(i as int)),
        decreases results@.len() - i,
    {
        assert(results@.take(i + 1).drop_last() =~= results@.take(i as int));
        match total.checked_add(results[i].duration_ms) {
            Some(t) => {
                total = t;
            },
            None => {
                proof {
                    lemma_total_prefix(results@, i + 1);
                }
                return false;
            },
        }
        i += 1;
    }
    assert(results@.take(i as int) =~= results@);
    true
}

/// The total and average of the durations, and the grade of the average.
pub fn summarize(results: &[BenchmarkResult]) -> (r: (u128, u128, Grade))
    requires
        results@.len() > 0,
        total_ms(results@) <= u128::MAX,
    ensures
        r.0 == total_ms(results@),
        r.1 == total_ms(results@) / (results@.len() as int),
        r.2 == grade_of(r.1 as int),
{
    let mut total: u128 = 0;
    let mut i: usize = 0;
    while i < results.len()
        invariant
            i <= results@.len(),
            total == total_ms(results@.take(i as int)),
            total_ms(results@) <= u128::MAX,
        decreases results@.len() - i,
    {
        assert(results@.take(i + 1).drop_last() =~= results@.take(i as int));
        proof {
            lemma_total_prefix(results@, i + 1);
        }
        total = total + results[i].duration_ms;
        i += 1;
    }
    assert(results@.take(i as int) =~= results@);
    let avg = total / (results.len() as u128);
    let grade = if avg < 200 {
        Grade::Excellent
    } else if avg < 500 {
        Grade::Good
    } else {
        Grade::NeedsImprovement
    };
    (total, avg, grade)
}

/// A prefix of the results takes no longer than all of them.
proof fn lemma_total_prefix(rs: Seq<BenchmarkResult>, k: int)
    requires
        0 <= k <= rs.len(),
    ensures
        total_ms(rs.take(k)) <= total_ms(rs),
    decreases rs.len(),
{
    if k < rs.len() {
        assert(rs.drop_last().take(k) =~= rs.take(k));
        lemma_total_prefix(rs.drop_last(), k);
    } else {
        assert(rs.take(k) =~= rs);
    }
}

/// `n` spaces.
pub open spec fn spaces(n: int) -> Seq<char> {
    Seq::new((if n > 0 { n } else { 0 }) as nat, |i: int| ' ')
}

/// Appends `n` spaces.
fn push_spaces(out: &mut Vec<char>, n: usize)
    ensures
        final(out)@ == old(out)@ + spaces(n as int),
{
    let ghost start = old(out)@;
    let mut i: usize = 0;
    while i < n
        invariant
            i <= n,
            out@ == start + spaces(i as int),
        decreases n - i,
    {
        out.push(' ');
        i += 1;
        assert(out@ =~= start + spaces(i as int));
    }
}

/// The colour code of a band.
pub open spec fn band_color(b: Band) -> Seq<char> {
    match b {
        Band::Fast => seq!['\u{1b}', '[', '3', '2', 'm'],
        Band::Moderate => seq!['\u{1b}', '[', '3', '3', 'm'],
        Band::Slow => seq!['\u{1b}', '[', '3', '1', 'm'],
    }
}

/// The mark of a result: a green check or a red cross.
pub open spec fn status_mark(success: bool) -> Seq<char> {
    if success {
        seq!['\u{1b}', '[', '3', '2', 'm', '\u{2713}', '\u{1b}', '[', '0', 'm']
    } else {
        seq!['\u{1b}', '[', '3', '1', 'm', '\u{2717}', '\u{1b}', '[', '0', 'm']
    }
}

/// The report line of a result: its mark, its name left-aligned in 40
/// characters, and its duration right-aligned in 6, coloured by its band.
pub open spec fn result_line_spec(name: Seq<char>, ms: nat, success: bool) -> Seq<char> {
    let d = decimal(ms);
    status_mark(success) + seq![' '] + name + spaces(40 - name.len()) + seq![' '] + band_color(
        band_of(ms as int),
    ) + spaces(6 - d.len()) + d + seq![' ', 'm', 's', '\u{1b}', '[', '0', 'm']
}

/// The report line of a result.
pub fn result_line(r: &BenchmarkResult) -> (s: String)
    ensures
        s@ == result_line_spec(r.name@, r.duration_ms as nat, r.success),
{
    let mut out: Vec<char> = Vec::new();
    if r.success {
        append(&mut out, &['\u{1b}', '[', '3', '2', 'm', '\u{2713}', '\u{1b}', '[', '0', 'm']);
    } else {
        append(&mut out, &['\u{1b}', '[', '3', '1', 'm', '\u{2717}', '\u{1b}', '[', '0', 'm']);
    }
    out.push(' ');
    let ghost head = out@;
    let name = chars_of(r.name.as_str());
    append(&mut out, name.as_slice());
    let pad = 40usize.saturating_sub(name.len());
    push_spaces(&mut out, pad);
    assert(spaces(pad as int) =~= spaces(40 - name@.len()));
    out.push(' ');
    match latency_band(r.duration_ms) {
        Band::Fast => append(&mut out, &['\u{1b}', '[', '3', '2', 'm']),
        Band::Moderate => append(&mut out, &['\u{1b}', '[', '3', '3', 'm']),
        Band::Slow => append(&mut out, &['\u{1b}', '[', '3', '1', 'm']),
    }
    let d = decimal_chars(r.duration_ms);
    let pad = 6usize.saturating_sub(d.len());
    push_spaces(&mut out, pad);
    assert(spaces(pad as int) =~= spaces(6 - d@.len()));
    append(&mut out, d.as_slice());
    append(&mut out, &[' ', 'm', 's', '\u{1b}', '[', '0', 'm']);
    assert(out@ =~= result_line_spec(r.name@, r.duration_ms as nat, r.success));
    string_of(out.as_slice())
}

/// Vim has drawn its screen: empty-line marks and the file's first line.
pub fn vim_rendered(screen: &str) -> (b: bool)
    ensures
        b == (contains(screen@, seq!['~']) && contains(
            screen@,
            seq!['L', 'i', 'n', 'e', ' ', '1'],
        )),
{
    let s = chars_of(screen);
    let mut tilde: Vec<char> = Vec::new();
    tilde.push('~');
    assert(tilde@ =~= seq!['~']);
    crate::text::contains_chars(s.as_slice(), tilde.as_slice()) && crate::text::contains_chars(
        s.as_slice(),
        &['L', 'i', 'n', 'e', ' ', '1'],
    )
}

} // verus!

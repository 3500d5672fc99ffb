use agent_terminal::bench::{latency_band, result_line, summarize, vim_rendered, Band, BenchmarkResult, Grade};
use agent_terminal::bench::summary_defined;

fn result(name: &str, ms: u128, success: bool) -> BenchmarkResult {
    BenchmarkResult { name: name.to_string(), duration_ms: ms, success }
}

#[test]
fn latency_bands() {
    assert_eq!(latency_band(0), Band::Fast);
    assert_eq!(latency_band(99), Band::Fast);
    assert_eq!(latency_band(100), Band::Moderate);
    assert_eq!(latency_band(499), Band::Moderate);
    assert_eq!(latency_band(500), Band::Slow);
}

#[test]
fn summary_totals_and_grades() {
    let rs = vec![result("a", 100, true), result("b", 250, true), result("c", 50, false)];
    assert_eq!(summarize(&rs), (400, 133, Grade::Excellent));
    let rs = vec![result("a", 300, true), result("b", 301, true)];
    assert_eq!(summarize(&rs), (601, 300, Grade::Good));
    let rs = vec![result("slow", 900, true)];
    assert_eq!(summarize(&rs), (900, 900, Grade::NeedsImprovement));
}

#[test]
fn result_lines_are_aligned_and_coloured() {
    let line = result_line(&result("Echo command latency", 42, true));
    assert_eq!(line, format!("\x1b[32m\u{2713}\x1b[0m {:<40} \x1b[32m{:>6} ms\x1b[0m", "Echo command latency", 42));
    let line = result_line(&result("Vim startup time (full render)", 1234, false));
    assert_eq!(line, format!("\x1b[31m\u{2717}\x1b[0m {:<40} \x1b[31m{:>6} ms\x1b[0m", "Vim startup time (full render)", 1234));
    let long = "n".repeat(45);
    let line = result_line(&result(&long, 1234567, true));
    assert_eq!(line, format!("\x1b[32m\u{2713}\x1b[0m {} \x1b[31m1234567 ms\x1b[0m", long));
}

#[test]
fn vim_is_rendered_once_marks_and_text_show() {
    assert!(vim_rendered("Line 1: Benchmark test\n~\n~"));
    assert!(!vim_rendered("Line 1: Benchmark test"));
    assert!(!vim_rendered("~\n~"));
}

#[test]
fn summaries_need_results_that_fit() {
    assert!(!summary_defined(&[]));
    assert!(summary_defined(&[result("a", 1, true)]));
    assert!(!summary_defined(&[result("a", u128::MAX, true), result("b", 1, true)]));
}

use mlrs::env::{cell_step, ctx_grep, ctx_len, ctx_slice, ctx_slice_ok};
use mlrs::StepResult;

#[test]
fn ctx_len_counts_bytes() {
    assert_eq!(ctx_len(""), 0);
    assert_eq!(ctx_len("aé"), 3);
}

#[test]
fn ctx_slice_clamps_offsets() {
    assert_eq!(ctx_slice("hello world", 0, 5), "hello");
    assert_eq!(ctx_slice("hello world", 6, 100), "world");
    assert_eq!(ctx_slice("hello", 3, 3), "");
    // a negative start reads as a huge offset and clamps to the end
    assert_eq!(ctx_slice("hello", -1, 100), "");
}

#[test]
fn ctx_slice_refuses_what_would_panic() {
    assert!(ctx_slice_ok("hello", 0, 5));
    assert!(!ctx_slice_ok("hello", 4, 2));
    assert!(!ctx_slice_ok("aéb", 0, 2));
    assert!(ctx_slice_ok("aéb", 1, 3));
    assert_eq!(ctx_slice("aéb", 1, 3), "é");
}

#[test]
fn ctx_grep_keeps_matching_lines() {
    let ctx = "alpha\nbeta\r\ngamma\nalphabet\n";
    assert_eq!(ctx_grep(ctx, "alpha"), "alpha\nalphabet");
    assert_eq!(ctx_grep(ctx, "^beta$"), "beta");
    assert_eq!(ctx_grep(ctx, "zeta"), "");
    assert_eq!(ctx_grep("", "a"), "");
}

#[test]
fn ctx_grep_reports_bad_patterns() {
    let out = ctx_grep("abc", "(");
    assert!(out.starts_with("regex error: "), "got: {out}");
    assert!(out.len() > "regex error: ".len());
}

#[test]
fn cell_step_prefers_the_final_answer() {
    let s = cell_step(Some("42".into()), Ok("7".into()), &vec!["p".into()]);
    assert!(matches!(s, StepResult::Final(ref a) if a == "42"));
}

#[test]
fn cell_step_joins_prints_and_value() {
    let s = cell_step(None, Ok("7".into()), &vec!["a".into(), "b".into()]);
    assert!(matches!(s, StepResult::Continue(ref o) if o == "a\nb\n7"));
    let s = cell_step(None, Ok("()".into()), &vec!["a".into()]);
    assert!(matches!(s, StepResult::Continue(ref o) if o == "a"));
    let s = cell_step(None, Ok("7".into()), &vec![]);
    assert!(matches!(s, StepResult::Continue(ref o) if o == "7"));
    let s = cell_step(None, Ok("".into()), &vec![]);
    assert!(matches!(s, StepResult::Continue(ref o) if o.is_empty()));
}

#[test]
fn cell_step_reports_script_errors() {
    let s = cell_step(None, Err("Variable not found: x".into()), &vec!["ignored".into()]);
    assert!(matches!(s, StepResult::Continue(ref o) if o == "script error: Variable not found: x"));
}

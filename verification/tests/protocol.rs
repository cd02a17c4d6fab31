use mlrs::protocol::{ceil_char_boundary, floor_char_boundary};
use mlrs::{approx_token_count, truncate_output, Notebook, StepResult, TruncationPolicy, TruncationStrategy};

// --- truncation ---

#[test]
fn truncate_noop_when_under_limit() {
    let p = TruncationPolicy {
        max_bytes: 100,
        strategy: TruncationStrategy::TailDrop,
    };
    assert_eq!(truncate_output("hello", &p), "hello");
}

#[test]
fn truncate_noop_when_limit_zero() {
    let p = TruncationPolicy::none();
    let big = "x".repeat(100_000);
    assert_eq!(truncate_output(&big, &p), big);
}

#[test]
fn truncate_tail_drop() {
    let p = TruncationPolicy {
        max_bytes: 5,
        strategy: TruncationStrategy::TailDrop,
    };
    let out = truncate_output("hello world", &p);
    assert!(out.starts_with("hello"), "got: {out}");
    assert!(out.contains("truncated"), "got: {out}");
}

#[test]
fn truncate_head_drop() {
    let p = TruncationPolicy {
        max_bytes: 5,
        strategy: TruncationStrategy::HeadDrop,
    };
    let out = truncate_output("hello world", &p);
    assert!(out.ends_with("world"), "got: {out}");
    assert!(out.contains("truncated"), "got: {out}");
}

#[test]
fn truncate_middle() {
    let p = TruncationPolicy {
        max_bytes: 6,
        strategy: TruncationStrategy::Middle,
    };
    let out = truncate_output("abcdefghijkl", &p);
    assert!(out.starts_with("abc"), "got: {out}");
    assert!(out.ends_with("jkl"), "got: {out}");
    assert!(out.contains("omitted"), "got: {out}");
}

#[test]
fn truncate_respects_utf8_boundary() {
    // "é" is 2 bytes — truncating at 3 bytes must not split a multi-byte char.
    let s = "aéb"; // 4 bytes: a(1) + é(2) + b(1)
    let p = TruncationPolicy {
        max_bytes: 2,
        strategy: TruncationStrategy::TailDrop,
    };
    let out = truncate_output(s, &p);
    // floor_char_boundary(4, 2) = 1 (only 'a' fits cleanly)
    assert!(out.starts_with('a'), "got: {out}");
    assert!(!out.contains('\u{FFFD}'), "got replacement char: {out}");
}

// --- token estimation ---

#[test]
fn approx_token_count_rounds_up() {
    assert_eq!(approx_token_count(""), 0);
    assert_eq!(approx_token_count("abc"), 1);
    assert_eq!(approx_token_count("abcd"), 1);
    assert_eq!(approx_token_count("abcde"), 2);
}

#[test]
fn notebook_token_estimate_sums_scripts_and_outputs() {
    let mut nb = Notebook::default();
    assert_eq!(nb.token_estimate(), 0);
    nb.push("abcd".into(), "efgh".into()); // 1 + 1
    nb.push("x".into(), "y".into()); // 1 + 1
    assert_eq!(nb.token_estimate(), 4);
}

// --- notebook ---

#[test]
fn notebook_push_and_history() {
    let mut nb = Notebook::default();
    assert!(nb.as_history().is_empty());
    nb.push("ctx_len()".into(), "42".into());
    let h = nb.as_history();
    assert!(h.contains("Cell 0"));
    assert!(h.contains("ctx_len()"));
    assert!(h.contains("42"));
}

#[test]
fn step_result_variants() {
    let c = StepResult::Continue("out".into());
    let f = StepResult::Final("answer".into());
    assert!(matches!(c, StepResult::Continue(_)));
    assert!(matches!(f, StepResult::Final(_)));
}

// --- exact values and edges ---

#[test]
fn truncate_tail_drop_exact_output() {
    let p = TruncationPolicy { max_bytes: 5, strategy: TruncationStrategy::TailDrop };
    assert_eq!(truncate_output("hello world", &p), "hello\n[6 bytes truncated]");
}

#[test]
fn truncate_head_drop_exact_output() {
    let p = TruncationPolicy { max_bytes: 5, strategy: TruncationStrategy::HeadDrop };
    assert_eq!(truncate_output("hello world", &p), "[6 bytes truncated]\nworld");
}

#[test]
fn truncate_middle_exact_output() {
    let p = TruncationPolicy { max_bytes: 6, strategy: TruncationStrategy::Middle };
    assert_eq!(truncate_output("abcdefghijkl", &p), "abc\n[6 bytes omitted]\njkl");
}

#[test]
fn truncate_middle_counts_bytes_between_boundaries() {
    // 9 bytes: a é(2) x y z é(2) b. The head stops before the first "é";
    // the tail would start inside the second "é", so it starts after it.
    let p = TruncationPolicy { max_bytes: 4, strategy: TruncationStrategy::Middle };
    assert_eq!(truncate_output("aéxyzéb", &p), "a\n[7 bytes omitted]\nb");
}

#[test]
fn truncate_head_drop_moves_cut_forward_to_boundary() {
    let p = TruncationPolicy { max_bytes: 2, strategy: TruncationStrategy::HeadDrop };
    // 5 bytes: a é(2) b c; keep from byte 3 ("bc"), the first boundary at or after 3.
    assert_eq!(truncate_output("aébc", &p), "[3 bytes truncated]\nbc");
    // keep 3 bytes: the cut at byte 2 lies inside "é", so it moves to byte 3.
    let p = TruncationPolicy { max_bytes: 3, strategy: TruncationStrategy::HeadDrop };
    assert_eq!(truncate_output("aébc", &p), "[2 bytes truncated]\nbc");
}

#[test]
fn truncate_exactly_at_limit_is_unchanged() {
    let p = TruncationPolicy { max_bytes: 5, strategy: TruncationStrategy::Middle };
    assert_eq!(truncate_output("hello", &p), "hello");
}

#[test]
fn default_policy_is_eight_kib_tail_drop() {
    let p = TruncationPolicy::default_policy();
    assert_eq!(p.max_bytes, 8192);
    assert_eq!(p.strategy, TruncationStrategy::TailDrop);
    let d = TruncationPolicy::default();
    assert_eq!(d.max_bytes, 8192);
    assert_eq!(d.strategy, TruncationStrategy::TailDrop);
    let n = TruncationPolicy::none();
    assert_eq!(n.max_bytes, 0);
}

#[test]
fn char_boundaries_floor_and_ceil() {
    let s = "aéb";
    assert_eq!(floor_char_boundary(s, 2), 1);
    assert_eq!(floor_char_boundary(s, 3), 3);
    assert_eq!(floor_char_boundary(s, 100), 4);
    assert_eq!(ceil_char_boundary(s, 2), 3);
    assert_eq!(ceil_char_boundary(s, 0), 0);
    assert_eq!(ceil_char_boundary(s, 100), 4);
}

#[test]
fn approx_token_count_counts_bytes_not_chars() {
    // four two-byte characters: eight bytes, two tokens
    assert_eq!(approx_token_count("éééé"), 2);
}

#[test]
fn history_renders_cells_in_order() {
    let mut nb = Notebook::default();
    nb.push("a".into(), "1".into());
    nb.push("b".into(), "2".into());
    assert_eq!(
        nb.as_history(),
        "# Cell 0\n```\na\n```\nOutput:\n1\n\n# Cell 1\n```\nb\n```\nOutput:\n2"
    );
}

#[test]
fn push_adds_the_cell_estimate() {
    let mut nb = Notebook::default();
    nb.push("abcdefgh".into(), "abcde".into());
    let before = nb.token_estimate();
    nb.push("abcdefghi".into(), "".into());
    assert_eq!(nb.token_estimate(), before + 3);
    assert!(nb.token_estimate_exceeds(4));
    assert!(!nb.token_estimate_exceeds(7));
    assert_eq!(nb.token_estimate_capped(), 7);
}

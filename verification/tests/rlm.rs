use mlrs::rlm::{extract_script, output_is_script_error, Action, Event, Phase, RunState, COMPACT_PROMPT, CONTINUE_PROMPT, SYSTEM_PROMPT};
use mlrs::{Notebook, Rlm, RlmError, Role, StepResult, TruncationPolicy, TruncationStrategy, DEFAULT_COMPACTION_THRESHOLD};

/// Runs a script the way the test doubles need: `done("x")` answers `x`,
/// `fail:msg` reports a script error, anything else is its own output
/// (without surrounding quotes).
fn fake_exec(script: &str) -> StepResult {
    if let Some(rest) = script.strip_prefix("done(\"") {
        return StepResult::Final(rest.trim_end_matches("\")").to_string());
    }
    if let Some(msg) = script.strip_prefix("fail:") {
        return StepResult::Continue(format!("script error: {msg}"));
    }
    StepResult::Continue(script.trim_matches('"').to_string())
}

/// Drives a run to its end; every provider call is answered from `replies`
/// in order (falling back to `done("fallback")`), and the system message of
/// every request is recorded.
fn run_scripted(rlm: &Rlm<()>, replies: &[&str]) -> (Result<String, RlmError>, Vec<String>, RunState) {
    let mut calls: Vec<String> = Vec::new();
    let (mut state, mut action) = rlm.start("q", false);
    loop {
        let event = match action {
            Action::Finish(r) => return (r, calls, state),
            Action::RequestScript(msgs) | Action::RequestSummary { messages: msgs, .. } => {
                let idx = calls.len();
                calls.push(msgs[0].content.clone());
                Event::Reply(replies.get(idx).copied().unwrap_or(r#"done("fallback")"#).to_string())
            }
            Action::Execute(script) => Event::Executed(fake_exec(&script)),
        };
        assert!(state.accepts(&event));
        let (s, a) = rlm.step(state, event, false);
        state = s;
        action = a;
    }
}

#[test]
fn cancellation_before_first_iteration() {
    let rlm = Rlm::new(());
    let (_, action) = rlm.start("q", true);
    assert!(matches!(action, Action::Finish(Err(RlmError::Cancelled))));
}

#[test]
fn cancellation_during_provider_call() {
    let rlm = Rlm::new(());
    let (state, action) = rlm.start("q", false);
    assert!(matches!(action, Action::RequestScript(_)));
    let (state, action) = rlm.step(state, Event::Cancelled, false);
    assert!(matches!(action, Action::Finish(Err(RlmError::Cancelled))));
    assert!(matches!(state.phase(), Phase::Finished));
}

#[test]
fn no_cancellation_completes_normally() {
    let rlm = Rlm::new(());
    let (answer, _, _) = run_scripted(&rlm, &[r#"done("the answer")"#]);
    assert_eq!(answer.unwrap(), "the answer");
}

#[test]
fn compaction_triggers_above_threshold_and_replaces_history() {
    let rlm = Rlm::new(()).with_compaction_threshold(1); // force compaction once ≥2 cells exist
    let (answer, calls, state) = run_scripted(
        &rlm,
        &[
            r#""cell-one-output""#, // cell 1
            r#""cell-two-output""#, // cell 2
            "COMPACT-SUMMARY",      // compaction pass (not an iteration)
            r#"done("fin")"#,       // final
        ],
    );
    assert_eq!(answer.unwrap(), "fin");
    assert_eq!(calls.len(), 4, "expected 4 provider calls, got {calls:?}");
    // Calls 1, 2, 4 are normal loop turns; call 3 is the compaction pass.
    assert!(calls[2].starts_with(COMPACT_PROMPT.lines().next().unwrap()));
    assert_eq!(calls[3], SYSTEM_PROMPT, "loop resumes with normal prompt");
    assert_eq!(state.iterations(), 3);
    let cells = &state.notebook().cells;
    assert_eq!(cells.len(), 1);
    assert_eq!(cells[0].script, "// [notebook compacted]");
    assert_eq!(cells[0].output, "[Summary of 2 earlier cells]\nCOMPACT-SUMMARY");
}

#[test]
fn no_compaction_below_threshold() {
    let rlm = Rlm::new(());
    let (answer, calls, _) = run_scripted(&rlm, &[r#""small""#, r#"done("fin")"#]);
    assert_eq!(answer.unwrap(), "fin");
    assert!(calls.iter().all(|c| c == SYSTEM_PROMPT), "no compaction request expected, got {calls:?}");
}

#[test]
fn single_cell_notebook_is_never_compacted() {
    // Threshold of 0 would trip on any content, but a 1-cell notebook
    // must not be re-compacted — that would loop on its own summary.
    let rlm = Rlm::new(()).with_compaction_threshold(0);
    let (answer, calls, _) = run_scripted(&rlm, &[r#""only-cell""#, r#"done("fin")"#]);
    assert_eq!(answer.unwrap(), "fin");
    assert_eq!(calls.len(), 2, "no compaction call expected, got {calls:?}");
}

#[test]
fn new_has_documented_defaults() {
    let rlm = Rlm::new(());
    assert_eq!(rlm.depth, 0);
    assert_eq!(rlm.max_depth, 5);
    assert_eq!(rlm.max_iterations, 20);
    assert_eq!(rlm.max_retries_per_cell, 3);
    assert!(!rlm.verbose);
    assert_eq!(rlm.truncation.max_bytes, 8192);
    assert_eq!(rlm.truncation.strategy, TruncationStrategy::TailDrop);
    assert_eq!(rlm.compaction_threshold, DEFAULT_COMPACTION_THRESHOLD);
    assert_eq!(DEFAULT_COMPACTION_THRESHOLD, 102_400);
}

#[test]
fn builders_set_one_field_each() {
    let rlm = Rlm::new(7u8)
        .with_depth(2)
        .with_max_depth(9)
        .with_verbose(true)
        .with_truncation_policy(TruncationPolicy { max_bytes: 10, strategy: TruncationStrategy::Middle })
        .with_compaction_threshold(33);
    assert_eq!(rlm.provider, 7);
    assert_eq!(rlm.depth, 2);
    assert_eq!(rlm.max_depth, 9);
    assert!(rlm.verbose);
    assert_eq!(rlm.truncation.max_bytes, 10);
    assert_eq!(rlm.truncation.strategy, TruncationStrategy::Middle);
    assert_eq!(rlm.compaction_threshold, 33);
    assert_eq!(rlm.max_iterations, 20);
}

#[test]
fn depth_at_limit_is_refused_before_anything_else() {
    let rlm = Rlm::new(()).with_depth(5);
    let (_, action) = rlm.start("q", true);
    match action {
        Action::Finish(Err(RlmError::MaxDepthExceeded(d))) => assert_eq!(d, 5),
        _ => panic!("expected MaxDepthExceeded"),
    }
}

#[test]
fn iteration_budget_is_enforced() {
    let rlm = Rlm::new(());
    let replies = vec![r#""again""#; 30];
    let (answer, calls, state) = run_scripted(&rlm, &replies);
    match answer {
        Err(RlmError::MaxIterationsExceeded(n)) => assert_eq!(n, 20),
        other => panic!("expected MaxIterationsExceeded, got {other:?}"),
    }
    assert_eq!(calls.len(), 20);
    assert_eq!(state.iterations(), 20);
}

#[test]
fn too_many_script_errors_in_a_row() {
    let rlm = Rlm::new(());
    let (answer, calls, state) = run_scripted(&rlm, &["fail:a", "fail:b", "fail:c", "fail:d"]);
    match answer {
        Err(RlmError::MaxRetriesExceeded(n)) => assert_eq!(n, 3),
        other => panic!("expected MaxRetriesExceeded, got {other:?}"),
    }
    assert_eq!(calls.len(), 4);
    assert_eq!(state.notebook().cells.len(), 3);
}

#[test]
fn a_clean_cell_resets_the_error_streak() {
    let rlm = Rlm::new(());
    let (answer, _, state) =
        run_scripted(&rlm, &["fail:a", "fail:b", "fail:c", r#""ok""#, "fail:d", r#"done("x")"#]);
    assert_eq!(answer.unwrap(), "x");
    assert_eq!(state.consecutive_errors(), 1);
    assert_eq!(state.notebook().cells.len(), 5);
    assert_eq!(state.notebook().cells[0].output, "script error: a");
}

#[test]
fn provider_failure_ends_the_run() {
    let rlm = Rlm::new(());
    let (state, _) = rlm.start("q", false);
    let (_, action) = rlm.step(state, Event::ProviderFailed("network down".to_string()), false);
    match action {
        Action::Finish(Err(e)) => {
            assert!(matches!(e, RlmError::ProviderError(_)));
            assert_eq!(e.message(), "provider error: network down");
        }
        _ => panic!("expected ProviderError"),
    }
}

#[test]
fn script_failure_ends_the_run() {
    let rlm = Rlm::new(());
    let (state, _) = rlm.start("q", false);
    let (state, action) = rlm.step(state, Event::Reply("ctx_len()".to_string()), false);
    assert!(matches!(action, Action::Execute(ref s) if s == "ctx_len()"));
    assert!(!state.accepts(&Event::Cancelled));
    let (_, action) = rlm.step(state, Event::ScriptFailed("engine gone".to_string()), false);
    match action {
        Action::Finish(Err(RlmError::ScriptError(m))) => assert_eq!(m, "engine gone"),
        _ => panic!("expected ScriptError"),
    }
}

#[test]
fn cancellation_is_noticed_after_a_script_runs() {
    let rlm = Rlm::new(());
    let (state, _) = rlm.start("q", false);
    let (state, _) = rlm.step(state, Event::Reply("1 + 1".to_string()), false);
    let (state, action) = rlm.step(state, Event::Executed(StepResult::Continue("2".to_string())), true);
    assert!(matches!(action, Action::Finish(Err(RlmError::Cancelled))));
    assert_eq!(state.notebook().cells.len(), 1);
}

#[test]
fn stored_outputs_follow_the_truncation_policy() {
    let rlm = Rlm::new(()).with_truncation_policy(TruncationPolicy { max_bytes: 5, strategy: TruncationStrategy::TailDrop });
    let (_, _, state) = run_scripted(&rlm, &[r#""hello world""#, r#"done("x")"#]);
    assert_eq!(state.notebook().cells[0].output, "hello\n[6 bytes truncated]");
}

#[test]
fn build_messages_replays_the_notebook() {
    let rlm = Rlm::new(());
    let mut nb = Notebook::default();
    let first = rlm.build_messages("what?", &nb);
    assert_eq!(first.len(), 2);
    assert!(matches!(first[0].role, Role::System));
    assert_eq!(first[0].content, SYSTEM_PROMPT);
    assert!(matches!(first[1].role, Role::User));
    assert_eq!(first[1].content, "Query: what?");
    nb.push("ctx_len()".into(), "42".into());
    let msgs = rlm.build_messages("what?", &nb);
    assert_eq!(msgs.len(), 5);
    assert!(matches!(msgs[2].role, Role::Assistant));
    assert_eq!(msgs[2].content, "ctx_len()");
    assert!(matches!(msgs[3].role, Role::User));
    assert_eq!(msgs[3].content, "42");
    assert_eq!(msgs[4].content, CONTINUE_PROMPT);
}

#[test]
fn extract_script_strips_fences_and_whitespace() {
    assert_eq!(extract_script("```rhai\nctx_len()\n```"), "ctx_len()");
    assert_eq!(extract_script("  ```\nprint_cell(\"x\")\n```  \n"), "print_cell(\"x\")");
    assert_eq!(extract_script("\t done(\"a\") \n"), "done(\"a\")");
    assert_eq!(extract_script("```rhai x ``````"), "x");
    assert_eq!(extract_script("plain"), "plain");
    assert_eq!(extract_script("\u{3000}```rhai\u{A0}x\u{2028}```\u{85}"), "x");
}

#[test]
fn error_messages_name_their_values() {
    assert_eq!(RlmError::MaxDepthExceeded(5).message(), "max depth 5 exceeded");
    assert_eq!(
        RlmError::MaxIterationsExceeded(20).message(),
        "max iterations 20 exceeded without calling done()"
    );
    assert_eq!(RlmError::ScriptError("x".into()).message(), "script error: x");
    assert_eq!(
        RlmError::MaxRetriesExceeded(3).message(),
        "max script retries (3) exceeded for one cell"
    );
    assert_eq!(RlmError::ProviderError("y".into()).message(), "provider error: y");
    assert_eq!(RlmError::Cancelled.message(), "run cancelled");
}

#[test]
fn role_names() {
    assert_eq!(Role::System.as_str(), "system");
    assert_eq!(Role::User.as_str(), "user");
    assert_eq!(Role::Assistant.as_str(), "assistant");
}

#[test]
fn summary_request_carries_history_and_estimate() {
    let rlm = Rlm::new(()).with_compaction_threshold(1);
    let (state, _) = rlm.start("q", false);
    let (state, _) = rlm.step(state, Event::Reply("\"abcd\"".to_string()), false);
    let (state, _) = rlm.step(state, Event::Executed(StepResult::Continue("abcd".to_string())), false);
    let (state, _) = rlm.step(state, Event::Reply("\"efgh\"".to_string()), false);
    let (_, action) = rlm.step(state, Event::Executed(StepResult::Continue("efgh".to_string())), false);
    match action {
        Action::RequestSummary { messages, cells, estimate } => {
            assert_eq!(cells, 2);
            // each cell: a 6-byte script (2 tokens) and a 4-byte output (1 token)
            assert_eq!(estimate, 6);
            assert_eq!(messages[0].content, COMPACT_PROMPT);
            assert!(messages[1].content.starts_with("# Cell 0\n```\n\"abcd\""));
        }
        _ => panic!("expected a summary request"),
    }
}

#[test]
fn script_error_outputs_are_recognised() {
    assert!(output_is_script_error(&"script error: x".to_string()));
    assert!(output_is_script_error(&"script error:".to_string()));
    assert!(!output_is_script_error(&"a script error: x".to_string()));
    assert!(!output_is_script_error(&"".to_string()));
}

#[test]
fn summaries_come_on_top_of_the_iteration_budget() {
    let rlm = Rlm::new(()).with_compaction_threshold(1);
    let replies = vec![r#""a long enough output""#; 200];
    let (answer, calls, state) = run_scripted(&rlm, &replies);
    match answer {
        Err(RlmError::MaxIterationsExceeded(n)) => assert_eq!(n, 20),
        other => panic!("expected MaxIterationsExceeded, got {other:?}"),
    }
    let normal = calls.iter().filter(|c| c.as_str() == SYSTEM_PROMPT).count();
    let summaries = calls.iter().filter(|c| c.as_str() == COMPACT_PROMPT).count();
    assert_eq!(normal, 20);
    assert!(summaries > 0);
    assert_eq!(normal + summaries, calls.len());
    assert_eq!(state.iterations(), 20);
}

use mlrs::repl::{
    classify_line, complete, context_file_path, highlight_parts, hint, next_hint_token, run_options,
    LineKind, ReplState, SlashArg, HELP_TEXT, NO_PATH, NO_QUERY,
};

#[test]
fn query_and_context_commands() {
    let mut st = ReplState::default();
    assert_eq!(st.set_query(Some("who?")), "query set: who?\n");
    assert_eq!(st.query.as_deref(), Some("who?"));
    assert_eq!(st.set_context(Some("aé")), "context set (3 bytes)\n");
    assert_eq!(st.set_query(None), "query set: \n");
    assert_eq!(st.query.as_deref(), Some(""));
    assert_eq!(st.load_context("12345".into()), "context loaded (5 bytes)\n");
    assert_eq!(st.context.as_deref(), Some("12345"));
}

#[test]
fn status_and_clear() {
    let mut st = ReplState::default();
    assert_eq!(st.status(), "query:   (not set)\ncontext: (not set)\n");
    st.set_query(Some("q"));
    st.set_context(Some("abc"));
    assert_eq!(st.status(), "query:   q\ncontext: (3 bytes)\n");
    assert_eq!(st.clear(), "cleared\n");
    assert!(st.query.is_none() && st.context.is_none());
}

#[test]
fn run_needs_a_query() {
    let mut st = ReplState::default();
    assert_eq!(st.run_input().unwrap_err(), NO_QUERY);
    st.set_query(Some("q"));
    assert_eq!(st.run_input().unwrap(), ("q".to_string(), String::new()));
    st.set_context(Some("ctx"));
    assert_eq!(st.run_input().unwrap(), ("q".to_string(), "ctx".to_string()));
}

#[test]
fn context_file_needs_a_path() {
    assert_eq!(context_file_path(None).unwrap_err(), NO_PATH);
    assert_eq!(context_file_path(Some("a.txt")).unwrap(), "a.txt");
}

#[test]
fn run_options_read_depth_and_verbose() {
    let arg = |n: &str, v: Option<&str>| SlashArg { name: n.to_string(), value: v.map(|s| s.to_string()) };
    assert_eq!(run_options(&vec![]), (false, 5));
    assert_eq!(run_options(&vec![arg("verbose", None)]), (true, 5));
    assert_eq!(run_options(&vec![arg("depth", Some("3")), arg("verbose", None)]), (true, 3));
    assert_eq!(run_options(&vec![arg("depth", Some("+7"))]), (false, 7));
    assert_eq!(run_options(&vec![arg("depth", Some("x"))]), (false, 5));
    assert_eq!(run_options(&vec![arg("depth", None), arg("depth", Some("2"))]), (false, 5));
    assert_eq!(run_options(&vec![arg("depth", Some("99999999999999999999999"))]), (false, 5));
}

#[test]
fn lines_are_classified() {
    assert!(matches!(classify_line("   "), LineKind::Blank));
    assert!(matches!(classify_line(" /quit "), LineKind::Quit));
    assert!(matches!(classify_line("/exit"), LineKind::Quit));
    assert!(matches!(classify_line(" /status\n"), LineKind::Command(ref c) if c == "/status"));
}

#[test]
fn completion_of_slash_prefixes() {
    let c = complete("/c", 2);
    let values: Vec<&str> = c.iter().map(|s| s.value.as_str()).collect();
    assert_eq!(values, vec!["/context", "/context-file", "/clear"]);
    assert_eq!(c[0].description, "Set context inline");
    assert!(complete("hello", 2).is_empty());
    let all = complete("/", 1);
    assert_eq!(all.len(), 8);
    let q = complete("/query(<", 8);
    assert_eq!(q.len(), 1);
    assert_eq!(q[0].value, "/query");
}

#[test]
fn hints_complete_the_first_matching_name() {
    let h = hint("/st", false);
    assert_eq!(h.hint, "atus");
    assert_eq!(h.shown, "atus");
    let h = hint("/st", true);
    assert_eq!(h.shown, "\x1b[2matus\x1b[0m");
    assert_eq!(hint("/", false).hint, "");
    assert_eq!(hint("/status", false).hint, "");
    assert_eq!(hint("/c", false).hint, "ontext");
    assert_eq!(hint("query", false).hint, "");
}

#[test]
fn next_hint_token_stops_at_paren_or_space() {
    assert_eq!(next_hint_token("ery(<text>)"), "ery");
    assert_eq!(next_hint_token("un now"), "un");
    assert_eq!(next_hint_token("atus"), "atus");
}

#[test]
fn highlight_splits_command_name() {
    assert_eq!(highlight_parts("/query(x)"), Some(("/query".to_string(), "(x)".to_string())));
    assert_eq!(highlight_parts("/run depth"), Some(("/run".to_string(), " depth".to_string())));
    assert_eq!(highlight_parts("/status"), Some(("/status".to_string(), String::new())));
    assert_eq!(highlight_parts("hello"), None);
}

#[test]
fn help_lists_commands() {
    assert!(HELP_TEXT.starts_with("/query(<text>)"));
    assert!(HELP_TEXT.contains("/quit"));
}

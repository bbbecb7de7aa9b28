use agent_gh::co_author::{agent_markers, failure_message, is_agent, one_line};

#[test]
fn joins_multi_line_causes_into_one_line() {
    assert_eq!(
        one_line("parsing config.toml: TOML parse error\n  |\n1 | app_id = 1\n"),
        "parsing config.toml: TOML parse error | 1 | app_id = 1"
    );
}

#[test]
fn one_line_drops_leading_trailing_and_unicode_white_space() {
    assert_eq!(one_line(""), "");
    assert_eq!(one_line(" \t\r\n "), "");
    assert_eq!(one_line("  a  "), "a");
    assert_eq!(one_line("a\u{a0}b\u{3000}c\u{85}d"), "a b c d");
    assert_eq!(one_line("x\u{200b}y"), "x\u{200b}y");
}

#[test]
fn lists_the_agent_markers() {
    assert_eq!(
        agent_markers(),
        vec![
            "CLAUDE_CODE_CHILD_SESSION",
            "CODEX_THREAD_ID",
            "GEMINI_CLI",
            "COPILOT_CLI",
            "CURSOR_AGENT"
        ]
    );
}

#[test]
fn detects_a_non_empty_marker_only() {
    assert!(!is_agent(&vec![]));
    assert!(!is_agent(&vec![None, Some(String::new()), None]));
    assert!(is_agent(&vec![None, Some("1".to_owned())]));
    assert!(is_agent(&vec![Some("x".to_owned()), Some(String::new())]));
}

#[test]
fn reports_failures_on_one_line() {
    assert_eq!(
        failure_message("looking up the App slug:\n  GitHub returned HTTP 401"),
        "agent-gh: looking up the App slug: GitHub returned HTTP 401; committed without the co-author trailer"
    );
}

fn detects(variables: &[(&str, &str)]) -> bool {
    let values: Vec<Option<String>> = agent_markers()
        .into_iter()
        .map(|marker| {
            variables
                .iter()
                .find(|(name, _)| *name == marker)
                .map(|(_, value)| (*value).to_owned())
        })
        .collect();
    is_agent(&values)
}

#[test]
fn detects_each_agent_marker() {
    for marker in agent_markers() {
        assert!(detects(&[(marker, "1")]), "{marker}");
    }
}

#[test]
fn ignores_environments_without_a_non_empty_marker() {
    let empty_markers: Vec<(&str, &str)> =
        agent_markers().into_iter().map(|marker| (marker, "")).collect();
    for variables in [&[][..], &[("CLAUDECODE", "1")], &empty_markers] {
        assert!(!detects(variables), "{variables:?}");
    }
}

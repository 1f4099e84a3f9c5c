use yoyo::commands::{
    all_checks_passed, default_session_path, diff_report, has_content, history_lines,
    is_unknown_command, lines_as_strings, max_tokens_label, max_turns_label, plan_undo,
    run_command_arg, session_path_arg, skills_label, system_preview, unknown_command_name,
    DiffState,
};
use yoyo::message::{AgentMessage, Content, ExtensionMessage, Message};

#[test]
fn unknown_command_detection() {
    assert!(is_unknown_command("/foobar"));
    assert!(is_unknown_command("/xyz something"));
    assert!(!is_unknown_command("/help"));
    assert!(!is_unknown_command("/model gpt"));
    assert!(!is_unknown_command("/retry"));
    assert!(is_unknown_command("/helpme"));
}

#[test]
fn unknown_command_name_is_first_word() {
    assert_eq!(unknown_command_name("/xyz  a b"), "/xyz");
    assert_eq!(unknown_command_name("   "), "   ");
}

#[test]
fn session_paths() {
    assert_eq!(default_session_path(), "yoyo-session.json");
    assert_eq!(session_path_arg("/save", "/save"), "yoyo-session.json");
    assert_eq!(session_path_arg("/save   ", "/save"), "yoyo-session.json");
    assert_eq!(session_path_arg("/save a.json", "/save"), "a.json");
    assert_eq!(session_path_arg("/load b.json", "/load"), "b.json");
    // without the command prefix the default is used
    assert_eq!(session_path_arg("nothing", "/save"), "yoyo-session.json");
}

#[test]
fn run_command_arguments() {
    assert_eq!(run_command_arg("/run cargo test"), "cargo test");
    assert_eq!(run_command_arg("!  git status "), "git status");
    assert_eq!(run_command_arg("/run"), "");
    assert_eq!(run_command_arg("!"), "");
    assert_eq!(run_command_arg("hello"), "");
}

#[test]
fn content_detection() {
    assert!(!has_content(""));
    assert!(!has_content(" \n\t "));
    assert!(has_content(" x "));
}

#[test]
fn lines_split_like_str_lines() {
    assert_eq!(lines_as_strings("a\nb\r\nc"), vec!["a", "b", "c"]);
    assert_eq!(lines_as_strings("a\n"), vec!["a"]);
    assert_eq!(lines_as_strings("\n"), vec![""]);
    assert_eq!(lines_as_strings("a\r"), vec!["a\r"]);
    assert!(lines_as_strings("").is_empty());
}

#[test]
fn diff_reports() {
    let r = diff_report(false, "");
    assert_eq!(r.state, DiffState::NotARepository);
    let r = diff_report(true, "  \n");
    assert_eq!(r.state, DiffState::Clean);
    assert!(r.changes.is_empty());
    let r = diff_report(true, " M src/lib.rs\n?? new.rs\n");
    assert_eq!(r.state, DiffState::Changes);
    assert_eq!(r.changes, vec![" M src/lib.rs", "?? new.rs"]);
}

#[test]
fn undo_plans() {
    let p = plan_undo(true, "", Some(""));
    assert!(p.nothing_to_undo());
    let p = plan_undo(true, " src/lib.rs | 2 +-\n", Some(""));
    assert!(p.has_diff);
    assert!(!p.nothing_to_undo());
    let p = plan_undo(false, " src/lib.rs | 2 +-\n", Some("a.txt\nb.txt\n"));
    assert!(!p.has_diff);
    assert_eq!(p.untracked_files, vec!["a.txt", "b.txt"]);
    assert!(!p.nothing_to_undo());
    let p = plan_undo(true, "x", None);
    assert!(p.untracked_files.is_empty());
}

#[test]
fn health_checks() {
    assert!(all_checks_passed(&[]));
    assert!(all_checks_passed(&[true, true]));
    assert!(!all_checks_passed(&[true, false, true]));
}

#[test]
fn history_listing() {
    let mut messages = Vec::new();
    for i in 0..10 {
        messages.push(AgentMessage::Llm(Message::user(&format!("msg {i}"))));
    }
    messages.push(AgentMessage::Extension(ExtensionMessage { role: "note".to_string() }));
    messages.push(AgentMessage::Llm(Message::ToolResult {
        tool_call_id: "tc".into(),
        tool_name: "bash".into(),
        content: vec![Content::Text { text: "x".into() }],
        is_error: false,
        timestamp: 0,
    }));
    let lines = history_lines(&messages);
    assert_eq!(lines.len(), 12);
    assert_eq!(lines[0], "      1. [user] msg 0");
    assert_eq!(lines[9], "     10. [user] msg 9");
    assert_eq!(lines[10], "     11. [ext] note");
    assert_eq!(lines[11], "     12. [tool] bash ✓");
    assert!(history_lines(&[]).is_empty());
}

#[test]
fn config_labels() {
    assert_eq!(system_preview(""), "(empty)");
    assert_eq!(system_preview("You are helpful.\nMore."), "You are helpful.");
    let long = "x".repeat(70);
    assert_eq!(system_preview(&long), format!("{}…", "x".repeat(60)));
    assert_eq!(max_tokens_label(None), "default (8192)");
    assert_eq!(max_tokens_label(Some(4096)), "4096");
    assert_eq!(max_turns_label(None), "default (50)");
    assert_eq!(max_turns_label(Some(7)), "7");
    assert_eq!(skills_label(0), "none");
    assert_eq!(skills_label(3), "3 loaded");
}

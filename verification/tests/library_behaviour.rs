use yoyo::message::{
    extract_message_text, message_role, summarize_message, AgentMessage, Content,
    ExtensionMessage, Message, ToolResult, Usage,
};
use yoyo::prompt::{format_turn_indicator, tool_end_preview, tool_update_preview, PromptState};
use yoyo::search::{
    build_excerpt, excerpt_fits_exec, excerpt_from, search_lowered, search_messages,
    try_build_excerpt,
};
use yoyo::text::{decimal, truncate_with_ellipsis};

fn assistant(content: Vec<Content>, usage: Usage, error: Option<&str>) -> AgentMessage {
    AgentMessage::Llm(Message::Assistant {
        content,
        usage,
        stopped_on_error: error.is_some(),
        error_message: error.map(|e| e.to_string()),
    })
}

fn usage(i: u64, o: u64, r: u64, w: u64) -> Usage {
    Usage { input: i, output: o, cache_read: r, cache_write: w }
}

#[test]
fn turn_indicator_exact_text() {
    assert_eq!(format_turn_indicator(2).unwrap(), "\u{1b}[2m  turn 2\u{1b}[0m");
    assert_eq!(format_turn_indicator(12).unwrap(), "\u{1b}[2m  turn 12\u{1b}[0m");
}

#[test]
fn a_run_of_four_turns_announces_three() {
    let mut state = PromptState::new();
    let mut shown = 0;
    for _ in 0..4 {
        if state.turn_start().indicator.is_some() {
            shown += 1;
        }
    }
    assert_eq!(shown, 3);
    assert_eq!(state.turn_count, 4);
}

#[test]
fn text_deltas_are_collected_and_break_lines() {
    let mut state = PromptState::new();
    assert!(state.text_delta("Hel"));
    assert!(!state.text_delta("lo"));
    assert!(state.end_text());
    assert!(!state.end_text());
    assert!(state.text_delta(" world"));
    assert_eq!(state.collected_text, "Hello world");
    // a later turn ends the open text line
    state.turn_start();
    let t = state.turn_start();
    assert!(t.newline);
    assert!(!state.in_text);
}

#[test]
fn agent_end_sums_assistant_usage_and_reports_errors() {
    let mut state = PromptState::new();
    state.text_delta("partial");
    let messages = vec![
        AgentMessage::Llm(Message::user("q")),
        assistant(vec![], usage(10, 5, 1, 2), None),
        assistant(vec![], usage(3, 4, 0, 0), Some("overloaded")),
        assistant(vec![], usage(1, 1, 1, 1), Some("again")),
    ];
    let end = state.agent_end(&messages);
    assert_eq!(state.last_usage, usage(14, 10, 2, 3));
    assert!(end.newline);
    assert_eq!(end.errors, vec!["overloaded", "again"]);
    assert!(!state.in_text);
}

#[test]
fn session_total_adds_up() {
    let mut total = usage(1, 2, 3, 4);
    total.add(&usage(10, 20, 30, 40));
    assert_eq!(total, usage(11, 22, 33, 44));
}

#[test]
fn tool_previews() {
    let failed = ToolResult { content: vec![Content::Text { text: "  boom\nmore".into() }] };
    assert_eq!(tool_end_preview(&failed, true, false).unwrap(), "boom");
    assert!(tool_end_preview(&failed, false, false).is_none());
    assert_eq!(tool_end_preview(&failed, false, true).unwrap(), "boom");
    let empty = ToolResult { content: vec![Content::Other] };
    assert!(tool_end_preview(&empty, true, true).is_none());
    assert!(tool_update_preview(&empty).is_none());
    let long = ToolResult { content: vec![Content::Text { text: "b".repeat(600) }] };
    assert_eq!(tool_update_preview(&long).unwrap().chars().count(), 501);
}

#[test]
fn assistant_summary_counts_tool_calls() {
    let content = vec![
        Content::Text { text: "".into() },
        Content::Text { text: "Let me look.".into() },
        Content::ToolCall { name: "read".into() },
        Content::ToolCall { name: "grep".into() },
        Content::Other,
        Content::ToolCall { name: "bash".into() },
        Content::ToolCall { name: "edit".into() },
        Content::ToolCall { name: "write".into() },
    ];
    let msg = assistant(content, usage(0, 0, 0, 0), None);
    let (role, preview) = summarize_message(&msg);
    assert_eq!(role, "assistant");
    assert_eq!(preview, "Let me look.  →read  →grep  →bash  (+2 more tools)");
    let (_, empty) = summarize_message(&assistant(vec![], usage(0, 0, 0, 0), None));
    assert_eq!(empty, "(empty)");
}

#[test]
fn user_and_extension_summaries_are_cut() {
    let long = "y".repeat(100);
    let (_, p) = summarize_message(&AgentMessage::Llm(Message::user(&long)));
    assert_eq!(p, format!("{}…", "y".repeat(80)));
    let ext = AgentMessage::Extension(ExtensionMessage { role: "z".repeat(61) });
    let (role, p) = summarize_message(&ext);
    assert_eq!(role, "ext");
    assert_eq!(p, format!("{}…", "z".repeat(60)));
}

#[test]
fn extracted_text_of_each_kind() {
    let a = assistant(
        vec![Content::Text { text: "hi".into() }, Content::ToolCall { name: "bash".into() }],
        usage(0, 0, 0, 0),
        None,
    );
    assert_eq!(extract_message_text(&a), "hi bash");
    assert_eq!(message_role(&a), "assistant");
    let u = AgentMessage::Llm(Message::User {
        content: vec![
            Content::Text { text: "a".into() },
            Content::ToolCall { name: "ignored".into() },
            Content::Text { text: "b".into() },
        ],
    });
    assert_eq!(extract_message_text(&u), "a b");
    let ext = AgentMessage::Extension(ExtensionMessage { role: "note".into() });
    assert_eq!(extract_message_text(&ext), "note");
    assert_eq!(message_role(&ext), "ext");
}

#[test]
fn truncation() {
    assert_eq!(truncate_with_ellipsis("short", 10), "short");
    assert_eq!(truncate_with_ellipsis("exactly10!", 10), "exactly10!");
    assert_eq!(truncate_with_ellipsis("héllo wörld", 5), "héllo…");
    assert_eq!(truncate_with_ellipsis("abc", 0), "…");
}

#[test]
fn decimal_digits() {
    let d: String = decimal(0).into_iter().collect();
    assert_eq!(d, "0");
    let d: String = decimal(1234567890).into_iter().collect();
    assert_eq!(d, "1234567890");
    let d: String = decimal(u64::MAX).into_iter().collect();
    assert_eq!(d, u64::MAX.to_string());
}

#[test]
fn excerpt_windows() {
    // window of 10 bytes each side, widened to character boundaries
    let text = "The quick brown fox jumps over the lazy dog";
    assert_eq!(build_excerpt(text, "fox", 10), "…ick brown fox jumps ove…");
    // newlines collapse and the excerpt is trimmed
    assert_eq!(build_excerpt("a\nb fox c\nd", "fox", 40), "a b fox c d");
    // a match at the very end leaves no trailing ellipsis
    assert_eq!(build_excerpt("0123456789fox", "fox", 2), "…89fox");
    // multi-byte characters: offsets counted in bytes, cut at boundaries
    assert_eq!(build_excerpt("ééééé fox", "fox", 3), "…é fox");
    // the lowercase text may differ from the shown text
    assert_eq!(excerpt_from("ABC", "abc", "b", 0), "…B…");
}

#[test]
fn search_is_case_insensitive_beyond_ascii() {
    let messages = vec![
        AgentMessage::Llm(Message::user("L'ÉCOLE est fermée")),
        AgentMessage::Llm(Message::user("rien")),
    ];
    let results = search_messages(&messages, "école", 10);
    assert_eq!(results.len(), 1);
    assert_eq!(results[0].index, 1);
    assert_eq!(results[0].excerpt, "L'ÉCOLE est fermée");
}

#[test]
fn search_with_zero_limit_returns_nothing() {
    let messages = vec![
        AgentMessage::Llm(Message::user("key one")),
        AgentMessage::Llm(Message::user("key two")),
    ];
    assert!(search_messages(&messages, "KEY", 0).is_empty());
    let results = search_messages(&messages, "KEY", 1);
    assert_eq!(results.len(), 1);
    assert_eq!(results[0].index, 1);
}

#[test]
fn search_finds_tool_names_and_extension_roles() {
    let messages = vec![
        AgentMessage::Extension(ExtensionMessage { role: "reminder".into() }),
        assistant(vec![Content::ToolCall { name: "grep".into() }], usage(0, 0, 0, 0), None),
    ];
    let r = search_messages(&messages, "grep", 10);
    assert_eq!(r.len(), 1);
    assert_eq!(r[0].index, 2);
    assert_eq!(r[0].role, "assistant");
    let r = search_messages(&messages, "remind", 10);
    assert_eq!(r[0].role, "ext");
}

#[test]
fn excerpt_window_overflow_is_refused() {
    assert!(!excerpt_fits_exec("abc fox", "fox", usize::MAX));
    assert!(excerpt_fits_exec("abc fox", "fox", usize::MAX - 7));
    assert!(excerpt_fits_exec("abc", "xyz", usize::MAX));
    assert_eq!(try_build_excerpt("abc fox", "fox", usize::MAX), None);
    assert_eq!(try_build_excerpt("abc", "xyz", usize::MAX), Some(String::new()));
    assert_eq!(try_build_excerpt("Abc Fox", "fox", 1), Some("…Fox".to_string()));
}

#[test]
fn search_over_given_lowercase_texts() {
    let messages = vec![
        AgentMessage::Llm(Message::user("First")),
        AgentMessage::Llm(Message::user("Second")),
    ];
    let lowered = vec!["first".to_string(), "second".to_string()];
    let r = search_lowered(&messages, &lowered, "sec", 10);
    assert_eq!(r.len(), 1);
    assert_eq!(r[0].index, 2);
    assert_eq!(r[0].excerpt, "Second");
    assert!(search_lowered(&messages, &lowered, "SEC", 10).is_empty());
}

#[test]
fn excerpt_of_lowercase_text_shows_the_match() {
    for ctx in [0, 1, 5, 40] {
        let e = build_excerpt("the quick brown fox jumps", "brown fox", ctx);
        assert!(e.contains("brown fox"), "{ctx}: {e}");
    }
    assert_eq!(build_excerpt("the quick brown fox", "fox", 0), "…fox");
}

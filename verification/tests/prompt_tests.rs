use yoyo::message::{
    extract_message_text, summarize_message, tool_result_preview, AgentMessage, Content, Message,
    ToolResult,
};
use yoyo::prompt::format_turn_indicator;
use yoyo::search::{build_excerpt, search_messages};

#[test]
fn test_summarize_message_user() {
    let msg = AgentMessage::Llm(Message::user("hello world, this is a test"));
    let (role, preview) = summarize_message(&msg);
    assert_eq!(role, "user");
    assert!(preview.contains("hello world"));
}

#[test]
fn test_summarize_message_tool_result() {
    let msg = AgentMessage::Llm(Message::ToolResult {
        tool_call_id: "tc_1".into(),
        tool_name: "bash".into(),
        content: vec![Content::Text {
            text: "output".into(),
        }],
        is_error: false,
        timestamp: 0,
    });
    let (role, preview) = summarize_message(&msg);
    assert_eq!(role, "tool");
    assert!(preview.contains("bash"));
    assert!(preview.contains("✓"));
}

#[test]
fn test_summarize_message_tool_result_error() {
    let msg = AgentMessage::Llm(Message::ToolResult {
        tool_call_id: "tc_2".into(),
        tool_name: "bash".into(),
        content: vec![Content::Text {
            text: "error".into(),
        }],
        is_error: true,
        timestamp: 0,
    });
    let (role, preview) = summarize_message(&msg);
    assert_eq!(role, "tool");
    assert!(preview.contains("✗"));
}

#[test]
fn test_tool_result_preview_empty() {
    let result = ToolResult { content: vec![] };
    assert_eq!(tool_result_preview(&result, 100), "");
}

#[test]
fn test_tool_result_preview_text() {
    let result = ToolResult {
        content: vec![Content::Text {
            text: "error: file not found".into(),
        }],
    };
    assert_eq!(tool_result_preview(&result, 100), "error: file not found");
}

#[test]
fn test_tool_result_preview_truncated() {
    let result = ToolResult {
        content: vec![Content::Text {
            text: "a".repeat(200),
        }],
    };
    let preview = tool_result_preview(&result, 50);
    assert!(preview.len() < 100);
    assert!(preview.ends_with('…'));
}

#[test]
fn test_tool_result_preview_multiline() {
    let result = ToolResult {
        content: vec![Content::Text {
            text: "first line\nsecond line\nthird line".into(),
        }],
    };
    assert_eq!(tool_result_preview(&result, 100), "first line");
}

#[test]
fn test_search_messages_basic() {
    let messages = vec![
        AgentMessage::Llm(Message::user("hello world")),
        AgentMessage::Llm(Message::user("goodbye world")),
        AgentMessage::Llm(Message::user("hello again")),
    ];
    let results = search_messages(&messages, "hello", 10);
    assert_eq!(results.len(), 2);
    assert_eq!(results[0].index, 1);
    assert_eq!(results[0].role, "user");
    assert!(results[0].excerpt.contains("hello"));
    assert_eq!(results[1].index, 3);
}

#[test]
fn test_search_messages_case_insensitive() {
    let messages = vec![
        AgentMessage::Llm(Message::user("Hello World")),
        AgentMessage::Llm(Message::user("HELLO AGAIN")),
    ];
    let results = search_messages(&messages, "hello", 10);
    assert_eq!(results.len(), 2);
}

#[test]
fn test_search_messages_no_match() {
    let messages = vec![AgentMessage::Llm(Message::user("hello world"))];
    let results = search_messages(&messages, "xyz", 10);
    assert!(results.is_empty());
}

#[test]
fn test_search_messages_max_results() {
    let messages: Vec<AgentMessage> = (0..20)
        .map(|i| AgentMessage::Llm(Message::user(&format!("message {i} with keyword"))))
        .collect();
    let results = search_messages(&messages, "keyword", 5);
    assert_eq!(results.len(), 5);
}

#[test]
fn test_search_messages_empty() {
    let results = search_messages(&[], "test", 10);
    assert!(results.is_empty());
}

#[test]
fn test_search_messages_tool_result() {
    let messages = vec![AgentMessage::Llm(Message::ToolResult {
        tool_call_id: "tc_1".into(),
        tool_name: "bash".into(),
        content: vec![Content::Text {
            text: "error: file not found".into(),
        }],
        is_error: true,
        timestamp: 0,
    })];
    let results = search_messages(&messages, "file not found", 10);
    assert_eq!(results.len(), 1);
    assert_eq!(results[0].role, "tool");
    assert!(results[0].excerpt.contains("file not found"));
}

#[test]
fn test_extract_message_text_user() {
    let msg = AgentMessage::Llm(Message::user("test content"));
    let text = extract_message_text(&msg);
    assert_eq!(text, "test content");
}

#[test]
fn test_extract_message_text_tool_result() {
    let msg = AgentMessage::Llm(Message::ToolResult {
        tool_call_id: "tc_1".into(),
        tool_name: "read_file".into(),
        content: vec![Content::Text {
            text: "file contents here".into(),
        }],
        is_error: false,
        timestamp: 0,
    });
    let text = extract_message_text(&msg);
    assert!(text.contains("read_file"));
    assert!(text.contains("file contents here"));
}

#[test]
fn test_build_excerpt_basic() {
    let text = "The quick brown fox jumps over the lazy dog";
    let excerpt = build_excerpt(text, "fox", 10);
    assert!(excerpt.contains("fox"));
    // Should have ellipsis since match is in the middle
    assert!(excerpt.contains("…"));
}

#[test]
fn test_build_excerpt_at_start() {
    let text = "hello world test";
    let excerpt = build_excerpt(text, "hello", 40);
    assert!(excerpt.starts_with("hello"));
}

#[test]
fn test_build_excerpt_no_match() {
    let text = "hello world";
    let excerpt = build_excerpt(text, "xyz", 40);
    assert!(excerpt.is_empty());
}

#[test]
fn test_turn_counter_skips_turn_1() {
    // Turn 1 should produce no output (it's obvious)
    assert!(format_turn_indicator(1).is_none());
}

#[test]
fn test_turn_counter_shows_turn_2() {
    let indicator = format_turn_indicator(2);
    assert!(indicator.is_some());
    let text = indicator.unwrap();
    assert!(text.contains("turn 2"));
}

#[test]
fn test_turn_counter_shows_turn_5() {
    let indicator = format_turn_indicator(5);
    assert!(indicator.is_some());
    let text = indicator.unwrap();
    assert!(text.contains("turn 5"));
}

#[test]
fn test_turn_counter_zero_skipped() {
    // Edge case: turn 0 should also be skipped
    assert!(format_turn_indicator(0).is_none());
}

#[test]
fn test_turn_counter_increments_correctly() {
    // Simulate the event loop logic
    let mut turn_count: usize = 0;
    let mut displayed = Vec::new();

    for _ in 0..4 {
        turn_count += 1;
        if let Some(indicator) = format_turn_indicator(turn_count) {
            displayed.push(indicator);
        }
    }

    // Turn 1 skipped, turns 2-4 displayed
    assert_eq!(displayed.len(), 3);
    assert!(displayed[0].contains("turn 2"));
    assert!(displayed[1].contains("turn 3"));
    assert!(displayed[2].contains("turn 4"));
}

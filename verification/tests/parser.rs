use vischat::parser::{apply, parse_record_line};
use vischat::message::{ContentBlock, LogicalMessage, ToolResultContent};
use vischat::parser::parse_str;

const SYSTEM_LINE: &str = r#"{"type":"system","subtype":"init","cwd":"/app","session_id":"sess-001","tools":["Bash","Read"],"model":"model-test","uuid":"uuid-sys"}"#;
const ASSISTANT_LINE: &str = r#"{"type":"assistant","message":{"id":"msg-001","role":"assistant","content":[{"type":"text","text":"Hello!"}]},"session_id":"sess-001","uuid":"uuid-asst"}"#;
const USER_LINE: &str = r#"{"type":"user","message":{"role":"user","content":[{"type":"tool_result","tool_use_id":"tool-001","content":"done","is_error":false}]},"session_id":"sess-001","uuid":"uuid-user"}"#;

#[test]
fn test_parse_empty_string() {
    let messages = parse_str("").unwrap();
    assert!(messages.is_empty());
}

#[test]
fn test_parse_whitespace_only() {
    let messages = parse_str("   \n\n  ").unwrap();
    assert!(messages.is_empty());
}

#[test]
fn test_parse_system_init() {
    let messages = parse_str(SYSTEM_LINE).unwrap();
    assert_eq!(messages.len(), 1);
    match &messages[0] {
        LogicalMessage::SystemInit { session_id, model, cwd, tools } => {
            assert_eq!(session_id, "sess-001");
            assert_eq!(model, "model-test");
            assert_eq!(cwd, "/app");
            assert_eq!(tools, &["Bash", "Read"]);
        }
        _ => panic!("Expected SystemInit"),
    }
}

#[test]
fn test_parse_system_non_init_subtype_ignored() {
    let line = r#"{"type":"system","subtype":"other","session_id":"s","uuid":"u"}"#;
    let messages = parse_str(line).unwrap();
    assert!(messages.is_empty());
}

#[test]
fn test_parse_assistant_turn() {
    let messages = parse_str(ASSISTANT_LINE).unwrap();
    assert_eq!(messages.len(), 1);
    match &messages[0] {
        LogicalMessage::AssistantTurn { id, blocks } => {
            assert_eq!(id, "msg-001");
            assert_eq!(blocks.len(), 1);
            assert!(matches!(&blocks[0], ContentBlock::Text { text } if text == "Hello!"));
        }
        _ => panic!("Expected AssistantTurn"),
    }
}

#[test]
fn test_parse_user_turn() {
    let messages = parse_str(USER_LINE).unwrap();
    assert_eq!(messages.len(), 1);
    match &messages[0] {
        LogicalMessage::UserTurn { blocks } => assert_eq!(blocks.len(), 1),
        _ => panic!("Expected UserTurn"),
    }
}

#[test]
fn test_parse_user_empty_blocks_not_emitted() {
    let line = r#"{"type":"user","message":{"role":"user","content":[{"type":"unknown"}]},"session_id":"s","uuid":"u"}"#;
    let messages = parse_str(line).unwrap();
    assert!(messages.is_empty());
}

#[test]
fn test_parse_full_conversation() {
    let content = format!("{}\n{}\n{}", SYSTEM_LINE, ASSISTANT_LINE, USER_LINE);
    let messages = parse_str(&content).unwrap();
    assert_eq!(messages.len(), 3);
    assert!(matches!(messages[0], LogicalMessage::SystemInit { .. }));
    assert!(matches!(messages[1], LogicalMessage::AssistantTurn { .. }));
    assert!(matches!(messages[2], LogicalMessage::UserTurn { .. }));
}

#[test]
fn test_parse_assistant_blocks_grouped_by_same_id() {
    let line1 = r#"{"type":"assistant","message":{"id":"msg-001","role":"assistant","content":[{"type":"thinking","thinking":"hmm","signature":"s"}]},"session_id":"s","uuid":"u1"}"#;
    let line2 = r#"{"type":"assistant","message":{"id":"msg-001","role":"assistant","content":[{"type":"text","text":"result"}]},"session_id":"s","uuid":"u2"}"#;
    let messages = parse_str(&format!("{}\n{}", line1, line2)).unwrap();
    assert_eq!(messages.len(), 1);
    match &messages[0] {
        LogicalMessage::AssistantTurn { blocks, .. } => assert_eq!(blocks.len(), 2),
        _ => panic!(),
    }
}

#[test]
fn test_parse_assistant_blocks_split_by_different_id() {
    let line1 = r#"{"type":"assistant","message":{"id":"msg-001","role":"assistant","content":[{"type":"text","text":"first"}]},"session_id":"s","uuid":"u1"}"#;
    let line2 = r#"{"type":"assistant","message":{"id":"msg-002","role":"assistant","content":[{"type":"text","text":"second"}]},"session_id":"s","uuid":"u2"}"#;
    let messages = parse_str(&format!("{}\n{}", line1, line2)).unwrap();
    assert_eq!(messages.len(), 2);
}

#[test]
fn test_parse_skips_blank_lines() {
    let content = format!("\n{}\n\n{}\n", SYSTEM_LINE, ASSISTANT_LINE);
    let messages = parse_str(&content).unwrap();
    assert_eq!(messages.len(), 2);
}

#[test]
fn test_parse_invalid_json_returns_error() {
    let result = parse_str("not valid json");
    assert!(result.is_err());
}

#[test]
fn test_parse_trailing_assistant_turn_flushed() {
    let messages = parse_str(ASSISTANT_LINE).unwrap();
    assert_eq!(messages.len(), 1);
    assert!(matches!(messages[0], LogicalMessage::AssistantTurn { .. }));
}

#[test]
fn test_parse_unknown_record_type_ignored() {
    let line = r#"{"type":"summary","content":"some summary","session_id":"s","uuid":"u"}"#;
    let messages = parse_str(line).unwrap();
    assert!(messages.is_empty());
}

// ── Further cases ────────────────────────────────────────────────────────────

#[test]
fn error_names_the_first_bad_line() {
    let content = format!("{}\n\n  \n{{\"type\": 3}}\nnot json\n", SYSTEM_LINE);
    let err = parse_str(&content).unwrap_err();
    assert_eq!(err.line, 4);
    let err = parse_str("\r\n\r\nnope").unwrap_err();
    assert_eq!(err.line, 3);
}

#[test]
fn crlf_line_endings_are_accepted() {
    let content = format!("{}\r\n{}\r\n", SYSTEM_LINE, ASSISTANT_LINE);
    let messages = parse_str(&content).unwrap();
    assert_eq!(messages.len(), 2);
}

#[test]
fn user_record_closes_assistant_turn() {
    let a1 = r#"{"type":"assistant","message":{"id":"m1","content":[{"type":"text","text":"a"}]}}"#;
    let u = r#"{"type":"user","message":{"content":"plain text"}}"#;
    let a2 = r#"{"type":"assistant","message":{"id":"m1","content":[{"type":"text","text":"b"}]}}"#;
    let messages = parse_str(&format!("{}\n{}\n{}", a1, u, a2)).unwrap();
    // the user record has no blocks (its content is no array), yet it closes the turn
    assert_eq!(messages.len(), 2);
    assert!(matches!(&messages[0], LogicalMessage::AssistantTurn { id, .. } if id == "m1"));
    assert!(matches!(&messages[1], LogicalMessage::AssistantTurn { id, .. } if id == "m1"));
}

#[test]
fn assistant_without_id_groups_under_empty_id() {
    let a1 = r#"{"type":"assistant","message":{"content":[{"type":"text","text":"a"}]}}"#;
    let a2 = r#"{"type":"assistant","message":{"id":null,"content":[{"type":"text","text":"b"}]}}"#;
    let none = r#"{"type":"assistant"}"#;
    let messages = parse_str(&format!("{}\n{}\n{}", a1, none, a2)).unwrap();
    assert_eq!(messages.len(), 1);
    match &messages[0] {
        LogicalMessage::AssistantTurn { id, blocks } => {
            assert_eq!(id, "");
            assert_eq!(blocks.len(), 2);
        }
        _ => panic!(),
    }
}

#[test]
fn assistant_turn_without_blocks_is_dropped() {
    let a1 = r#"{"type":"assistant","message":{"id":"m1","content":[{"type":"mystery"}]}}"#;
    let a2 = r#"{"type":"assistant","message":{"id":"m2","content":"text"}}"#;
    let messages = parse_str(&format!("{}\n{}", a1, a2)).unwrap();
    assert!(messages.is_empty());
}

#[test]
fn system_init_defaults_missing_fields() {
    let messages = parse_str(r#"{"type":"system","subtype":"init"}"#).unwrap();
    match &messages[0] {
        LogicalMessage::SystemInit { session_id, model, cwd, tools } => {
            assert_eq!(session_id, "");
            assert_eq!(model, "");
            assert_eq!(cwd, "");
            assert!(tools.is_empty());
        }
        _ => panic!(),
    }
}

#[test]
fn wrongly_typed_fields_are_errors() {
    assert_eq!(parse_str(r#"{"type":"user","uuid":1}"#).unwrap_err().line, 1);
    assert_eq!(parse_str(r#"{"type":"system","tools":"Bash"}"#).unwrap_err().line, 1);
    assert_eq!(parse_str(r#"{"type":"user","message":{"id":2}}"#).unwrap_err().line, 1);
    assert_eq!(parse_str(r#"[1,2]"#).unwrap_err().line, 1);
    assert_eq!(parse_str(r#""text""#).unwrap_err().line, 1);
}

#[test]
fn tool_result_content_read_from_user_record() {
    let u = r#"{"type":"user","message":{"content":[{"type":"tool_result","tool_use_id":"x","content":[{"type":"text","text":"l1"},{"type":"text","text":"l2"}]}]}}"#;
    let messages = parse_str(u).unwrap();
    match &messages[0] {
        LogicalMessage::UserTurn { blocks } => match &blocks[0] {
            ContentBlock::ToolResult { content: ToolResultContent::Text(t), .. } => {
                assert_eq!(t, "l1\nl2")
            }
            _ => panic!(),
        },
        _ => panic!(),
    }
}

#[test]
fn final_newline_changes_nothing() {
    let a = parse_str(SYSTEM_LINE).unwrap();
    let b = parse_str(&format!("{}\n", SYSTEM_LINE)).unwrap();
    assert_eq!(a.len(), b.len());
    assert_eq!(format!("{:?}", a), format!("{:?}", b));
}

#[test]
fn skipped_lines_change_nothing() {
    let base = format!("{}\n{}\n{}\n{}", SYSTEM_LINE, ASSISTANT_LINE, ASSISTANT_LINE, USER_LINE);
    let expected = format!("{:?}", parse_str(&base).unwrap());
    let other = r#"{"type":"summary","summary":"s","leafUuid":"x"}"#;
    for extra in ["", "   \t", other] {
        for at in 0..4 {
            let mut lines: Vec<&str> = base.lines().collect();
            lines.insert(at, extra);
            let text = lines.join("\n");
            assert_eq!(format!("{:?}", parse_str(&text).unwrap()), expected);
        }
    }
}

#[test]
fn skipped_line_moves_a_later_error_by_one() {
    let text = format!("{}\nnot json\n", SYSTEM_LINE);
    assert_eq!(parse_str(&text).unwrap_err().line, 2);
    let other = r#"{"type":"progress"}"#;
    let text = format!("{}\n{}\nnot json\n", SYSTEM_LINE, other);
    assert_eq!(parse_str(&text).unwrap_err().line, 3);
    let text = format!("not json\n{}\n", other);
    assert_eq!(parse_str(&text).unwrap_err().line, 1);
}

#[test]
fn record_lines_and_apply_step_by_step() {
    assert!(parse_record_line("not json").is_none());
    assert!(parse_record_line(r#"{"subtype":"init"}"#).is_none());
    let mut id = None;
    let mut blocks = Vec::new();
    let mut messages = Vec::new();
    apply(parse_record_line(ASSISTANT_LINE).unwrap(), &mut id, &mut blocks, &mut messages);
    assert_eq!(id.as_deref(), Some("msg-001"));
    assert_eq!(blocks.len(), 1);
    assert!(messages.is_empty());
    apply(parse_record_line(USER_LINE).unwrap(), &mut id, &mut blocks, &mut messages);
    assert!(id.is_none() && blocks.is_empty());
    assert_eq!(messages.len(), 2);
    assert!(matches!(&messages[0], LogicalMessage::AssistantTurn { id, .. } if id == "msg-001"));
    assert!(matches!(&messages[1], LogicalMessage::UserTurn { .. }));
}


#[test]
fn several_skipped_lines_change_nothing() {
    let base = format!("{}\n{}\n{}\n{}", SYSTEM_LINE, ASSISTANT_LINE, ASSISTANT_LINE, USER_LINE);
    let expected = format!("{:?}", parse_str(&base).unwrap());
    let extras = ["", r#"{"type":"summary","summary":"s"}"#, "  ", r#"{"type":"progress"}"#];
    for at in 0..4 {
        let mut lines: Vec<&str> = base.lines().collect();
        for (n, extra) in extras.iter().enumerate() {
            lines.insert(at + n, extra);
        }
        assert_eq!(format!("{:?}", parse_str(&lines.join("\n")).unwrap()), expected);
    }
    let bad = format!("{}\nnot json\n", SYSTEM_LINE);
    assert_eq!(parse_str(&bad).unwrap_err().line, 2);
    let bad = format!("{}\n\n{}\n  \nnot json\n", SYSTEM_LINE, extras[1]);
    assert_eq!(parse_str(&bad).unwrap_err().line, 5);
}


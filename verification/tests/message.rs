use vischat::text::str_eq;
use vischat::message::{raw_result_texts, tool_use_item};
use vischat::json::JsonValue;
use vischat::message::{
    is_displayable, parse_tool_result_content, ContentBlock, DisplayItem, LogicalMessage,
    RawRecord, Role, ToolResultContent,
};
use vischat::text::first_line;

fn s(text: &str) -> JsonValue {
    JsonValue::Str(text.to_string())
}

fn obj(members: Vec<(&str, JsonValue)>) -> JsonValue {
    JsonValue::Object(members.into_iter().map(|(k, v)| (k.to_string(), v)).collect())
}

fn arr(items: Vec<JsonValue>) -> JsonValue {
    JsonValue::Array(items)
}

fn num(n: u64) -> JsonValue {
    JsonValue::Number(serde_json::Number::from(n))
}

#[test]
fn test_first_line_normal() {
    assert_eq!(first_line("hello world", 80), "hello world");
}

#[test]
fn test_first_line_truncate() {
    let long = "a".repeat(100);
    let result = first_line(&long, 80);
    assert!(result.ends_with('…'));
    assert_eq!(result.chars().count(), 81);
}

#[test]
fn test_first_line_multiline() {
    assert_eq!(first_line("first\nsecond\nthird", 80), "first");
}

#[test]
fn test_first_line_trims_whitespace() {
    assert_eq!(first_line("  hello  ", 80), "hello");
}

#[test]
fn test_first_line_empty() {
    assert_eq!(first_line("", 80), "");
}

#[test]
fn test_content_block_thinking() {
    let v = obj(vec![
        ("type", s("thinking")),
        ("thinking", s("Let me think")),
        ("signature", s("sig123")),
    ]);
    let block = ContentBlock::from_value(&v).unwrap();
    match block {
        ContentBlock::Thinking { thinking, signature } => {
            assert_eq!(thinking, "Let me think");
            assert_eq!(signature, Some("sig123".to_string()));
        }
        _ => panic!("Expected Thinking"),
    }
}

#[test]
fn test_content_block_thinking_no_signature() {
    let v = obj(vec![("type", s("thinking")), ("thinking", s("hmm"))]);
    let block = ContentBlock::from_value(&v).unwrap();
    match block {
        ContentBlock::Thinking { signature, .. } => assert!(signature.is_none()),
        _ => panic!(),
    }
}

#[test]
fn test_content_block_text() {
    let v = obj(vec![("type", s("text")), ("text", s("Hello!"))]);
    let block = ContentBlock::from_value(&v).unwrap();
    match block {
        ContentBlock::Text { text } => assert_eq!(text, "Hello!"),
        _ => panic!(),
    }
}

#[test]
fn test_content_block_tool_use() {
    let v = obj(vec![
        ("type", s("tool_use")),
        ("id", s("tool-001")),
        ("name", s("Bash")),
        ("input", obj(vec![("command", s("ls"))])),
    ]);
    let block = ContentBlock::from_value(&v).unwrap();
    match block {
        ContentBlock::ToolUse { id, name, input } => {
            assert_eq!(id, "tool-001");
            assert_eq!(name, "Bash");
            match input.get("command") {
                Some(JsonValue::Str(c)) => assert_eq!(c, "ls"),
                _ => panic!(),
            }
        }
        _ => panic!(),
    }
}

#[test]
fn test_content_block_tool_use_missing_input_uses_null() {
    let v = obj(vec![("type", s("tool_use")), ("id", s("t1")), ("name", s("Read"))]);
    let block = ContentBlock::from_value(&v).unwrap();
    match block {
        ContentBlock::ToolUse { input, .. } => assert!(matches!(input, JsonValue::Null)),
        _ => panic!(),
    }
}

#[test]
fn test_content_block_tool_result_string() {
    let v = obj(vec![
        ("type", s("tool_result")),
        ("tool_use_id", s("tool-001")),
        ("content", s("result text")),
        ("is_error", JsonValue::Bool(false)),
    ]);
    let block = ContentBlock::from_value(&v).unwrap();
    match block {
        ContentBlock::ToolResult { tool_use_id, content, is_error } => {
            assert_eq!(tool_use_id, "tool-001");
            assert!(!is_error);
            match content {
                ToolResultContent::Text(t) => assert_eq!(t, "result text"),
                _ => panic!(),
            }
        }
        _ => panic!(),
    }
}

#[test]
fn test_content_block_tool_result_error_flag() {
    let v = obj(vec![
        ("type", s("tool_result")),
        ("tool_use_id", s("t2")),
        ("content", s("error msg")),
        ("is_error", JsonValue::Bool(true)),
    ]);
    let block = ContentBlock::from_value(&v).unwrap();
    match block {
        ContentBlock::ToolResult { is_error, .. } => assert!(is_error),
        _ => panic!(),
    }
}

#[test]
fn test_content_block_tool_result_references() {
    let v = obj(vec![
        ("type", s("tool_result")),
        ("tool_use_id", s("t3")),
        (
            "content",
            arr(vec![
                obj(vec![("type", s("tool_reference")), ("tool_name", s("Bash"))]),
                obj(vec![("type", s("tool_reference")), ("tool_name", s("Read"))]),
            ]),
        ),
    ]);
    let block = ContentBlock::from_value(&v).unwrap();
    match block {
        ContentBlock::ToolResult { content, .. } => match content {
            ToolResultContent::References(refs) => {
                assert_eq!(refs, vec!["Bash", "Read"]);
            }
            _ => panic!(),
        },
        _ => panic!(),
    }
}

#[test]
fn test_content_block_tool_result_text_array() {
    let v = obj(vec![
        ("type", s("tool_result")),
        ("tool_use_id", s("t4")),
        (
            "content",
            arr(vec![
                obj(vec![("type", s("text")), ("text", s("line one"))]),
                obj(vec![("type", s("text")), ("text", s("line two"))]),
            ]),
        ),
    ]);
    let block = ContentBlock::from_value(&v).unwrap();
    match block {
        ContentBlock::ToolResult { content, .. } => match content {
            ToolResultContent::Text(t) => assert!(t.contains("line one") && t.contains("line two")),
            _ => panic!(),
        },
        _ => panic!(),
    }
}

#[test]
fn test_content_block_tool_result_no_content() {
    let v = obj(vec![("type", s("tool_result")), ("tool_use_id", s("t5"))]);
    let block = ContentBlock::from_value(&v).unwrap();
    match block {
        ContentBlock::ToolResult { content, .. } => match content {
            ToolResultContent::Text(t) => assert!(t.is_empty()),
            _ => panic!(),
        },
        _ => panic!(),
    }
}

#[test]
fn test_content_block_unknown_type_returns_none() {
    let v = obj(vec![("type", s("unknown_block"))]);
    assert!(ContentBlock::from_value(&v).is_none());
}

#[test]
fn test_content_block_missing_type_returns_none() {
    let v = obj(vec![("text", s("no type field"))]);
    assert!(ContentBlock::from_value(&v).is_none());
}

#[test]
fn test_display_item_system_init() {
    let msg = LogicalMessage::SystemInit {
        session_id: "abc12345def".to_string(),
        model: "anthropic/model-test".to_string(),
        cwd: "/app".to_string(),
        tools: vec!["Bash".to_string(), "Read".to_string()],
    };
    let items = DisplayItem::from_logical(&msg);
    assert_eq!(items.len(), 1);
    assert_eq!(items[0].role, Role::System);
    assert_eq!(items[0].badge, "[SYS]");
    assert!(items[0].summary.contains("model-test"));
    assert!(items[0].detail.contains("Bash"));
    assert!(items[0].detail.contains("Read"));
}

#[test]
fn test_display_item_system_init_empty_tools() {
    let msg = LogicalMessage::SystemInit {
        session_id: "s".to_string(),
        model: "m".to_string(),
        cwd: "/".to_string(),
        tools: vec![],
    };
    let items = DisplayItem::from_logical(&msg);
    assert_eq!(items.len(), 1);
    assert!(items[0].summary.contains("tools=0"));
}

#[test]
fn test_display_item_assistant_turn_blocks() {
    let msg = LogicalMessage::AssistantTurn {
        id: "msg-001".to_string(),
        blocks: vec![
            ContentBlock::Thinking { thinking: "hmm".to_string(), signature: None },
            ContentBlock::Text { text: "response".to_string() },
        ],
    };
    let items = DisplayItem::from_logical(&msg);
    assert_eq!(items.len(), 2);
    assert_eq!(items[0].role, Role::Thinking);
    assert_eq!(items[0].badge, "[THINK]");
    assert_eq!(items[1].role, Role::Assistant);
    assert_eq!(items[1].badge, "[ASST]");
}

#[test]
fn test_display_item_tool_use() {
    let msg = LogicalMessage::AssistantTurn {
        id: "msg-002".to_string(),
        blocks: vec![ContentBlock::ToolUse {
            id: "toolu-001".to_string(),
            name: "Bash".to_string(),
            input: obj(vec![("command", s("ls"))]),
        }],
    };
    let items = DisplayItem::from_logical(&msg);
    assert_eq!(items.len(), 1);
    assert_eq!(items[0].role, Role::ToolUse);
    assert_eq!(items[0].badge, "[TOOL>]");
    assert!(items[0].summary.contains("Bash"));
    assert!(items[0].detail.contains("ls"));
}

#[test]
fn test_display_item_tool_result_error_mark() {
    let msg = LogicalMessage::UserTurn {
        blocks: vec![ContentBlock::ToolResult {
            tool_use_id: "toolu-001".to_string(),
            content: ToolResultContent::Text("fail".to_string()),
            is_error: true,
        }],
    };
    let items = DisplayItem::from_logical(&msg);
    assert_eq!(items.len(), 1);
    assert_eq!(items[0].role, Role::ToolResult);
    assert!(items[0].summary.contains("[ERROR]"));
}

#[test]
fn test_display_item_tool_result_ok() {
    let msg = LogicalMessage::UserTurn {
        blocks: vec![ContentBlock::ToolResult {
            tool_use_id: "toolu-abcdefgh".to_string(),
            content: ToolResultContent::Text("success output".to_string()),
            is_error: false,
        }],
    };
    let items = DisplayItem::from_logical(&msg);
    assert_eq!(items.len(), 1);
    assert!(!items[0].summary.contains("[ERROR]"));
    assert!(items[0].summary.contains("toolu-ab"));
}

#[test]
fn test_tool_result_content_raw_from_non_array_value() {
    let v = obj(vec![
        ("type", s("tool_result")),
        ("tool_use_id", s("t6")),
        ("content", obj(vec![("key", s("value"))])),
    ]);
    let block = ContentBlock::from_value(&v).unwrap();
    match block {
        ContentBlock::ToolResult { content, .. } => match content {
            ToolResultContent::Raw(_) => {}
            _ => panic!("Expected Raw"),
        },
        _ => panic!(),
    }
}

#[test]
fn test_tool_result_content_raw_from_mixed_array() {
    let v = obj(vec![
        ("type", s("tool_result")),
        ("tool_use_id", s("t7")),
        (
            "content",
            arr(vec![obj(vec![("type", s("image")), ("url", s("http://example.com/img.png"))])]),
        ),
    ]);
    let block = ContentBlock::from_value(&v).unwrap();
    match block {
        ContentBlock::ToolResult { content, .. } => match content {
            ToolResultContent::Raw(_) => {}
            _ => panic!("Expected Raw"),
        },
        _ => panic!(),
    }
}

#[test]
fn test_display_item_tool_result_raw_content() {
    let msg = LogicalMessage::UserTurn {
        blocks: vec![ContentBlock::ToolResult {
            tool_use_id: "toolu-raw12".to_string(),
            content: ToolResultContent::Raw(obj(vec![("status", s("ok"))])),
            is_error: false,
        }],
    };
    let items = DisplayItem::from_logical(&msg);
    assert_eq!(items.len(), 1);
    assert_eq!(items[0].role, Role::ToolResult);
    assert!(items[0].detail.contains("status"));
}

#[test]
fn test_display_item_tool_result_references_content() {
    let msg = LogicalMessage::UserTurn {
        blocks: vec![ContentBlock::ToolResult {
            tool_use_id: "toolu-ref123".to_string(),
            content: ToolResultContent::References(vec!["Bash".to_string(), "Read".to_string()]),
            is_error: false,
        }],
    };
    let items = DisplayItem::from_logical(&msg);
    assert_eq!(items.len(), 1);
    assert!(items[0].summary.contains("Bash"));
    assert!(items[0].detail.contains("Read"));
}

#[test]
fn test_tool_use_id_shorter_than_8_chars() {
    let msg = LogicalMessage::UserTurn {
        blocks: vec![ContentBlock::ToolResult {
            tool_use_id: "short".to_string(),
            content: ToolResultContent::Text("ok".to_string()),
            is_error: false,
        }],
    };
    let items = DisplayItem::from_logical(&msg);
    assert!(items[0].summary.contains("short"));
}

// ── Further cases ────────────────────────────────────────────────────────────

#[test]
fn first_line_exact_values() {
    assert_eq!(first_line("abcdef", 3), "abc…");
    assert_eq!(first_line("abc", 3), "abc");
    assert_eq!(first_line("\r\n  x \r\nnext", 80), "");
    assert_eq!(first_line("  \u{3000}wide\u{a0}\r\nnext", 80), "wide");
    assert_eq!(first_line("é😀ab", 2), "é😀…");
}

#[test]
fn system_init_exact_texts() {
    let msg = LogicalMessage::SystemInit {
        session_id: "abc12345def".to_string(),
        model: "anthropic/model-test".to_string(),
        cwd: "/app".to_string(),
        tools: vec!["Bash".to_string(), "Read".to_string()],
    };
    let items = DisplayItem::from_logical(&msg);
    assert_eq!(items[0].summary, "session=abc12345 model=model-test cwd=/app tools=2");
    assert_eq!(
        items[0].detail,
        "Session:  abc12345def\nModel:    anthropic/model-test\nCwd:      /app\nTools (2):\n  Bash, Read"
    );
}

#[test]
fn session_id_cut_at_eight_bytes() {
    // "ééééé" takes ten bytes; byte eight falls between the fourth and fifth é
    let msg = LogicalMessage::SystemInit {
        session_id: "ééééé".to_string(),
        model: "m/".to_string(),
        cwd: "c".to_string(),
        tools: vec!["a".to_string(); 12],
    };
    assert!(is_displayable(&msg));
    let items = DisplayItem::from_logical(&msg);
    assert_eq!(items[0].summary, "session=éééé model= cwd=c tools=12");
}

#[test]
fn session_id_without_boundary_is_not_displayable() {
    // "aaaaaaaé" takes nine bytes; byte eight falls inside the é
    let msg = LogicalMessage::SystemInit {
        session_id: "aaaaaaaé".to_string(),
        model: "m".to_string(),
        cwd: "c".to_string(),
        tools: vec![],
    };
    assert!(!is_displayable(&msg));
    let short = LogicalMessage::SystemInit {
        session_id: "aaaaaaé".to_string(),
        model: "m".to_string(),
        cwd: "c".to_string(),
        tools: vec![],
    };
    assert!(is_displayable(&short));
}

#[test]
fn tool_result_id_without_boundary_kept_whole() {
    let msg = LogicalMessage::UserTurn {
        blocks: vec![ContentBlock::ToolResult {
            tool_use_id: "aaaaaaaé-x".to_string(),
            content: ToolResultContent::Text("line\nmore".to_string()),
            is_error: true,
        }],
    };
    let items = DisplayItem::from_logical(&msg);
    assert_eq!(items[0].summary, "aaaaaaaé-x [ERROR] · line");
    assert_eq!(items[0].detail, "line\nmore");
}

#[test]
fn tool_use_row_exact_texts() {
    let block = ContentBlock::ToolUse {
        id: "toolu-001".to_string(),
        name: "Bash".to_string(),
        input: obj(vec![("command", s("ls"))]),
    };
    let item = vischat::message::block_to_display_item(&block);
    assert_eq!(item.summary, "Bash · {");
    assert_eq!(item.detail, "[TOOL USE] Bash\n{\n  \"command\": \"ls\"\n}");
}

#[test]
fn references_row_exact_texts() {
    let block = ContentBlock::ToolResult {
        tool_use_id: "toolu-ref123".to_string(),
        content: ToolResultContent::References(vec!["Bash".to_string(), "Read".to_string()]),
        is_error: false,
    };
    let item = vischat::message::block_to_display_item(&block);
    assert_eq!(item.summary, "toolu-re · Bash, Read");
    assert_eq!(item.detail, "Tools: Bash, Read");
}

#[test]
fn references_win_over_texts() {
    let c = arr(vec![
        obj(vec![("type", s("text")), ("text", s("t"))]),
        obj(vec![("type", s("tool_reference")), ("tool_name", s("Grep"))]),
        obj(vec![("type", s("tool_reference"))]),
    ]);
    match parse_tool_result_content(Some(&c)) {
        ToolResultContent::References(r) => assert_eq!(r, vec!["Grep"]),
        _ => panic!(),
    }
    let texts = arr(vec![
        obj(vec![("type", s("text")), ("text", s("a"))]),
        s("loose"),
        obj(vec![("type", s("text")), ("text", s("b"))]),
    ]);
    match parse_tool_result_content(Some(&texts)) {
        ToolResultContent::Text(t) => assert_eq!(t, "a\nb"),
        _ => panic!(),
    }
    match parse_tool_result_content(Some(&JsonValue::Null)) {
        ToolResultContent::Raw(JsonValue::Null) => {}
        _ => panic!(),
    }
}

#[test]
fn tool_result_is_error_must_be_boolean() {
    let v = obj(vec![
        ("type", s("tool_result")),
        ("tool_use_id", s("t")),
        ("is_error", s("yes")),
    ]);
    match ContentBlock::from_value(&v).unwrap() {
        ContentBlock::ToolResult { is_error, .. } => assert!(!is_error),
        _ => panic!(),
    }
}

#[test]
fn required_fields_must_be_strings() {
    let v = obj(vec![("type", s("text")), ("text", JsonValue::Bool(true))]);
    assert!(ContentBlock::from_value(&v).is_none());
    let v = obj(vec![("type", s("tool_use")), ("id", s("x"))]);
    assert!(ContentBlock::from_value(&v).is_none());
    assert!(ContentBlock::from_value(&s("text")).is_none());
}

#[test]
fn parsed_numbers_keep_their_value() {
    let u = "{\"type\":\"user\",\"message\":{\"content\":[{\"type\":\"tool_result\",\"tool_use_id\":\"x\",\"content\":{\"b\":[1,2.5,true,null],\"a\":\"x\"}}]}}";
    let messages = vischat::parser::parse_str(u).unwrap();
    match &messages[0] {
        LogicalMessage::UserTurn { blocks } => match &blocks[0] {
            ContentBlock::ToolResult { content: ToolResultContent::Raw(v), .. } => {
                match v.get("b") {
                    Some(JsonValue::Array(items)) => {
                        assert_eq!(items.len(), 4);
                        assert!(matches!(&items[0], JsonValue::Number(n) if n.to_string() == "1"));
                        assert!(matches!(&items[1], JsonValue::Number(n) if n.to_string() == "2.5"));
                        assert!(matches!(&items[2], JsonValue::Bool(true)));
                        assert!(matches!(&items[3], JsonValue::Null));
                    }
                    _ => panic!(),
                }
                assert!(matches!(v.get("a"), Some(JsonValue::Str(x)) if x == "x"));
            }
            _ => panic!(),
        },
        _ => panic!(),
    }
}

#[test]
fn raw_content_rows_are_pretty_printed() {
    let block = ContentBlock::ToolResult {
        tool_use_id: "t".to_string(),
        content: ToolResultContent::Raw(obj(vec![(
            "k",
            arr(vec![num(3), JsonValue::Null, s("q\"")]),
        )])),
        is_error: false,
    };
    let item = vischat::message::block_to_display_item(&block);
    assert_eq!(item.detail, "{\n  \"k\": [\n    3,\n    null,\n    \"q\\\"\"\n  ]\n}");
    assert_eq!(item.summary, "t · {");
}

#[test]
fn raw_record_from_json_checks_field_types() {
    let ok = obj(vec![
        ("type", s("system")),
        ("subtype", s("init")),
        ("tools", arr(vec![s("A")])),
        ("extra", num(5)),
    ]);
    let r = RawRecord::from_json(&ok).unwrap();
    assert_eq!(r.record_type, "system");
    assert_eq!(r.subtype.as_deref(), Some("init"));
    assert_eq!(r.tools, Some(vec!["A".to_string()]));
    let bad_tools = obj(vec![
        ("type", s("system")),
        ("tools", arr(vec![s("A"), num(1)])),
    ]);
    assert!(RawRecord::from_json(&bad_tools).is_none());
    let no_type = obj(vec![("subtype", s("init"))]);
    assert!(RawRecord::from_json(&no_type).is_none());
    let null_uuid =
        obj(vec![("type", s("user")), ("uuid", JsonValue::Null), ("message", JsonValue::Null)]);
    let r = RawRecord::from_json(&null_uuid).unwrap();
    assert!(r.uuid.is_none() && r.message.is_none());
    let bad_uuid = obj(vec![("type", s("user")), ("uuid", num(7))]);
    assert!(RawRecord::from_json(&bad_uuid).is_none());
    let mut fields = vec![s("user"), JsonValue::Null, JsonValue::Null];
    fields.push(arr(vec![
        JsonValue::Null,
        s("user"),
        arr(vec![num(1)]),
    ]));
    for _ in 0..5 {
        fields.push(JsonValue::Null);
    }
    let r = RawRecord::from_json(&arr(fields)).unwrap();
    assert!(r.message.unwrap().content.is_some());
    assert!(RawRecord::from_json(&arr(vec![s("user")])).is_none());
}

#[test]
fn deep_copy_keeps_value() {
    let v = obj(vec![("a", arr(vec![s("x"), obj(vec![("b", JsonValue::Bool(false))])]))]);
    let c = v.deep_copy();
    let wrap = |x: JsonValue| ContentBlock::ToolUse { id: "i".to_string(), name: "n".to_string(), input: x };
    let a = vischat::message::block_to_display_item(&wrap(v));
    let b = vischat::message::block_to_display_item(&wrap(c));
    assert_eq!(a.detail, b.detail);
}

#[test]
fn pretty_numbers_match_serde_json_exactly() {
    for input in [
        "{\"x\":2.2250738585072011e-308,\"y\":[0.30000000000000004,1e300,-0.0]}",
        "{\"z\":9007199254740993,\"w\":-12,\"v\":18446744073709551615}",
        "{\"f\":1.7976931348623157e308,\"g\":4.9406564584124654e-324}",
    ] {
        let line = format!(
            "{{\"type\":\"assistant\",\"message\":{{\"id\":\"m\",\"content\":[{{\"type\":\"tool_use\",\"id\":\"t\",\"name\":\"N\",\"input\":{}}}]}}}}",
            input
        );
        let messages = vischat::parser::parse_str(&line).unwrap();
        let rows = DisplayItem::from_logical(&messages[0]);
        let value: serde_json::Value = serde_json::from_str(input).unwrap();
        let expected = format!("[TOOL USE] N\n{}", serde_json::to_string_pretty(&value).unwrap());
        assert_eq!(rows[0].detail, expected);
    }
}

#[test]
fn row_texts_from_pretty_text() {
    let item = tool_use_item(&"Bash".to_string(), &"{\n  \"command\": \"ls\"\n}".to_string());
    assert_eq!(item.summary, "Bash · {");
    assert_eq!(item.detail, "[TOOL USE] Bash\n{\n  \"command\": \"ls\"\n}");
    assert_eq!(item.badge, "[TOOL>]");
    assert_eq!(item.role, Role::ToolUse);
    let (summary, detail) = raw_result_texts("  [1,\n2]".to_string());
    assert_eq!(summary, "[1,");
    assert_eq!(detail, "  [1,\n2]");
}

#[test]
fn str_eq_compares_characters() {
    assert!(str_eq("abc", "abc"));
    assert!(str_eq("", ""));
    assert!(!str_eq("abc", "abd"));
    assert!(!str_eq("ab", "abc"));
    assert!(str_eq("é·x", "é·x"));
}

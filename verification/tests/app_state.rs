use vischat::ui::list_window;
use vischat::app::AppState;
use vischat::message::{DisplayItem, Role};
use vischat::parser::parse_str;

fn make_item(role: Role) -> DisplayItem {
    DisplayItem {
        role,
        badge: "[T]",
        summary: "test".to_string(),
        detail: "detail".to_string(),
    }
}

fn make_state(n: usize) -> AppState {
    let items = (0..n).map(|_| make_item(Role::Assistant)).collect();
    AppState::new(items, "test.jsonl".to_string())
}

#[test]
fn test_new_defaults() {
    let state = AppState::new(vec![], "file.jsonl".to_string());
    assert_eq!(state.selected, 0);
    assert_eq!(state.list_scroll, 0);
    assert_eq!(state.detail_scroll, 0);
    assert!(!state.show_thinking);
    assert!(!state.quit);
}

#[test]
fn test_navigable_items_hides_thinking_by_default() {
    let items = vec![
        make_item(Role::Assistant),
        make_item(Role::Thinking),
        make_item(Role::ToolUse),
    ];
    let state = AppState::new(items, "f".to_string());
    let nav = state.navigable_items();
    assert_eq!(nav.len(), 2);
    assert!(nav.iter().all(|i| i.role != Role::Thinking));
}

#[test]
fn test_navigable_items_shows_thinking_when_enabled() {
    let items = vec![make_item(Role::Assistant), make_item(Role::Thinking)];
    let mut state = AppState::new(items, "f".to_string());
    state.show_thinking = true;
    assert_eq!(state.navigable_items().len(), 2);
}

#[test]
fn test_navigable_count_excludes_thinking() {
    let items = vec![
        make_item(Role::Assistant),
        make_item(Role::Thinking),
        make_item(Role::Assistant),
    ];
    let state = AppState::new(items, "f".to_string());
    assert_eq!(state.navigable_count(), 2);
}

#[test]
fn test_list_items_always_includes_thinking() {
    let items = vec![
        make_item(Role::Assistant),
        make_item(Role::Thinking),
        make_item(Role::ToolUse),
    ];
    let state = AppState::new(items, "f".to_string());
    assert_eq!(state.list_items().len(), 3);
    let mut state2 = AppState::new(
        vec![make_item(Role::Assistant), make_item(Role::Thinking)],
        "f".to_string(),
    );
    state2.show_thinking = true;
    assert_eq!(state2.list_items().len(), 2);
}

#[test]
fn test_selected_list_index_skips_folded_thinking() {
    let items = vec![
        make_item(Role::Assistant),
        make_item(Role::Thinking),
        make_item(Role::Assistant),
    ];
    let mut state = AppState::new(items, "f".to_string());
    state.selected = 1;
    assert_eq!(state.selected_list_index(), Some(2));
}

#[test]
fn test_selected_list_index_none_on_empty() {
    let state = make_state(0);
    assert!(state.selected_list_index().is_none());
}

#[test]
fn test_clamp_scroll_with_folded_thinking_ahead() {
    let items = vec![
        make_item(Role::Assistant),
        make_item(Role::Thinking),
        make_item(Role::Assistant),
        make_item(Role::Assistant),
        make_item(Role::Assistant),
    ];
    let mut state = AppState::new(items, "f".to_string());
    state.selected = 3;
    state.clamp_scroll(3);
    assert_eq!(state.list_scroll, 2);
}

#[test]
fn test_move_down_advances_selection() {
    let mut state = make_state(3);
    state.move_down();
    assert_eq!(state.selected, 1);
}

#[test]
fn test_move_down_stops_at_end() {
    let mut state = make_state(2);
    state.move_down();
    state.move_down();
    assert_eq!(state.selected, 1);
}

#[test]
fn test_move_down_resets_detail_scroll() {
    let mut state = make_state(2);
    state.detail_scroll = 5;
    state.move_down();
    assert_eq!(state.detail_scroll, 0);
}

#[test]
fn test_move_up_retreats_selection() {
    let mut state = make_state(3);
    state.selected = 2;
    state.move_up();
    assert_eq!(state.selected, 1);
}

#[test]
fn test_move_up_stops_at_start() {
    let mut state = make_state(3);
    state.move_up();
    assert_eq!(state.selected, 0);
}

#[test]
fn test_move_up_resets_detail_scroll() {
    let mut state = make_state(3);
    state.selected = 1;
    state.detail_scroll = 7;
    state.move_up();
    assert_eq!(state.detail_scroll, 0);
}

#[test]
fn test_move_on_empty_list_does_not_panic() {
    let mut state = make_state(0);
    state.move_down();
    state.move_up();
    assert_eq!(state.selected, 0);
}

#[test]
fn test_selected_item_returns_first_by_default() {
    let items = vec![make_item(Role::Assistant), make_item(Role::ToolUse)];
    let mut state = AppState::new(items, "f".to_string());
    state.all_items[0].summary = "first".to_string();
    let item = state.selected_item().unwrap();
    assert_eq!(item.summary, "first");
}

#[test]
fn test_selected_item_none_when_empty() {
    let state = make_state(0);
    assert!(state.selected_item().is_none());
}

#[test]
fn test_toggle_expand_toggles_flag() {
    let mut state = make_state(2);
    assert!(!state.expanded);
    state.toggle_expand();
    assert!(state.expanded);
    state.toggle_expand();
    assert!(!state.expanded);
}

#[test]
fn test_toggle_expand_resets_detail_scroll() {
    let mut state = make_state(2);
    state.detail_scroll = 5;
    state.toggle_expand();
    assert_eq!(state.detail_scroll, 0);
}

#[test]
fn test_move_down_collapses_expansion() {
    let mut state = make_state(3);
    state.expanded = true;
    state.move_down();
    assert!(!state.expanded);
}

#[test]
fn test_move_up_collapses_expansion() {
    let mut state = make_state(3);
    state.selected = 1;
    state.expanded = true;
    state.move_up();
    assert!(!state.expanded);
}

#[test]
fn test_clamp_scroll_scrolls_down_when_selected_ahead() {
    let mut state = make_state(5);
    state.selected = 4;
    state.clamp_scroll(3);
    assert_eq!(state.list_scroll, 2);
}

#[test]
fn test_clamp_scroll_scrolls_up_when_selected_behind() {
    let mut state = make_state(5);
    state.selected = 0;
    state.list_scroll = 3;
    state.clamp_scroll(3);
    assert_eq!(state.list_scroll, 0);
}

#[test]
fn test_clamp_scroll_zero_height_no_change() {
    let mut state = make_state(3);
    state.list_scroll = 5;
    state.clamp_scroll(0);
    assert_eq!(state.list_scroll, 5);
}

#[test]
fn test_reload_updates_items() {
    // Reading "test.jsonl" fails (the file does not exist): nothing is read.
    let mut state = make_state(2);
    state.reload(None);
    assert_eq!(state.all_items.len(), 2);
}

#[test]
fn test_reload_invalid_path_is_noop() {
    let mut state = AppState::new(
        vec![make_item(Role::Assistant)],
        "/nonexistent/path.jsonl".to_string(),
    );
    state.reload(None);
    assert_eq!(state.all_items.len(), 1);
}

#[test]
fn test_reload_clamps_selection() {
    let mut state = make_state(3);
    state.selected = 2;
    state.all_items = vec![make_item(Role::Assistant)];
    let max = state.navigable_count().saturating_sub(1);
    if state.selected > max {
        state.selected = max;
    }
    assert_eq!(state.selected, 0);
}

const EXAMPLE_HISTORY: &str = "{\"type\":\"system\",\"subtype\":\"init\",\"cwd\":\"/home/u/project\",\"session_id\":\"5f2c9a1e-0b7d-4c2e-9a55-2f8e1d3c4b6a\",\"tools\":[\"Bash\",\"Read\",\"Edit\"],\"model\":\"model-large-4\",\"uuid\":\"a1\"}\n{\"type\":\"assistant\",\"message\":{\"id\":\"msg_01\",\"role\":\"assistant\",\"content\":[{\"type\":\"thinking\",\"thinking\":\"The user wants a listing.\",\"signature\":\"s1\"}]},\"session_id\":\"5f2c9a1e\",\"uuid\":\"a2\"}\n{\"type\":\"assistant\",\"message\":{\"id\":\"msg_01\",\"role\":\"assistant\",\"content\":[{\"type\":\"tool_use\",\"id\":\"toolu_01\",\"name\":\"Bash\",\"input\":{\"command\":\"ls -la\"}}]},\"session_id\":\"5f2c9a1e\",\"uuid\":\"a3\"}\n{\"type\":\"user\",\"message\":{\"role\":\"user\",\"content\":[{\"type\":\"tool_result\",\"tool_use_id\":\"toolu_01\",\"content\":\"total 0\",\"is_error\":false}]},\"session_id\":\"5f2c9a1e\",\"uuid\":\"a4\"}\n";

#[test]
fn test_reload_with_real_file() {
    // The example history, as the file would hold it.
    let mut state = AppState::new(vec![], "example-history.jsonl".to_string());
    let messages = parse_str(EXAMPLE_HISTORY).unwrap();
    state.reload(Some(messages));
    assert!(
        !state.all_items.is_empty(),
        "should load items from example-history.jsonl"
    );
}

#[test]
fn test_clamp_scroll_within_window_unchanged() {
    let mut state = make_state(5);
    state.selected = 2;
    state.list_scroll = 1;
    state.clamp_scroll(5);
    assert_eq!(state.list_scroll, 1);
}

// ── Further cases ────────────────────────────────────────────────────────────

#[test]
fn reload_clamps_selection_and_resets_detail_scroll() {
    let mut state = make_state(6);
    state.selected = 5;
    state.detail_scroll = 9;
    state.list_height = 2;
    let messages = parse_str(EXAMPLE_HISTORY).unwrap();
    state.reload(Some(messages));
    // four rows, the thinking one folded: three selectable
    assert_eq!(state.all_items.len(), 4);
    assert_eq!(state.navigable_count(), 3);
    assert_eq!(state.selected, 2);
    assert_eq!(state.detail_scroll, 0);
    // selected row is all-items index 3; height 2 → scroll 2
    assert_eq!(state.list_scroll, 2);
}

#[test]
fn half_page_down_moves_selection_and_scroll() {
    let mut state = make_state(10);
    state.list_height = 6;
    state.move_half_page_down();
    assert_eq!(state.selected, 3);
    assert_eq!(state.list_scroll, 3);
    state.move_half_page_down();
    state.move_half_page_down();
    state.move_half_page_down();
    assert_eq!(state.selected, 9);
    assert_eq!(state.list_scroll, 9);
    assert!(!state.expanded);
}

#[test]
fn half_pages_keep_screen_position() {
    let mut state = make_state(30);
    state.list_height = 8;
    state.selected = 6;
    state.list_scroll = 4;
    state.move_half_page_down();
    assert_eq!(state.selected, 10);
    assert_eq!(state.list_scroll, 8);
    state.move_half_page_up();
    assert_eq!(state.selected, 6);
    assert_eq!(state.list_scroll, 4);
}

#[test]
fn half_page_down_on_empty_is_noop() {
    let mut state = make_state(0);
    state.detail_scroll = 4;
    state.move_half_page_down();
    assert_eq!(state.selected, 0);
    assert_eq!(state.detail_scroll, 4);
}

#[test]
fn half_page_up_saturates() {
    let mut state = make_state(10);
    state.list_height = 1;
    state.selected = 2;
    state.list_scroll = 0;
    state.expanded = true;
    state.move_half_page_up();
    assert_eq!(state.selected, 1);
    assert_eq!(state.list_scroll, 0);
    assert!(!state.expanded);
    state.list_height = 20;
    state.move_half_page_up();
    assert_eq!(state.selected, 0);
}

#[test]
fn visible_count_and_items_follow_thinking_flag() {
    let items = vec![make_item(Role::Thinking), make_item(Role::System)];
    let mut state = AppState::new(items, "f".to_string());
    assert_eq!(state.visible_count(), 1);
    assert_eq!(state.visible_items()[0].role, Role::System);
    state.show_thinking = true;
    assert_eq!(state.visible_count(), 2);
}

#[test]
fn selected_out_of_range_has_no_item() {
    let mut state = make_state(2);
    state.selected = 2;
    assert!(state.selected_item().is_none());
    assert!(state.selected_list_index().is_none());
}

#[test]
fn down_then_up_returns_to_same_row() {
    let mut state = make_state(4);
    state.selected = 1;
    state.move_down();
    state.move_up();
    assert_eq!(state.selected, 1);
}

#[test]
fn clamp_keeps_selection_visible() {
    let mut state = make_state(30);
    for h in 1..6 {
        for sel in 0..30 {
            state.selected = sel;
            state.list_scroll = 17;
            state.clamp_scroll(h);
            assert!(state.list_scroll <= sel && sel < state.list_scroll + h);
        }
    }
}

#[test]
fn list_window_bounds_and_highlight() {
    let mut state = make_state(0);
    state.all_items = vec![
        make_item(Role::Assistant),
        make_item(Role::Thinking),
        make_item(Role::Assistant),
        make_item(Role::Assistant),
        make_item(Role::Assistant),
    ];
    state.selected = 3;
    state.list_scroll = 2;
    assert_eq!(list_window(&state, 2), (2, 4, Some(2)));
    assert_eq!(list_window(&state, 10), (2, 5, Some(2)));
    state.list_scroll = 9;
    assert_eq!(list_window(&state, 3), (5, 5, None));
    state.selected = 7;
    state.list_scroll = 0;
    assert_eq!(list_window(&state, 3), (0, 3, None));
}

//! Keys and what they do to the browser's state.
use vstd::prelude::*;

use crate::app::{
    clamp_cursor, down_cursor, half_page, half_page_down_cursor, half_page_up_cursor, lemma_nav_position,
    lemma_nav_prefix, lemma_nav_shape, nav_indices, navigable, position_of, same_rows, sat_sub,
    reload_cursor, selected_index, toggle_thinking_cursor, up_cursor, AppState, Cursor,
};
use crate::message::Role;

verus! {

/// A key of the keyboard.
#[derive(Clone, Copy, Debug, PartialEq, Eq, Structural)]
pub enum KeyCode {
    Backspace,
    Enter,
    Left,
    Right,
    Up,
    Down,
    Home,
    End,
    PageUp,
    PageDown,
    Tab,
    BackTab,
    Delete,
    Insert,
    F(u8),
    Char(char),
    Null,
    Esc,
    /// Any other key (lock, media and modifier keys).
    Other,
}

/// The modifier keys held, as a bit set (shift 1, control 2, alt 4, super 8,
/// hyper 16, meta 32).
#[derive(Clone, Copy, Debug, PartialEq, Eq, Structural)]
pub struct KeyModifiers {
    pub bits: u8,
}

impl KeyModifiers {
    /// No modifier held.
    pub fn none() -> (r: KeyModifiers)
        ensures
            r.bits == 0,
    {
        KeyModifiers { bits: 0 }
    }

    /// Only control held.
    pub fn control() -> (r: KeyModifiers)
        ensures
            r.bits == 2,
    {
        KeyModifiers { bits: 2 }
    }

    /// The modifier set with the given bits.
    pub fn from_bits(bits: u8) -> (r: KeyModifiers)
        ensures
            r.bits == bits,
    {
        KeyModifiers { bits }
    }
}

/// A key press.
#[derive(Clone, Copy, Debug, PartialEq, Eq, Structural)]
pub struct KeyEvent {
    pub code: KeyCode,
    pub modifiers: KeyModifiers,
}

impl KeyEvent {
    /// The press of `code` with `modifiers` held.
    pub fn new(code: KeyCode, modifiers: KeyModifiers) -> (r: KeyEvent)
        ensures
            r.code == code,
            r.modifiers == modifiers,
    {
        KeyEvent { code, modifiers }
    }
}

/// What a key asks for.
#[derive(Clone, Copy, Debug, PartialEq, Eq, Structural)]
pub enum KeyAction {
    Quit,
    Down,
    Up,
    First,
    Last,
    ScrollDown,
    ScrollUp,
    Expand,
    ToggleThinking,
    Nothing,
}

/// The key bindings: without modifiers `q`/Esc quit, `j`/Down and `k`/Up move, `g`
/// and `G` jump to the first and last row, Enter/space expand, `t` toggles thinking
/// rows; with control alone `d` and `u` scroll the detail pane; nothing else is bound.
pub open spec fn key_action(key: KeyEvent) -> KeyAction {
    if key.modifiers.bits == 0 {
        match key.code {
            KeyCode::Char(c) => if c == 'q' {
                KeyAction::Quit
            } else if c == 'j' {
                KeyAction::Down
            } else if c == 'k' {
                KeyAction::Up
            } else if c == 'g' {
                KeyAction::First
            } else if c == 'G' {
                KeyAction::Last
            } else if c == ' ' {
                KeyAction::Expand
            } else if c == 't' {
                KeyAction::ToggleThinking
            } else {
                KeyAction::Nothing
            },
            KeyCode::Esc => KeyAction::Quit,
            KeyCode::Down => KeyAction::Down,
            KeyCode::Up => KeyAction::Up,
            KeyCode::Enter => KeyAction::Expand,
            _ => KeyAction::Nothing,
        }
    } else if key.modifiers.bits == 2 {
        match key.code {
            KeyCode::Char(c) => if c == 'd' {
                KeyAction::ScrollDown
            } else if c == 'u' {
                KeyAction::ScrollUp
            } else {
                KeyAction::Nothing
            },
            _ => KeyAction::Nothing,
        }
    } else {
        KeyAction::Nothing
    }
}

/// The detail scroll step of control-d and control-u.
pub open spec fn scroll_step() -> int {
    10
}

/// What a key does to the cursor, for rows of the given roles.
pub open spec fn key_cursor(c: Cursor, roles: Seq<Role>, key: KeyEvent) -> Cursor {
    match key_action(key) {
        KeyAction::Quit => Cursor { quit: true, ..c },
        KeyAction::Down => down_cursor(c, nav_indices(roles, c.show_thinking).len() as int),
        KeyAction::Up => up_cursor(c),
        KeyAction::First => Cursor { selected: 0, list_scroll: 0, detail_scroll: 0, ..c },
        KeyAction::Last => Cursor {
            selected: sat_sub(nav_indices(roles, c.show_thinking).len() as int, 1) as usize,
            detail_scroll: 0,
            ..c
        },
        KeyAction::ScrollDown => Cursor {
            detail_scroll: if c.detail_scroll + scroll_step() > usize::MAX {
                usize::MAX
            } else {
                (c.detail_scroll + scroll_step()) as usize
            },
            ..c
        },
        KeyAction::ScrollUp => Cursor {
            detail_scroll: sat_sub(c.detail_scroll as int, scroll_step()) as usize,
            ..c
        },
        KeyAction::Expand => Cursor { expanded: !c.expanded, detail_scroll: 0, ..c },
        KeyAction::ToggleThinking => toggle_thinking_cursor(c, roles),
        KeyAction::Nothing => c,
    }
}

/// What a key asks for (see `key_action`).
pub fn action_of(key: KeyEvent) -> (r: KeyAction)
    ensures
        r == key_action(key),
{
    if key.modifiers.bits == 0 {
        match key.code {
            KeyCode::Char(c) => if c == 'q' {
                KeyAction::Quit
            } else if c == 'j' {
                KeyAction::Down
            } else if c == 'k' {
                KeyAction::Up
            } else if c == 'g' {
                KeyAction::First
            } else if c == 'G' {
                KeyAction::Last
            } else if c == ' ' {
                KeyAction::Expand
            } else if c == 't' {
                KeyAction::ToggleThinking
            } else {
                KeyAction::Nothing
            },
            KeyCode::Esc => KeyAction::Quit,
            KeyCode::Down => KeyAction::Down,
            KeyCode::Up => KeyAction::Up,
            KeyCode::Enter => KeyAction::Expand,
            _ => KeyAction::Nothing,
        }
    } else if key.modifiers.bits == 2 {
        match key.code {
            KeyCode::Char(c) => if c == 'd' {
                KeyAction::ScrollDown
            } else if c == 'u' {
                KeyAction::ScrollUp
            } else {
                KeyAction::Nothing
            },
            _ => KeyAction::Nothing,
        }
    } else {
        KeyAction::Nothing
    }
}

/// Applies a key press to the state (see `key_cursor`); the rows, file and list
/// height never change.
pub fn handle_key(state: &mut AppState, key: KeyEvent)
    ensures
        same_rows(*final(state), *old(state)),
        final(state).cursor() == key_cursor(old(state).cursor(), old(state).roles(), key),
{
    match action_of(key) {
        KeyAction::Quit => {
            state.quit = true;
        },
        KeyAction::Down => {
            state.move_down();
        },
        KeyAction::Up => {
            state.move_up();
        },
        KeyAction::First => {
            state.selected = 0;
            state.list_scroll = 0;
            state.detail_scroll = 0;
        },
        KeyAction::Last => {
            let count = state.navigable_count();
            state.selected = if count >= 1 {
                count - 1
            } else {
                0
            };
            state.detail_scroll = 0;
        },
        KeyAction::ScrollDown => {
            state.detail_scroll = if state.detail_scroll > usize::MAX - 10 {
                usize::MAX
            } else {
                state.detail_scroll + 10
            };
        },
        KeyAction::ScrollUp => {
            state.detail_scroll = if state.detail_scroll >= 10 {
                state.detail_scroll - 10
            } else {
                0
            };
        },
        KeyAction::Expand => {
            state.toggle_expand();
        },
        KeyAction::ToggleThinking => {
            let current = state.selected_list_index();
            state.show_thinking = !state.show_thinking;
            match current {
                Some(p) => {
                    proof {
                        crate::app::lemma_nav_shape(state.roles(), !state.show_thinking);
                    }
                    match state.nav_position(p) {
                        Some(idx) => {
                            state.selected = idx;
                        },
                        None => {
                            let count = state.navigable_count();
                            if count > 0 && state.selected >= count {
                                state.selected = count - 1;
                            }
                        },
                    }
                },
                None => {},
            }
            state.detail_scroll = 0;
        },
        KeyAction::Nothing => {},
    }
}


/// The key table: `j`/Down move one selectable row down and `k`/Up one up (when
/// there is one), `g` goes to the first row and `G` to the last selectable one,
/// `q`/Esc quit, Enter/space expand or collapse, `t` shows or hides thinking rows,
/// control-d/u scroll the detail pane by ten lines; other keys change nothing.
pub proof fn law_key_table(c: Cursor, roles: Seq<Role>)
    requires
        roles.len() <= usize::MAX,
    ensures
        ({
            let n = nav_indices(roles, c.show_thinking).len() as int;
            &&& c.selected + 1 < n ==> key_cursor(c, roles, plain(KeyCode::Char('j'))).selected
                == c.selected + 1 && key_cursor(c, roles, plain(KeyCode::Down)).selected
                == c.selected + 1
            &&& c.selected + 1 >= n ==> key_cursor(c, roles, plain(KeyCode::Char('j'))).selected
                == c.selected
            &&& c.selected > 0 ==> key_cursor(c, roles, plain(KeyCode::Char('k'))).selected
                == c.selected - 1 && key_cursor(c, roles, plain(KeyCode::Up)).selected
                == c.selected - 1
            &&& c.selected == 0 ==> key_cursor(c, roles, plain(KeyCode::Char('k'))).selected == 0
            &&& key_cursor(c, roles, plain(KeyCode::Char('g'))).selected == 0
            &&& key_cursor(c, roles, plain(KeyCode::Char('g'))).list_scroll == 0
            &&& n > 0 ==> key_cursor(c, roles, plain(KeyCode::Char('G'))).selected == n - 1
            &&& n == 0 ==> key_cursor(c, roles, plain(KeyCode::Char('G'))).selected == 0
            &&& key_cursor(c, roles, plain(KeyCode::Char('q'))).quit
            &&& key_cursor(c, roles, plain(KeyCode::Esc)).quit
            &&& key_cursor(c, roles, plain(KeyCode::Enter)).expanded == !c.expanded
            &&& key_cursor(c, roles, plain(KeyCode::Char(' '))).expanded == !c.expanded
            &&& key_cursor(c, roles, plain(KeyCode::Char('t'))).show_thinking == !c.show_thinking
            &&& c.detail_scroll + 10 <= usize::MAX ==> key_cursor(
                c,
                roles,
                with_control(KeyCode::Char('d')),
            ).detail_scroll == c.detail_scroll + 10
            &&& c.detail_scroll >= 10 ==> key_cursor(
                c,
                roles,
                with_control(KeyCode::Char('u')),
            ).detail_scroll == c.detail_scroll - 10
            &&& key_cursor(c, roles, plain(KeyCode::Char('x'))) == c
            &&& key_cursor(c, roles, with_control(KeyCode::Char('j'))) == c
            &&& key_cursor(c, roles, plain(KeyCode::Char('d'))) == c
        }),
{
    lemma_nav_shape(roles, c.show_thinking);
}

// ── Laws ─────────────────────────────────────────────────────────────────────

/// The press of a key without modifiers.
pub open spec fn plain(code: KeyCode) -> KeyEvent {
    KeyEvent { code, modifiers: KeyModifiers { bits: 0 } }
}

/// The press of a key with control held.
pub open spec fn with_control(code: KeyCode) -> KeyEvent {
    KeyEvent { code, modifiers: KeyModifiers { bits: 2 } }
}

/// The selection is on a selectable row whenever there is one, and otherwise on
/// row zero or some row of the list.
pub open spec fn selection_in_range(c: Cursor, roles: Seq<Role>) -> bool {
    let n = nav_indices(roles, c.show_thinking).len();
    &&& n > 0 ==> c.selected < n
    &&& c.selected == 0 || c.selected < roles.len()
}

/// Every key keeps the selection in range: it never points past the selectable rows.
pub proof fn law_keys_keep_selection_in_range(c: Cursor, roles: Seq<Role>, key: KeyEvent)
    requires
        selection_in_range(c, roles),
    ensures
        selection_in_range(key_cursor(c, roles, key), roles),
{
    lemma_nav_shape(roles, c.show_thinking);
    lemma_nav_shape(roles, !c.show_thinking);
    if key_action(key) == KeyAction::ToggleThinking {
        let show = !c.show_thinking;
        let nav = nav_indices(roles, show);
        match selected_index(roles, c.show_thinking, c.selected as int) {
            Some(p) => {
                lemma_nav_position(roles, show, p);
                match position_of(nav, p) {
                    Some(k) => {
                        lemma_nav_prefix(roles, show, p, roles.len() as int);
                        assert(roles.take(roles.len() as int) =~= roles);
                    },
                    None => {},
                }
            },
            None => {
                if !c.show_thinking {
                    assert forall|i: int| 0 <= i < roles.len() implies !navigable(
                        roles[i],
                        c.show_thinking,
                    ) by {
                        lemma_nav_position(roles, c.show_thinking, i);
                    }
                    assert(nav_indices(roles, true).len() == roles.len()) by {
                        lemma_nav_all(roles);
                    }
                }
            },
        }
    }
}

/// With thinking rows shown, every row is selectable.
pub proof fn lemma_nav_all(roles: Seq<Role>)
    ensures
        nav_indices(roles, true).len() == roles.len(),
    decreases roles.len(),
{
    if roles.len() > 0 {
        lemma_nav_all(roles.drop_last());
    }
}

/// Half-page moves keep the selection in range too.
pub proof fn law_half_pages_keep_selection_in_range(c: Cursor, roles: Seq<Role>, height: int)
    requires
        selection_in_range(c, roles),
        height >= 0,
    ensures
        selection_in_range(
            half_page_down_cursor(c, nav_indices(roles, c.show_thinking).len() as int, height),
            roles,
        ),
        selection_in_range(half_page_up_cursor(c, height), roles),
{
    lemma_nav_shape(roles, c.show_thinking);
}

/// Half-page moves shift selection and list scroll by the same step, so the selected
/// row keeps its place on the screen, as long as neither stops at an end of the list.
pub proof fn law_half_pages_keep_screen_position(c: Cursor, count: int, height: int)
    requires
        height >= 0,
        count <= usize::MAX,
        c.list_scroll <= c.selected,
    ensures
        c.selected + half_page(height) < count ==> {
            let d = half_page_down_cursor(c, count, height);
            d.selected - d.list_scroll == c.selected - c.list_scroll
        },
        c.list_scroll >= half_page(height) ==> {
            let u = half_page_up_cursor(c, height);
            u.selected - u.list_scroll == c.selected - c.list_scroll
        },
{
}

/// Showing or hiding thinking rows keeps the selected row selected, as long as it
/// stays selectable.
#[verifier::spinoff_prover]
#[verifier::rlimit(30)]
pub proof fn law_toggle_thinking_keeps_row(c: Cursor, roles: Seq<Role>, p: int)
    requires
        selected_index(roles, c.show_thinking, c.selected as int) == Some(p),
        roles.len() <= usize::MAX,
        0 <= p < roles.len(),
        navigable(roles[p], !c.show_thinking),
    ensures
        selected_index(
            roles,
            !c.show_thinking,
            key_cursor(c, roles, plain(KeyCode::Char('t'))).selected as int,
        ) == Some(p),
{
    let show = !c.show_thinking;
    lemma_nav_shape(roles, c.show_thinking);
    lemma_nav_position(roles, show, p);
    lemma_nav_shape(roles, show);
    lemma_nav_prefix(roles, show, p, roles.len() as int);
    assert(roles.take(roles.len() as int) =~= roles);
    lemma_nav_prefix(roles, show, p, p + 1);
    assert(roles.take(p + 1).drop_last() =~= roles.take(p));
    let k = nav_indices(roles.take(p), show).len() as int;
    let nav = nav_indices(roles, show);
    assert(nav_indices(roles.take(p + 1), show) == nav_indices(roles.take(p), show).push(p));
    lemma_nav_prefix(roles, show, p + 1, roles.len() as int);
    assert(nav.take(k + 1)[k] == nav[k]);
    assert(key_action(plain(KeyCode::Char('t'))) == KeyAction::ToggleThinking);
    assert(position_of(nav, p) == Some(k));
    assert(toggle_thinking_cursor(c, roles).selected == k);
}

/// Pressing `t` twice comes back to the same selection and folding, whenever the
/// selected row stays selectable in between (it does unless it is a thinking row
/// selected while thinking rows are shown).
pub proof fn law_toggle_thinking_twice(c: Cursor, roles: Seq<Role>)
    requires
        roles.len() <= usize::MAX,
        c.selected < nav_indices(roles, c.show_thinking).len(),
        navigable(roles[nav_indices(roles, c.show_thinking)[c.selected as int]], !c.show_thinking),
    ensures
        key_cursor(key_cursor(c, roles, plain(KeyCode::Char('t'))), roles, plain(KeyCode::Char('t'))).selected
            == c.selected,
        key_cursor(key_cursor(c, roles, plain(KeyCode::Char('t'))), roles, plain(KeyCode::Char('t'))).show_thinking
            == c.show_thinking,
{
    let t = plain(KeyCode::Char('t'));
    let show = c.show_thinking;
    let p = nav_indices(roles, show)[c.selected as int];
    lemma_nav_shape(roles, false);
    lemma_nav_shape(roles, true);
    law_toggle_thinking_keeps_row(c, roles, p);
    let c1 = key_cursor(c, roles, t);
    assert(c1.show_thinking == !show);
    assert(!c1.show_thinking == show);
    law_toggle_thinking_keeps_row(c1, roles, p);
    let c2 = key_cursor(c1, roles, t);
    let nav = nav_indices(roles, show);
    assert(nav[c2.selected as int] == p);
    if c2.selected != c.selected {
        if (c2.selected as int) < (c.selected as int) {
            assert(nav[c2.selected as int] < nav[c.selected as int]);
        } else {
            assert(nav[c.selected as int] < nav[c2.selected as int]);
        }
    }
}

/// `j` then `k` comes back to the same row when there was a row below.
pub proof fn law_down_then_up(c: Cursor, roles: Seq<Role>)
    requires
        roles.len() <= usize::MAX,
        c.selected + 1 < nav_indices(roles, c.show_thinking).len(),
    ensures
        key_cursor(key_cursor(c, roles, plain(KeyCode::Char('j'))), roles, plain(KeyCode::Char('k'))).selected
            == c.selected,
{
    lemma_nav_shape(roles, c.show_thinking);
    assert(key_action(plain(KeyCode::Char('j'))) == KeyAction::Down);
    assert(key_action(plain(KeyCode::Char('k'))) == KeyAction::Up);
}

/// Enter twice leaves the row as expanded or collapsed as it was, with the detail
/// scroll reset.
pub proof fn law_expand_twice(c: Cursor, roles: Seq<Role>)
    ensures
        key_cursor(key_cursor(c, roles, plain(KeyCode::Enter)), roles, plain(KeyCode::Enter))
            == (Cursor { detail_scroll: 0, ..c }),
{
}

/// Control-d then control-u comes back to the same detail scroll, away from the
/// top of the range.
pub proof fn law_scroll_down_then_up(c: Cursor, roles: Seq<Role>)
    requires
        c.detail_scroll + scroll_step() <= usize::MAX,
    ensures
        key_cursor(
            key_cursor(c, roles, with_control(KeyCode::Char('d'))),
            roles,
            with_control(KeyCode::Char('u')),
        ) == c,
{
}

/// After clamping, the selected row lies inside the window; a row already inside
/// leaves the scroll as it was.
pub proof fn law_clamp_shows_selection(c: Cursor, roles: Seq<Role>, height: int, p: int)
    requires
        height > 0,
        roles.len() <= usize::MAX,
        selected_index(roles, c.show_thinking, c.selected as int) == Some(p),
    ensures
        clamp_cursor(c, roles, height).list_scroll <= p < clamp_cursor(c, roles, height).list_scroll
            + height,
        c.list_scroll <= p < c.list_scroll + height ==> clamp_cursor(c, roles, height) == c,
{
    lemma_nav_shape(roles, c.show_thinking);
}

/// Clamping moves the window as little as possible: a selected row above the window
/// becomes its first row, one below becomes its last row; only the list scroll changes.
pub proof fn law_clamp_moves_least(c: Cursor, roles: Seq<Role>, height: int, p: int)
    requires
        height > 0,
        roles.len() <= usize::MAX,
        selected_index(roles, c.show_thinking, c.selected as int) == Some(p),
    ensures
        p < c.list_scroll ==> clamp_cursor(c, roles, height).list_scroll == p,
        p >= c.list_scroll + height ==> clamp_cursor(c, roles, height).list_scroll == p - height
            + 1,
        clamp_cursor(c, roles, height) == (Cursor {
            list_scroll: clamp_cursor(c, roles, height).list_scroll,
            ..c
        }),
{
    lemma_nav_shape(roles, c.show_thinking);
}

/// After new rows are read the selection is in range, whatever it was before.
pub proof fn law_reload_keeps_selection_in_range(c: Cursor, roles: Seq<Role>, height: int)
    requires
        roles.len() <= usize::MAX,
    ensures
        selection_in_range(reload_cursor(c, roles, height), roles),
{
    lemma_nav_shape(roles, c.show_thinking);
}

} // verus!

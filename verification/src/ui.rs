//! The texts that the panes show: titles, the status line, the detail lines and
//! the badge column.
use vstd::prelude::*;

use crate::app::{min_int, AppState};
use crate::message::{DisplayItem, DisplayModel, Role};
use crate::text::{
    chars_of, decimal, lemma_split_lines_nonempty, push_decimal, push_str, split_lines,
    string_of_range,
};

verus! {

/// The title of the detail pane for a row of this role.
pub open spec fn title_of(role: Role) -> Seq<char> {
    match role {
        Role::System => "System Init"@,
        Role::Thinking => "Thinking"@,
        Role::Assistant => "Assistant Response"@,
        Role::ToolUse => "Tool Invocation"@,
        Role::ToolResult => "Tool Result"@,
    }
}

/// The title of the detail pane for a row.
pub fn detail_title(item: &DisplayItem) -> (r: String)
    ensures
        r@ == title_of(item.role),
{
    let mut out = String::new();
    match item.role {
        Role::System => push_str(&mut out, "System Init"),
        Role::Thinking => push_str(&mut out, "Thinking"),
        Role::Assistant => push_str(&mut out, "Assistant Response"),
        Role::ToolUse => push_str(&mut out, "Tool Invocation"),
        Role::ToolResult => push_str(&mut out, "Tool Result"),
    }
    proof {
        assert(out@ =~= title_of(item.role));
    }
    out
}

/// The header of the detail pane: the badge and the title between spaces.
pub open spec fn detail_header_text(item_badge: Seq<char>, role: Role) -> Seq<char> {
    " "@ + item_badge + " "@ + title_of(role) + " "@
}

/// The header of the detail pane for a row.
pub fn detail_header(item: &DisplayItem) -> (r: String)
    ensures
        r@ == detail_header_text(item.badge@, item.role),
{
    let mut out = String::new();
    push_str(&mut out, " ");
    push_str(&mut out, item.badge);
    push_str(&mut out, " ");
    let t = detail_title(item);
    push_str(&mut out, t.as_str());
    push_str(&mut out, " ");
    proof {
        assert(out@ =~= detail_header_text(item.badge@, item.role));
    }
    out
}

/// The key help followed by the position of the selection among `total` rows
/// (`0/0` when there are none).
pub open spec fn status_text(selected: int, total: int) -> Seq<char> {
    " j/k:move  g/G:first/last  Ctrl-d/u:scroll  t:thinking  q:quit    "@ + if total == 0 {
        "0/0"@
    } else {
        decimal((selected + 1) as nat) + "/"@ + decimal(total as nat)
    }
}

/// The status line.
pub fn status_line(state: &AppState) -> (r: String)
    requires
        state.selected < usize::MAX,
    ensures
        r@ == status_text(state.selected as int, state.nav().len() as int),
{
    let total = state.visible_count();
    let mut out = String::new();
    push_str(&mut out, " j/k:move  g/G:first/last  Ctrl-d/u:scroll  t:thinking  q:quit    ");
    if total == 0 {
        push_str(&mut out, "0/0");
    } else {
        push_decimal(&mut out, state.selected + 1);
        push_str(&mut out, "/");
        push_decimal(&mut out, total);
    }
    proof {
        assert(out@ =~= status_text(state.selected as int, state.nav().len() as int));
    }
    out
}

/// The hint in the list title about thinking rows.
pub open spec fn thinking_hint_text(show_thinking: bool) -> Seq<char> {
    if show_thinking {
        " [thinking visible]"@
    } else {
        " [thinking hidden \u{2014} press t]"@
    }
}

/// The title of the list pane: the program, the file and the thinking hint.
pub open spec fn list_title_text(file_path: Seq<char>, show_thinking: bool) -> Seq<char> {
    " vischat \u{b7} "@ + file_path + " "@ + thinking_hint_text(show_thinking)
}

/// The title of the list pane.
pub fn list_title(state: &AppState) -> (r: String)
    ensures
        r@ == list_title_text(state.file_path@, state.show_thinking),
{
    let mut out = String::new();
    push_str(&mut out, " vischat \u{b7} ");
    push_str(&mut out, state.file_path.as_str());
    push_str(&mut out, " ");
    if state.show_thinking {
        push_str(&mut out, " [thinking visible]");
    } else {
        push_str(&mut out, " [thinking hidden \u{2014} press t]");
    }
    proof {
        assert(out@ =~= list_title_text(state.file_path@, state.show_thinking));
    }
    out
}

/// `s` without one trailing carriage return.
pub open spec fn strip_cr(s: Seq<char>) -> Seq<char> {
    if s.len() > 0 && s.last() == '\r' {
        s.drop_last()
    } else {
        s
    }
}

/// The lines of `s` as `str::lines` gives them: cut at `'\n'`, a `'\r'` before a
/// `'\n'` removed, and no empty last line after a final line ending.
pub open spec fn str_lines(s: Seq<char>) -> Seq<Seq<char>> {
    let pieces = split_lines(s);
    let n = pieces.len() as int;
    let body = pieces.take(n - 1).map_values(|p: Seq<char>| strip_cr(p));
    if pieces[n - 1].len() == 0 {
        body
    } else {
        body.push(pieces[n - 1])
    }
}

/// The lines of the detail text from line `skip` on.
pub open spec fn detail_lines_text(s: Seq<char>, skip: int) -> Seq<Seq<char>> {
    let ls = str_lines(s);
    if skip >= ls.len() {
        Seq::empty()
    } else {
        ls.subrange(skip, ls.len() as int)
    }
}

/// The lines of `content` from line `skip` on.
pub fn detail_lines(content: &str, skip: usize) -> (r: Vec<String>)
    ensures
        r@.map_values(|l: String| l@) == detail_lines_text(content@, skip as int),
{
    let cs = chars_of(content);
    let mut pieces: Vec<String> = Vec::new();
    let mut start: usize = 0;
    let mut i: usize = 0;
    proof {
        assert(cs@.take(0) =~= Seq::<char>::empty());
        assert(cs@.subrange(0, 0) =~= Seq::<char>::empty());
        assert(pieces@.map_values(|l: String| l@) =~= Seq::<Seq<char>>::empty());
    }
    while i < cs.len()
        invariant
            i <= cs@.len(),
            cs@ == content@,
            start <= i,
            split_lines(cs@.take(i as int)).len() == pieces@.len() + 1,
            split_lines(cs@.take(i as int)).last() == cs@.subrange(start as int, i as int),
            pieces@.map_values(|l: String| l@) == split_lines(cs@.take(i as int)).drop_last().map_values(
                |p: Seq<char>| strip_cr(p),
            ),
        decreases cs.len() - i,
    {
        let ghost before = split_lines(cs@.take(i as int));
        proof {
            assert(cs@.take(i + 1).drop_last() =~= cs@.take(i as int));
            lemma_split_lines_nonempty(cs@.take(i as int));
        }
        if cs[i] == '\n' {
            let end = if i > start && cs[i - 1] == '\r' {
                i - 1
            } else {
                i
            };
            let line = string_of_range(&cs, start, end);
            let ghost prev = pieces@;
            pieces.push(line);
            proof {
                let seg = cs@.subrange(start as int, i as int);
                assert(line@ =~= strip_cr(seg));
                assert(split_lines(cs@.take(i + 1)).drop_last() =~= before);
                assert(pieces@.map_values(|l: String| l@) =~= prev.map_values(|l: String| l@).push(
                    line@,
                ));
                assert(before =~= before.drop_last().push(seg));
                assert(before.map_values(|p: Seq<char>| strip_cr(p)) =~= before.drop_last().map_values(
                    |p: Seq<char>| strip_cr(p),
                ).push(strip_cr(seg)));
                assert(cs@.subrange(i + 1, i + 1) =~= Seq::<char>::empty());
            }
            start = i + 1;
        } else {
            proof {
                let after = split_lines(cs@.take(i + 1));
                assert(after.drop_last() =~= before.drop_last());
                assert(after.last() =~= cs@.subrange(start as int, i + 1));
            }
        }
        i = i + 1;
    }
    proof {
        assert(cs@.take(cs@.len() as int) =~= cs@);
        lemma_split_lines_nonempty(cs@);
    }
    if start < cs.len() {
        let line = string_of_range(&cs, start, cs.len());
        let ghost prev = pieces@;
        pieces.push(line);
        proof {
            assert(pieces@.map_values(|l: String| l@) =~= prev.map_values(|l: String| l@).push(
                line@,
            ));
        }
    }
    proof {
        let all = split_lines(content@);
        assert(all.take(all.len() - 1) =~= all.drop_last());
        assert(pieces@.map_values(|l: String| l@) =~= str_lines(content@));
    }
    let mut out: Vec<String> = Vec::new();
    let mut k = skip;
    proof {
        assert(out@.map_values(|l: String| l@) =~= Seq::<Seq<char>>::empty());
    }
    while k < pieces.len()
        invariant
            skip <= k <= pieces@.len() || (k == skip && skip >= pieces@.len()),
            pieces@.map_values(|l: String| l@) == str_lines(content@),
            k <= pieces@.len() ==> out@.map_values(|l: String| l@) == str_lines(content@).subrange(
                skip as int,
                k as int,
            ),
            k > pieces@.len() ==> out@.len() == 0,
        decreases pieces.len() - k,
    {
        let ghost prev = out@;
        out.push(pieces[k].clone());
        proof {
            assert(out@.map_values(|l: String| l@) =~= prev.map_values(|l: String| l@).push(
                pieces@[k as int]@,
            ));
            assert(str_lines(content@).subrange(skip as int, k + 1) =~= str_lines(
                content@,
            ).subrange(skip as int, k as int).push(str_lines(content@)[k as int]));
        }
        k = k + 1;
    }
    proof {
        if skip >= pieces@.len() {
            assert(out@.map_values(|l: String| l@) =~= Seq::<Seq<char>>::empty());
        }
    }
    out
}

/// A badge padded with spaces to eight characters (longer badges are kept whole).
pub open spec fn padded_badge(badge: Seq<char>) -> Seq<char> {
    if badge.len() >= 8 {
        badge
    } else {
        badge + Seq::new((8 - badge.len()) as nat, |i: int| ' ')
    }
}

/// The badge column of a row.
pub fn badge_cell(item: &DisplayItem) -> (r: String)
    ensures
        r@ == padded_badge(item.badge@),
{
    let cs = chars_of(item.badge);
    let mut out = string_of_range(&cs, 0, cs.len());
    let mut n = cs.len();
    proof {
        assert(cs@.subrange(0, cs@.len() as int) =~= cs@);
    }
    while n < 8
        invariant
            cs@ == item.badge@,
            cs@.len() <= n <= 8 || (n == cs@.len() && n >= 8),
            n < 8 || n == cs@.len() || n == 8,
            out@ == cs@ + Seq::new((n - cs@.len()) as nat, |i: int| ' '),
        decreases 8 - n,
    {
        push_str(&mut out, " ");
        proof {
            reveal_strlit(" ");
            assert(out@ =~= cs@ + Seq::new((n + 1 - cs@.len()) as nat, |i: int| ' '));
        }
        n = n + 1;
    }
    proof {
        if cs@.len() >= 8 {
            assert(out@ =~= cs@);
        } else {
            assert(n == 8);
        }
    }
    out
}

/// The summary column of a row: a thinking row shows `...` while thinking rows are folded.
pub open spec fn row_summary_text(item: DisplayModel, show_thinking: bool) -> Seq<char> {
    if item.role == Role::Thinking && !show_thinking {
        "..."@
    } else {
        item.summary
    }
}

/// The summary column of a row.
pub fn row_summary(item: &DisplayItem, show_thinking: bool) -> (r: String)
    ensures
        r@ == row_summary_text(item@, show_thinking),
{
    if matches!(item.role, Role::Thinking) && !show_thinking {
        let mut out = String::new();
        push_str(&mut out, "...");
        out
    } else {
        item.summary.clone()
    }
}

/// The rows that a list window of `height` rows shows, from the list scroll on:
/// the positions `[start, end)` among all rows.
pub open spec fn window_bounds(len: int, scroll: int, height: int) -> (int, int) {
    let start = min_int(scroll, len);
    (start, min_int(start + height, len))
}

/// Where the selected row stands in the window: its position less the list
/// scroll, when it is not above the window.
pub open spec fn window_highlight(selection: Option<int>, scroll: int) -> Option<int> {
    match selection {
        Some(p) => if p >= scroll {
            Some(p - scroll)
        } else {
            None
        },
        None => None,
    }
}

/// The window of the list pane for `height` rows: the first and past-the-last
/// row shown, and the highlighted line of the window.
pub fn list_window(state: &AppState, height: usize) -> (r: (usize, usize, Option<usize>))
    ensures
        (r.0 as int, r.1 as int) == window_bounds(
            state.all_items@.len() as int,
            state.list_scroll as int,
            height as int,
        ),
        match r.2 {
            Some(k) => window_highlight(state.selection(), state.list_scroll as int) == Some(
                k as int,
            ),
            None => window_highlight(state.selection(), state.list_scroll as int) is None,
        },
{
    let len = state.all_items.len();
    let scroll = state.list_scroll;
    let start = if scroll <= len {
        scroll
    } else {
        len
    };
    let end = if height <= len - start {
        start + height
    } else {
        len
    };
    let highlight = match state.selected_list_index() {
        Some(p) => if p >= scroll {
            Some(p - scroll)
        } else {
            None
        },
        None => None,
    };
    (start, end, highlight)
}

/// Thinking rows are folded by default: while thinking rows are hidden a thinking
/// row's summary column is exactly `...`, and every other row, or every row once
/// thinking rows are shown, shows its own summary.
pub proof fn law_thinking_rows_fold(item: DisplayModel)
    ensures
        item.role == Role::Thinking ==> row_summary_text(item, false) == "..."@,
        item.role != Role::Thinking ==> row_summary_text(item, false) == item.summary,
        row_summary_text(item, true) == item.summary,
{
}

/// The detail pane is titled by the row's own role: "System Init", "Thinking",
/// "Assistant Response", "Tool Invocation" and "Tool Result", so rows of
/// different roles never share a title; the header is the badge and that title
/// between single spaces.
pub proof fn law_detail_titles_name_roles(badge: Seq<char>, role: Role, other: Role)
    ensures
        role == Role::System ==> title_of(role) == "System Init"@,
        role == Role::Thinking ==> title_of(role) == "Thinking"@,
        role == Role::Assistant ==> title_of(role) == "Assistant Response"@,
        role == Role::ToolUse ==> title_of(role) == "Tool Invocation"@,
        role == Role::ToolResult ==> title_of(role) == "Tool Result"@,
        role != other ==> title_of(role) != title_of(other),
        detail_header_text(badge, role) == " "@ + badge + " "@ + title_of(role) + " "@,
{
    reveal_strlit("System Init");
    reveal_strlit("Thinking");
    reveal_strlit("Assistant Response");
    reveal_strlit("Tool Invocation");
    reveal_strlit("Tool Result");
    if role != other {
        assert(title_of(role).len() != title_of(other).len() || title_of(role)[0] != title_of(
            other,
        )[0] || title_of(role)[5] != title_of(other)[5]);
    }
}

/// The badge column is eight characters wide: a shorter badge is followed by spaces
/// up to eight characters, a longer one is kept whole.
pub proof fn law_badge_column(badge: Seq<char>)
    ensures
        padded_badge(badge).len() == if badge.len() >= 8 {
            badge.len()
        } else {
            8
        },
        padded_badge(badge).take(badge.len() as int) == badge,
        forall|i: int| badge.len() <= i < padded_badge(badge).len() ==> #[trigger] padded_badge(
            badge,
        )[i] == ' ',
{
    assert(padded_badge(badge).take(badge.len() as int) =~= badge);
}

} // verus!

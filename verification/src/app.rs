//! The browser's state: the rows, which of them can be selected, the selection,
//! the scroll offsets and the folding of thinking blocks.
use vstd::prelude::*;

use crate::message::{
    displayable, items_view, message_display, messages_view, DisplayItem, DisplayModel,
    LogicalMessage, MessageModel, Role,
};

verus! {

/// Everything about the browser's state but its rows and file.
pub struct Cursor {
    pub selected: usize,
    pub list_scroll: usize,
    pub detail_scroll: usize,
    pub show_thinking: bool,
    pub expanded: bool,
    pub quit: bool,
}

/// A row of this role can be selected: thinking rows only while they are shown.
pub open spec fn navigable(role: Role, show_thinking: bool) -> bool {
    show_thinking || role != Role::Thinking
}

/// The roles of the rows, in order.
pub open spec fn roles_of(items: Seq<DisplayItem>) -> Seq<Role> {
    items.map_values(|d: DisplayItem| d.role)
}

/// The positions, in increasing order, of the rows that can be selected.
pub open spec fn nav_indices(roles: Seq<Role>, show_thinking: bool) -> Seq<int>
    decreases roles.len(),
{
    if roles.len() == 0 {
        Seq::empty()
    } else {
        let p = nav_indices(roles.drop_last(), show_thinking);
        if navigable(roles.last(), show_thinking) {
            p.push(roles.len() - 1)
        } else {
            p
        }
    }
}

/// The position among all rows of the `selected`-th selectable row, if there is one.
pub open spec fn selected_index(roles: Seq<Role>, show_thinking: bool, selected: int) -> Option<
    int,
> {
    let nav = nav_indices(roles, show_thinking);
    if 0 <= selected < nav.len() {
        Some(nav[selected])
    } else {
        None
    }
}

/// Where `p` stands in `s`, if it does.
pub open spec fn position_of(s: Seq<int>, p: int) -> Option<int> {
    if exists|k: int| 0 <= k < s.len() && s[k] == p {
        Some(choose|k: int| 0 <= k < s.len() && s[k] == p)
    } else {
        None
    }
}

/// One row down, when there is a row below: the detail scroll is reset and the
/// row is collapsed.
pub open spec fn down_cursor(c: Cursor, count: int) -> Cursor {
    if count > 0 && c.selected + 1 < count {
        Cursor { selected: (c.selected + 1) as usize, detail_scroll: 0, expanded: false, ..c }
    } else {
        c
    }
}

/// One row up, when there is a row above: the detail scroll is reset and the row is collapsed.
pub open spec fn up_cursor(c: Cursor) -> Cursor {
    if c.selected > 0 {
        Cursor { selected: (c.selected - 1) as usize, detail_scroll: 0, expanded: false, ..c }
    } else {
        c
    }
}

/// The half-page step for a list of `height` rows (at least one).
pub open spec fn half_page(height: int) -> int {
    if height / 2 >= 1 {
        height / 2
    } else {
        1
    }
}

/// The smaller of two integers.
pub open spec fn min_int(a: int, b: int) -> int {
    if a <= b {
        a
    } else {
        b
    }
}

/// Half a page down: selection and list scroll move by the same step, the
/// selection stopping at the last row and the scroll at the selection.
pub open spec fn half_page_down_cursor(c: Cursor, count: int, height: int) -> Cursor {
    if count == 0 {
        c
    } else {
        let sel = min_int(c.selected + half_page(height), count - 1);
        Cursor {
            selected: sel as usize,
            list_scroll: min_int(c.list_scroll + half_page(height), sel) as usize,
            detail_scroll: 0,
            expanded: false,
            ..c
        }
    }
}

/// `a - b`, or zero where `b` is larger.
pub open spec fn sat_sub(a: int, b: int) -> int {
    if a >= b {
        a - b
    } else {
        0
    }
}

/// Half a page up: selection and list scroll move back by the same step, both
/// stopping at zero.
pub open spec fn half_page_up_cursor(c: Cursor, height: int) -> Cursor {
    Cursor {
        selected: sat_sub(c.selected as int, half_page(height)) as usize,
        list_scroll: sat_sub(c.list_scroll as int, half_page(height)) as usize,
        detail_scroll: 0,
        expanded: false,
        ..c
    }
}

/// The list scroll that keeps row `pos` inside a window of `height` rows.
pub open spec fn clamped_scroll(scroll: int, pos: int, height: int) -> int {
    if height == 0 {
        scroll
    } else {
        let s1 = if pos < scroll {
            pos
        } else {
            scroll
        };
        if pos >= s1 + height {
            pos - height + 1
        } else {
            s1
        }
    }
}

/// The list scroll adjusted so that the selected row (or row zero when nothing is
/// selected) is inside a window of `height` rows.
pub open spec fn clamp_cursor(c: Cursor, roles: Seq<Role>, height: int) -> Cursor {
    let pos = match selected_index(roles, c.show_thinking, c.selected as int) {
        Some(p) => p,
        None => 0,
    };
    Cursor { list_scroll: clamped_scroll(c.list_scroll as int, pos, height) as usize, ..c }
}

/// After new rows are read: the selection is kept within the selectable rows, the
/// detail scroll reset and the list scroll clamped to the list height.
pub open spec fn reload_cursor(c: Cursor, roles: Seq<Role>, height: int) -> Cursor {
    let count = nav_indices(roles, c.show_thinking).len();
    let max = if count >= 1 {
        count - 1
    } else {
        0
    };
    let sel = if c.selected > max {
        max
    } else {
        c.selected as int
    };
    clamp_cursor(Cursor { selected: sel as usize, detail_scroll: 0, ..c }, roles, height)
}

/// Showing or hiding thinking rows keeps the same row selected where it stays
/// selectable; otherwise the selection is kept within the selectable rows.
pub open spec fn toggle_thinking_cursor(c: Cursor, roles: Seq<Role>) -> Cursor {
    let show = !c.show_thinking;
    let nav = nav_indices(roles, show);
    let sel = match selected_index(roles, c.show_thinking, c.selected as int) {
        None => c.selected as int,
        Some(p) => match position_of(nav, p) {
            Some(k) => k,
            None => if nav.len() > 0 && c.selected >= nav.len() {
                nav.len() - 1
            } else {
                c.selected as int
            },
        },
    };
    Cursor { selected: sel as usize, show_thinking: show, detail_scroll: 0, ..c }
}

/// The rows of a sequence of messages, in order.
pub open spec fn display_rows(ms: Seq<MessageModel>) -> Seq<DisplayModel>
    decreases ms.len(),
{
    if ms.len() == 0 {
        Seq::empty()
    } else {
        display_rows(ms.drop_last()) + message_display(ms.last())
    }
}

/// Every message can be shown.
pub open spec fn all_displayable(ms: Seq<MessageModel>) -> bool {
    forall|i: int| 0 <= i < ms.len() ==> #[trigger] displayable(ms[i])
}

// ── Lemmas ───────────────────────────────────────────────────────────────────

/// The selectable positions of a prefix are a prefix of the selectable positions.
pub proof fn lemma_nav_prefix(roles: Seq<Role>, show: bool, i: int, j: int)
    requires
        0 <= i <= j <= roles.len(),
    ensures
        nav_indices(roles.take(i), show).len() <= nav_indices(roles.take(j), show).len(),
        nav_indices(roles.take(j), show).take(nav_indices(roles.take(i), show).len() as int)
            == nav_indices(roles.take(i), show),
    decreases j - i,
{
    if i < j {
        lemma_nav_prefix(roles, show, i, j - 1);
        assert(roles.take(j).drop_last() =~= roles.take(j - 1));
        let k = nav_indices(roles.take(i), show).len() as int;
        assert(nav_indices(roles.take(j), show).take(k) =~= nav_indices(roles.take(j - 1), show).take(k));
    } else {
        assert(nav_indices(roles.take(j), show).take(nav_indices(roles.take(i), show).len() as int)
            =~= nav_indices(roles.take(i), show));
    }
}

/// The selectable positions are increasing, in range, and are exactly the
/// positions of selectable roles.
pub proof fn lemma_nav_shape(roles: Seq<Role>, show: bool)
    ensures
        forall|a: int, b: int|
            0 <= a < b < nav_indices(roles, show).len() ==> nav_indices(roles, show)[a]
                < nav_indices(roles, show)[b],
        forall|a: int|
            0 <= a < nav_indices(roles, show).len() ==> 0 <= nav_indices(roles, show)[a]
                < roles.len() && navigable(roles[nav_indices(roles, show)[a]], show),
        nav_indices(roles, show).len() <= roles.len(),
    decreases roles.len(),
{
    if roles.len() > 0 {
        lemma_nav_shape(roles.drop_last(), show);
    }
}

/// The selectable positions past those of a prefix lie past the prefix.
pub proof fn lemma_nav_suffix(roles: Seq<Role>, show: bool, i: int)
    requires
        0 <= i <= roles.len(),
    ensures
        forall|q: int|
            nav_indices(roles.take(i), show).len() <= q < nav_indices(roles, show).len()
                ==> nav_indices(roles, show)[q] >= i,
    decreases roles.len(),
{
    if i == roles.len() {
        assert(roles.take(i) =~= roles);
    } else {
        let d = roles.drop_last();
        assert(d.take(i) =~= roles.take(i));
        lemma_nav_suffix(d, show, i);
        let nd = nav_indices(d, show);
        assert forall|q: int|
            nav_indices(roles.take(i), show).len() <= q < nav_indices(roles, show).len()
                implies nav_indices(roles, show)[q] >= i by {
            if q < nd.len() {
                assert(nav_indices(roles, show)[q] == nd[q]);
            }
        }
    }
}

/// A selectable row stands at the position that counts the selectable rows before it.
pub proof fn lemma_nav_position(roles: Seq<Role>, show: bool, p: int)
    requires
        0 <= p < roles.len(),
    ensures
        navigable(roles[p], show) ==> position_of(nav_indices(roles, show), p) == Some(
            nav_indices(roles.take(p), show).len() as int,
        ),
        !navigable(roles[p], show) ==> position_of(nav_indices(roles, show), p) is None,
{
    let nav = nav_indices(roles, show);
    lemma_nav_shape(roles, show);
    lemma_nav_prefix(roles, show, p, p + 1);
    lemma_nav_prefix(roles, show, p + 1, roles.len() as int);
    assert(roles.take(roles.len() as int) =~= roles);
    assert(roles.take(p + 1).drop_last() =~= roles.take(p));
    let k = nav_indices(roles.take(p), show).len() as int;
    lemma_nav_shape(roles.take(p), show);
    if navigable(roles[p], show) {
        assert(nav_indices(roles.take(p + 1), show) == nav_indices(roles.take(p), show).push(p));
        assert(nav_indices(roles.take(roles.len() as int), show) == nav);
        assert(nav.take(k + 1) == nav_indices(roles.take(p + 1), show));
        assert(nav.take(k + 1)[k] == nav[k]);
        assert(nav[k] == p);
        assert(exists|q: int| 0 <= q < nav.len() && nav[q] == p);
        let c = choose|q: int| 0 <= q < nav.len() && nav[q] == p;
        assert(c == k);
    } else {
        assert(nav_indices(roles.take(p + 1), show) == nav_indices(roles.take(p), show));
        lemma_nav_suffix(roles, show, p + 1);
        assert forall|q: int| 0 <= q < nav.len() implies nav[q] != p by {
            if q < k {
                assert(nav[q] == nav_indices(roles.take(p), show)[q]);
            }
        }
    }
}

// ── The state ────────────────────────────────────────────────────────────────

/// The browser's state.
pub struct AppState {
    pub all_items: Vec<DisplayItem>,
    pub selected: usize,
    pub list_scroll: usize,
    pub detail_scroll: usize,
    pub show_thinking: bool,
    pub expanded: bool,
    pub quit: bool,
    pub file_path: String,
    /// Visible list rows (excluding borders).
    pub list_height: usize,
}

/// Two states hold the same rows, file and list height.
pub open spec fn same_rows(a: AppState, b: AppState) -> bool {
    &&& a.all_items@ == b.all_items@
    &&& a.file_path == b.file_path
    &&& a.list_height == b.list_height
}

/// The rows of the messages, one message after the other (see `display_rows`).
pub fn display_items(messages: &Vec<LogicalMessage>) -> (r: Vec<DisplayItem>)
    requires
        all_displayable(messages_view(messages@)),
    ensures
        items_view(r@) == display_rows(messages_view(messages@)),
{
    let mut out: Vec<DisplayItem> = Vec::new();
    let mut i: usize = 0;
    proof {
        assert(items_view(out@) =~= display_rows(messages_view(messages@.take(0))));
    }
    while i < messages.len()
        invariant
            i <= messages@.len(),
            all_displayable(messages_view(messages@)),
            items_view(out@) == display_rows(messages_view(messages@.take(i as int))),
        decreases messages.len() - i,
    {
        proof {
            assert(messages_view(messages@.take(i + 1)).drop_last() =~= messages_view(
                messages@.take(i as int),
            ));
            assert(displayable(messages_view(messages@)[i as int]));
        }
        let rows = DisplayItem::from_logical(&messages[i]);
        let ghost before = out@;
        let mut j: usize = 0;
        while j < rows.len()
            invariant
                j <= rows@.len(),
                items_view(out@) == items_view(before) + items_view(rows@.take(j as int)),
            decreases rows.len() - j,
        {
            let ghost prev = out@;
            out.push(rows[j].clone_item());
            proof {
                assert(items_view(rows@.take(j + 1)) =~= items_view(rows@.take(j as int)).push(
                    rows@[j as int]@,
                ));
                assert(items_view(out@) =~= items_view(prev).push(rows@[j as int]@));
            }
            j = j + 1;
        }
        proof {
            assert(rows@.take(rows@.len() as int) =~= rows@);
            assert(items_view(out@) =~= display_rows(messages_view(messages@.take(i + 1))));
        }
        i = i + 1;
    }
    proof {
        assert(messages@.take(messages@.len() as int) =~= messages@);
    }
    out
}

impl AppState {
    /// The cursor part of the state.
    pub open spec fn cursor(&self) -> Cursor {
        Cursor {
            selected: self.selected,
            list_scroll: self.list_scroll,
            detail_scroll: self.detail_scroll,
            show_thinking: self.show_thinking,
            expanded: self.expanded,
            quit: self.quit,
        }
    }

    /// The roles of the rows.
    pub open spec fn roles(&self) -> Seq<Role> {
        roles_of(self.all_items@)
    }

    /// The positions of the selectable rows.
    pub open spec fn nav(&self) -> Seq<int> {
        nav_indices(self.roles(), self.show_thinking)
    }

    /// The position among all rows of the selected row, if any.
    pub open spec fn selection(&self) -> Option<int> {
        selected_index(self.roles(), self.show_thinking, self.selected as int)
    }

    /// A fresh state: first row selected, nothing scrolled, thinking folded.
    pub fn new(all_items: Vec<DisplayItem>, file_path: String) -> (s: Self)
        ensures
            s.all_items@ == all_items@,
            s.file_path == file_path,
            s.selected == 0,
            s.list_scroll == 0,
            s.detail_scroll == 0,
            !s.show_thinking,
            !s.expanded,
            !s.quit,
            s.list_height == 10,
    {
        AppState {
            all_items,
            selected: 0,
            list_scroll: 0,
            detail_scroll: 0,
            show_thinking: false,
            expanded: false,
            quit: false,
            file_path,
            list_height: 10,
        }
    }

    /// Whether row `i` can be selected now.
    fn is_navigable_at(&self, i: usize) -> (r: bool)
        requires
            i < self.all_items@.len(),
        ensures
            r == navigable(self.roles()[i as int], self.show_thinking),
    {
        self.show_thinking || !matches!(self.all_items[i].role, Role::Thinking)
    }

    /// The number of selectable rows among the first `p`.
    fn nav_count_before(&self, p: usize) -> (r: usize)
        requires
            p <= self.all_items@.len(),
        ensures
            r == nav_indices(self.roles().take(p as int), self.show_thinking).len(),
            r <= p,
    {
        let ghost roles = self.roles();
        let mut count: usize = 0;
        let mut i: usize = 0;
        proof {
            assert(roles.take(0) =~= Seq::<Role>::empty());
        }
        while i < p
            invariant
                i <= p <= self.all_items@.len(),
                roles == self.roles(),
                roles.len() == self.all_items@.len(),
                count == nav_indices(roles.take(i as int), self.show_thinking).len(),
                count <= i,
            decreases p - i,
        {
            proof {
                assert(roles.take(i + 1).drop_last() =~= roles.take(i as int));
            }
            if self.is_navigable_at(i) {
                count = count + 1;
            }
            i = i + 1;
        }
        count
    }

    /// Where row `p` stands among the rows that can be selected now, if it can be.
    pub fn nav_position(&self, p: usize) -> (r: Option<usize>)
        requires
            p < self.all_items@.len(),
        ensures
            match r {
                Some(k) => position_of(self.nav(), p as int) == Some(k as int),
                None => position_of(self.nav(), p as int) is None,
            },
    {
        let count = self.nav_count_before(p);
        proof {
            lemma_nav_position(self.roles(), self.show_thinking, p as int);
        }
        if self.is_navigable_at(p) {
            Some(count)
        } else {
            None
        }
    }

    /// The number of rows that can be selected (thinking rows only while shown).
    pub fn navigable_count(&self) -> (r: usize)
        ensures
            r == self.nav().len(),
    {
        let count = self.nav_count_before(self.all_items.len());
        proof {
            assert(self.roles().take(self.roles().len() as int) =~= self.roles());
        }
        count
    }

    /// The rows that can be selected, in order.
    pub fn navigable_items(&self) -> (r: Vec<&DisplayItem>)
        ensures
            r@.len() == self.nav().len(),
            forall|k: int| 0 <= k < r@.len() ==> *r@[k] == self.all_items@[self.nav()[k]],
    {
        let ghost roles = self.roles();
        let mut out: Vec<&DisplayItem> = Vec::new();
        let mut i: usize = 0;
        while i < self.all_items.len()
            invariant
                i <= self.all_items@.len(),
                roles == self.roles(),
                roles.len() == self.all_items@.len(),
                out@.len() == nav_indices(roles.take(i as int), self.show_thinking).len(),
                forall|k: int|
                    0 <= k < out@.len() ==> *out@[k] == self.all_items@[nav_indices(
                        roles.take(i as int),
                        self.show_thinking,
                    )[k]],
            decreases self.all_items.len() - i,
        {
            proof {
                assert(roles.take(i + 1).drop_last() =~= roles.take(i as int));
            }
            if self.is_navigable_at(i) {
                out.push(&self.all_items[i]);
            }
            i = i + 1;
        }
        proof {
            assert(roles.take(roles.len() as int) =~= roles);
        }
        out
    }

    /// The rows that the list shows as selectable (the same as `navigable_items`).
    pub fn visible_items(&self) -> (r: Vec<&DisplayItem>)
        ensures
            r@.len() == self.nav().len(),
            forall|k: int| 0 <= k < r@.len() ==> *r@[k] == self.all_items@[self.nav()[k]],
    {
        self.navigable_items()
    }

    /// The number of rows that the list shows as selectable (the same as `navigable_count`).
    pub fn visible_count(&self) -> (r: usize)
        ensures
            r == self.nav().len(),
    {
        self.navigable_count()
    }

    /// All rows, thinking ones included.
    pub fn list_items(&self) -> (r: &[DisplayItem])
        ensures
            r@ == self.all_items@,
    {
        self.all_items.as_slice()
    }

    /// The position among all rows of the selected row, if the selection is in range.
    pub fn selected_list_index(&self) -> (r: Option<usize>)
        ensures
            match r {
                Some(p) => self.selection() == Some(p as int),
                None => self.selection() is None,
            },
    {
        let ghost roles = self.roles();
        let mut count: usize = 0;
        let mut i: usize = 0;
        while i < self.all_items.len()
            invariant
                i <= self.all_items@.len(),
                roles == self.roles(),
                roles.len() == self.all_items@.len(),
                count == nav_indices(roles.take(i as int), self.show_thinking).len(),
                count <= self.selected,
            decreases self.all_items.len() - i,
        {
            proof {
                assert(roles.take(i + 1).drop_last() =~= roles.take(i as int));
            }
            if self.is_navigable_at(i) {
                if count == self.selected {
                    proof {
                        lemma_nav_prefix(roles, self.show_thinking, i + 1, roles.len() as int);
                        assert(roles.take(roles.len() as int) =~= roles);
                        let n1 = nav_indices(roles.take(i + 1), self.show_thinking);
                        assert(n1[count as int] == i);
                        assert(self.nav().take(n1.len() as int)[count as int] == self.nav()[count as int]);
                    }
                    return Some(i);
                }
                count = count + 1;
            }
            i = i + 1;
        }
        proof {
            assert(roles.take(roles.len() as int) =~= roles);
        }
        None
    }

    /// The selected row, if the selection is in range.
    pub fn selected_item(&self) -> (r: Option<&DisplayItem>)
        ensures
            match self.selection() {
                Some(p) => r is Some && *r.unwrap() == self.all_items@[p],
                None => r is None,
            },
    {
        match self.selected_list_index() {
            Some(p) => {
                proof {
                    lemma_nav_shape(self.roles(), self.show_thinking);
                }
                Some(&self.all_items[p])
            },
            None => None,
        }
    }

    /// Expands or collapses the selected row; the detail scroll is reset.
    pub fn toggle_expand(&mut self)
        ensures
            same_rows(*final(self), *old(self)),
            final(self).cursor() == (Cursor {
                expanded: !old(self).expanded,
                detail_scroll: 0,
                ..old(self).cursor()
            }),
    {
        self.expanded = !self.expanded;
        self.detail_scroll = 0;
    }

    /// Moves the selection one row down (see `down_cursor`).
    pub fn move_down(&mut self)
        ensures
            same_rows(*final(self), *old(self)),
            final(self).cursor() == down_cursor(old(self).cursor(), old(self).nav().len() as int),
    {
        let count = self.navigable_count();
        if count == 0 {
            return;
        }
        if self.selected < count - 1 {
            self.selected = self.selected + 1;
            self.detail_scroll = 0;
            self.expanded = false;
        }
    }

    /// Moves the selection one row up (see `up_cursor`).
    pub fn move_up(&mut self)
        ensures
            same_rows(*final(self), *old(self)),
            final(self).cursor() == up_cursor(old(self).cursor()),
    {
        if self.selected > 0 {
            self.selected = self.selected - 1;
            self.detail_scroll = 0;
            self.expanded = false;
        }
    }

    /// Moves selection and list scroll half a page down (see `half_page_down_cursor`).
    pub fn move_half_page_down(&mut self)
        ensures
            same_rows(*final(self), *old(self)),
            final(self).cursor() == half_page_down_cursor(
                old(self).cursor(),
                old(self).nav().len() as int,
                old(self).list_height as int,
            ),
    {
        let step = if self.list_height / 2 >= 1 {
            self.list_height / 2
        } else {
            1
        };
        let count = self.navigable_count();
        if count == 0 {
            return;
        }
        let last = count - 1;
        let sel = if self.selected >= last || step >= last - self.selected {
            last
        } else {
            self.selected + step
        };
        let scroll = if self.list_scroll >= sel || step >= sel - self.list_scroll {
            sel
        } else {
            self.list_scroll + step
        };
        self.selected = sel;
        self.list_scroll = scroll;
        self.detail_scroll = 0;
        self.expanded = false;
    }

    /// Moves selection and list scroll half a page up (see `half_page_up_cursor`).
    pub fn move_half_page_up(&mut self)
        ensures
            same_rows(*final(self), *old(self)),
            final(self).cursor() == half_page_up_cursor(
                old(self).cursor(),
                old(self).list_height as int,
            ),
    {
        let step = if self.list_height / 2 >= 1 {
            self.list_height / 2
        } else {
            1
        };
        self.selected = if self.selected >= step {
            self.selected - step
        } else {
            0
        };
        self.list_scroll = if self.list_scroll >= step {
            self.list_scroll - step
        } else {
            0
        };
        self.detail_scroll = 0;
        self.expanded = false;
    }

    /// Scrolls the list so that the selected row is inside a window of `list_height`
    /// rows (see `clamp_cursor`).
    pub fn clamp_scroll(&mut self, list_height: usize)
        ensures
            same_rows(*final(self), *old(self)),
            final(self).cursor() == clamp_cursor(
                old(self).cursor(),
                old(self).roles(),
                list_height as int,
            ),
    {
        if list_height == 0 {
            return;
        }
        let list_pos = match self.selected_list_index() {
            Some(p) => p,
            None => 0,
        };
        if list_pos < self.list_scroll {
            self.list_scroll = list_pos;
        }
        if list_pos >= self.list_scroll && list_pos - self.list_scroll >= list_height {
            self.list_scroll = list_pos - list_height + 1;
        }
    }

    /// Replaces the rows by those of freshly read messages; with nothing read
    /// (`None`, as when the file cannot be read) the state stays as it is.
    pub fn reload(&mut self, loaded: Option<Vec<LogicalMessage>>)
        requires
            loaded matches Some(ms) ==> all_displayable(messages_view(ms@)),
        ensures
            loaded is None ==> *final(self) == *old(self),
            loaded matches Some(ms) ==> {
                &&& items_view(final(self).all_items@) == display_rows(messages_view(ms@))
                &&& final(self).file_path == old(self).file_path
                &&& final(self).list_height == old(self).list_height
                &&& final(self).cursor() == reload_cursor(
                    old(self).cursor(),
                    final(self).roles(),
                    old(self).list_height as int,
                )
            },
    {
        match loaded {
            Some(messages) => {
                self.all_items = display_items(&messages);
                let count = self.navigable_count();
                let max = if count >= 1 {
                    count - 1
                } else {
                    0
                };
                if self.selected > max {
                    self.selected = max;
                }
                self.detail_scroll = 0;
                let h = self.list_height;
                self.clamp_scroll(h);
            },
            None => {},
        }
    }
}

} // verus!

//! The state of the viewer and what each key does to it.

use crate::buffer::{appended, stamped, LogBuffer};
use crate::format::{
    count_statement_lines, extract_batch_statement_at_cursor, statement_at_offset, sub_statements,
    texts, total_lines, with_pretty,
};
use crate::group::{grouping, GroupedLogMessages};
use crate::keys::KeySet;
use crate::nav::{create_flat_navigation_structure, flattened, rows_of, FlatNavigationItem, Row};
use crate::record::{GroupKey, LogRecord, RequestGroup, SqlLogMessage};
use crate::scroll::{Scroll, ScrollState};
use crate::select::{
    clamped_position, has_no_uid, is_first_with_uid, offset_showing, restore_selection, Selection,
};
use crate::uids::{all_at_top, ScrollTable, UidSet};
use vstd::prelude::*;

verus! {

/// A key press, as far as the viewer tells keys apart. A character comes
/// with whether the control key, and no other modifier, was held.
#[derive(Debug, Clone, Copy, PartialEq, Eq, Structural)]
pub enum Key {
    Char(char, bool),
    Up,
    Down,
    Enter,
    Esc,
    Backspace,
    Other,
}

/// What is left to do outside once a key has been handled.
#[derive(Debug, PartialEq, Eq)]
pub enum Action {
    Nothing,
    Quit,
    Copy(String),
}

/// What an action holds.
pub ghost enum ActionView {
    Nothing,
    Quit,
    Copy(Seq<char>),
}

impl View for Action {
    type V = ActionView;

    open spec fn view(&self) -> ActionView {
        match self {
            Action::Nothing => ActionView::Nothing,
            Action::Quit => ActionView::Quit,
            Action::Copy(text) => ActionView::Copy(text@),
        }
    }
}

/// A way to move through the content of a record.
#[derive(Debug, Clone, Copy, PartialEq, Eq, Structural)]
pub enum Motion {
    LineDown,
    LineUp,
    PageDown,
    PageUp,
}

/// All that the viewer keeps between two key presses. `list_height` is the
/// number of rows that the list shows, `content_height` the number of lines
/// that are shown of an expanded record; `held` are the lines that came in
/// while scroll mode was on, `rejected` counts the lines that could not be
/// decoded.
#[derive(Debug)]
pub struct Viewer {
    pub buffer: LogBuffer,
    pub held: Vec<String>,
    pub expanded_uids: UidSet,
    pub expanded_groups: KeySet,
    pub pinned_groups: KeySet,
    pub selection: Selection,
    pub selected_uid: Option<String>,
    pub scroll_mode: bool,
    pub scroll: ScrollTable,
    pub filter_text: String,
    pub filter_focused: bool,
    pub help_visible: bool,
    pub list_height: usize,
    pub content_height: usize,
    pub rejected: usize,
}

/// What the viewer keeps, as plain values.
pub ghost struct ViewerState {
    pub records: Seq<LogRecord>,
    pub held: Seq<Seq<char>>,
    pub expanded_uids: Set<Seq<char>>,
    pub expanded_groups: Set<GroupKey>,
    pub pins: Set<GroupKey>,
    pub position: int,
    pub scroll_offset: int,
    pub selected_uid: Option<Seq<char>>,
    pub scroll_mode: bool,
    pub scroll: Map<Seq<char>, Scroll>,
    pub filter: Seq<char>,
    pub filter_focused: bool,
    pub help_visible: bool,
    pub list_height: int,
    pub content_height: int,
    pub rejected: int,
}

impl View for Viewer {
    type V = ViewerState;

    open spec fn view(&self) -> ViewerState {
        ViewerState {
            records: self.buffer@,
            held: texts(self.held@),
            expanded_uids: self.expanded_uids@,
            expanded_groups: self.expanded_groups@,
            pins: self.pinned_groups@,
            position: self.selection.position as int,
            scroll_offset: self.selection.scroll_offset as int,
            selected_uid: crate::record::text_of(self.selected_uid),
            scroll_mode: self.scroll_mode,
            scroll: self.scroll@,
            filter: self.filter_text@,
            filter_focused: self.filter_focused,
            help_visible: self.help_visible,
            list_height: self.list_height as int,
            content_height: self.content_height as int,
            rejected: self.rejected as int,
        }
    }
}

/// `set` with `x` put in if it was not there, and taken out if it was.
pub open spec fn toggled<A>(set: Set<A>, x: A) -> Set<A> {
    if set.contains(x) {
        set.remove(x)
    } else {
        set.insert(x)
    }
}

/// The first row at or behind `from` that is the header of group `key`; the
/// number of rows if there is none.
pub open spec fn header_row(rows: Seq<Row>, key: GroupKey, from: int) -> int
    decreases rows.len() - from,
{
    if from < 0 || from >= rows.len() {
        rows.len() as int
    } else if rows[from] == Row::Header(key) {
        from
    } else {
        header_row(rows, key, from + 1)
    }
}

/// The number of lines that a statement takes up, as far as a `usize` holds
/// it.
pub open spec fn line_total(statement: Seq<char>) -> int {
    let n = total_lines(with_pretty(sub_statements(statement)));
    if n <= usize::MAX {
        n as int
    } else {
        usize::MAX as int
    }
}

/// The scroll position after a motion in a window of `height` lines over
/// `total` lines.
pub open spec fn moved(s: Scroll, motion: Motion, height: int, total: int) -> Scroll {
    match motion {
        Motion::LineDown => s.stepped_down(1, total, height).settled(total, height),
        Motion::LineUp => s.stepped_up(1).settled(total, height),
        Motion::PageDown => s.stepped_down(height / 2, total, height).settled(total, height),
        Motion::PageUp => s.stepped_up(height / 2).settled(total, height),
    }
}

impl ViewerState {
    /// The list of rows as the state gives it.
    pub open spec fn rows(self) -> Seq<Row> {
        flattened(grouping(self.records, self.pins), self.expanded_groups, self.filter)
    }

    /// The selected row, if the selection stands on one.
    pub open spec fn selected_row(self) -> Option<Row> {
        if 0 <= self.position < self.rows().len() {
            Some(self.rows()[self.position])
        } else {
            None
        }
    }

    /// The selected record, if the selection stands on one that has a uid.
    pub open spec fn focused(self) -> Option<LogRecord> {
        match self.selected_row() {
            Some(Row::Member(r)) => if r.uid is Some {
                Some(r)
            } else {
                None
            },
            _ => None,
        }
    }

    /// Half of what the list shows.
    pub open spec fn page_step(self) -> int {
        self.list_height / 2
    }

    /// The selection one row up.
    pub open spec fn moved_up(self) -> Self {
        ViewerState {
            position: if self.position > 0 {
                self.position - 1
            } else {
                0
            },
            ..self
        }
    }

    /// The selection one row down, no further than the last row.
    pub open spec fn moved_down(self) -> Self {
        ViewerState {
            position: if self.position + 1 < self.rows().len() {
                self.position + 1
            } else {
                self.position
            },
            ..self
        }
    }

    /// The selection half a page up.
    pub open spec fn paged_up(self) -> Self {
        ViewerState {
            position: if self.position > self.page_step() {
                self.position - self.page_step()
            } else {
                0
            },
            ..self
        }
    }

    /// The selection half a page down, no further than the last row.
    pub open spec fn paged_down(self) -> Self {
        ViewerState {
            position: if self.rows().len() == 0 {
                self.position
            } else if self.position + self.page_step() < self.rows().len() {
                self.position + self.page_step()
            } else {
                self.rows().len() - 1
            },
            ..self
        }
    }

    /// The selected group or record expanded if it was collapsed, and
    /// collapsed if it was expanded.
    pub open spec fn expansion_toggled(self) -> Self {
        match self.selected_row() {
            Some(Row::Header(key)) => ViewerState {
                expanded_groups: toggled(self.expanded_groups, key),
                ..self
            },
            Some(Row::Member(r)) => match r.uid {
                Some(uid) => ViewerState { expanded_uids: toggled(self.expanded_uids, uid), ..self },
                None => self,
            },
            None => self,
        }
    }

    /// Scroll mode entered on the selected record, from the top of its
    /// content, if that record is expanded.
    pub open spec fn scroll_entered(self) -> Self {
        match self.focused() {
            Some(r) => if self.expanded_uids.contains(r.uid->0) {
                ViewerState {
                    scroll_mode: true,
                    scroll: self.scroll.insert(r.uid->0, Scroll { offset: 0, cursor: 0 }),
                    ..self
                }
            } else {
                self
            },
            None => self,
        }
    }

    /// The selected group pinned if it was not, and not pinned if it was; the
    /// selection follows its header to where it then stands.
    pub open spec fn pin_toggled(self) -> Self {
        match self.selected_row() {
            Some(Row::Header(key)) => {
                let pinned = ViewerState { pins: toggled(self.pins, key), ..self };
                let at = header_row(pinned.rows(), key, 0);
                ViewerState {
                    position: if at < pinned.rows().len() {
                        at
                    } else {
                        self.position
                    },
                    ..pinned
                }
            },
            _ => self,
        }
    }

    /// Everything received forgotten, and what was said of it; pins and
    /// filter stay.
    pub open spec fn cleared(self) -> Self {
        ViewerState {
            records: Seq::empty(),
            expanded_uids: Set::empty(),
            expanded_groups: Set::empty(),
            scroll: all_at_top(),
            selected_uid: None,
            position: 0,
            scroll_offset: 0,
            ..self
        }
    }

    /// The content of the selected record moved through.
    pub open spec fn scrolled(self, motion: Motion) -> Self {
        match self.focused() {
            Some(r) => ViewerState {
                scroll: self.scroll.insert(
                    r.uid->0,
                    moved(
                        self.scroll[r.uid->0],
                        motion,
                        self.content_height,
                        line_total(r.statement),
                    ),
                ),
                ..self
            },
            None => self,
        }
    }

    /// Scroll mode left, the selected record collapsed.
    pub open spec fn scroll_escaped(self) -> Self {
        match self.focused() {
            Some(r) => ViewerState {
                expanded_uids: self.expanded_uids.remove(r.uid->0),
                scroll_mode: false,
                ..self
            },
            None => ViewerState { scroll_mode: false, ..self },
        }
    }

    /// What copying gives: the sub-statement under the cursor of the
    /// selected record.
    pub open spec fn copied(self) -> ActionView {
        match self.focused() {
            Some(r) => ActionView::Copy(
                statement_at_offset(r.statement, self.scroll[r.uid->0].cursor),
            ),
            None => ActionView::Nothing,
        }
    }

    /// The uid of the selected record remembered; none where the selection
    /// stands on a header or on no row, so that it is then kept by its
    /// position.
    pub open spec fn remembered(self) -> Self {
        ViewerState {
            selected_uid: match self.selected_row() {
                Some(Row::Member(r)) => r.uid,
                _ => None,
            },
            ..self
        }
    }

    /// The selection put back on the remembered record, the window moved by
    /// as little as shows it; where no row shows that record, or none was
    /// remembered, the position brought into the rows that exist.
    pub open spec fn restored(self, position: int, scroll_offset: int) -> bool {
        let viewport = self.list_height;
        match self.selected_uid {
            Some(uid) => if has_no_uid(self.rows(), uid) {
                position == clamped_position(self.position, self.rows().len() as int)
                    && scroll_offset == self.scroll_offset
            } else {
                is_first_with_uid(self.rows(), uid, position) && scroll_offset == offset_showing(
                    self.scroll_offset,
                    position,
                    viewport,
                )
            },
            None => position == clamped_position(self.position, self.rows().len() as int)
                && scroll_offset == self.scroll_offset,
        }
    }

    /// The state after a key was pressed while the help was shown.
    pub open spec fn after_help_key(self, key: Key) -> Self {
        match key {
            Key::Esc => ViewerState { help_visible: false, ..self },
            _ => self,
        }
    }

    /// The state after a key was pressed in scroll mode.
    pub open spec fn after_scroll_key(self, key: Key) -> Self {
        match key {
            Key::Char('h', _) => ViewerState { scroll_mode: false, ..self },
            Key::Esc => self.scroll_escaped(),
            Key::Char('j', _) | Key::Down => self.scrolled(Motion::LineDown),
            Key::Char('k', _) | Key::Up => self.scrolled(Motion::LineUp),
            Key::Char('d', true) => self.scrolled(Motion::PageDown),
            Key::Char('u', true) => self.scrolled(Motion::PageUp),
            _ => self,
        }
    }

    /// The state after a key was pressed while the filter was edited.
    pub open spec fn after_filter_key(self, key: Key) -> Self {
        match key {
            Key::Esc | Key::Enter => ViewerState { filter_focused: false, ..self },
            Key::Char(c, _) => ViewerState { filter: self.filter.push(c), ..self },
            Key::Backspace => ViewerState {
                filter: if self.filter.len() > 0 {
                    self.filter.drop_last()
                } else {
                    self.filter
                },
                ..self
            },
            _ => self,
        }
    }

    /// The state after a key was pressed in the list.
    pub open spec fn after_list_key(self, key: Key) -> Self {
        match key {
            Key::Char('f', _) => ViewerState { filter_focused: true, ..self },
            Key::Up | Key::Char('k', _) => self.moved_up(),
            Key::Down | Key::Char('j', _) => self.moved_down(),
            Key::Char('d', true) => self.paged_down(),
            Key::Char('u', true) => self.paged_up(),
            Key::Enter => self.expansion_toggled(),
            Key::Char('l', _) => self.scroll_entered(),
            Key::Char('h', _) => ViewerState { help_visible: true, ..self },
            Key::Char('t', _) => self.pin_toggled(),
            Key::Char('c', _) => self.cleared(),
            _ => self,
        }
    }

    /// The state after a key was pressed: `q` ends the viewer from
    /// everywhere; any other key goes to the help while it is shown, else to
    /// scroll mode while it is on, else to the filter while it is edited,
    /// else to the list.
    pub open spec fn after_key(self, key: Key) -> Self {
        if key matches Key::Char('q', _) {
            self
        } else if self.help_visible {
            self.after_help_key(key)
        } else if self.scroll_mode {
            self.after_scroll_key(key)
        } else if self.filter_focused {
            self.after_filter_key(key)
        } else {
            self.after_list_key(key)
        }
    }

    /// What is left to do outside after a key was pressed.
    pub open spec fn action_of(self, key: Key) -> ActionView {
        if key matches Key::Char('q', _) {
            ActionView::Quit
        } else if !self.help_visible && self.scroll_mode && key matches Key::Char('y', _) {
            self.copied()
        } else {
            ActionView::Nothing
        }
    }
}

/// The rows that a list area of the given height shows: the area without
/// its frame.
pub open spec fn rows_shown(list_area_height: int) -> int {
    if list_area_height > 2 {
        list_area_height - 2
    } else {
        0
    }
}

/// The lines that are shown of an expanded record in a list area of the
/// given height: the area less nine lines, which are kept for the frame and
/// for the rows around the record, and ten lines at least.
pub open spec fn content_lines_shown(list_area_height: int) -> int {
    if list_area_height - 9 > 10 {
        list_area_height - 9
    } else {
        10
    }
}

/// The rows that a list area of the given height shows, and the lines that
/// are shown of an expanded record.
pub fn viewport_heights(list_area_height: usize) -> (r: (usize, usize))
    ensures
        r.0 == rows_shown(list_area_height as int),
        r.1 == content_lines_shown(list_area_height as int),
{
    let rows: usize = if list_area_height > 2 {
        list_area_height - 2
    } else {
        0
    };
    let content: usize = if list_area_height > 19 {
        list_area_height - 9
    } else {
        10
    };
    (rows, content)
}

/// The first row that is the header of group `key`; the number of rows if
/// there is none.
pub fn find_header(rows: &Vec<FlatNavigationItem>, key: &RequestGroup) -> (at: usize)
    ensures
        at == header_row(rows_of(rows@), key@, 0),
        at <= rows@.len(),
{
    let ghost all = rows_of(rows@);
    let mut at: usize = 0;
    while at < rows.len()
        invariant
            at <= rows.len(),
            all == rows_of(rows@),
            header_row(all, key@, 0) == header_row(all, key@, at as int),
        decreases rows.len() - at,
    {
        assert(all[at as int] == rows@[at as int]@);
        let hit = match &rows[at] {
            FlatNavigationItem::GroupHeader(k) => k.same_as(key),
            FlatNavigationItem::Message(_) => false,
        };
        if hit {
            return at;
        }
        at += 1;
    }
    at
}

/// The selected row, taken out of the list.
#[derive(Debug)]
pub enum Picked {
    Nothing,
    Header(RequestGroup),
    Member(SqlLogMessage),
}

impl View for Picked {
    type V = Option<Row>;

    open spec fn view(&self) -> Option<Row> {
        match self {
            Picked::Nothing => None,
            Picked::Header(key) => Some(Row::Header(key@)),
            Picked::Member(msg) => Some(Row::Member(msg@)),
        }
    }
}

impl Viewer {
    /// A viewer that has received nothing, with the selection on the first
    /// row.
    pub fn new(list_height: usize, content_height: usize) -> (v: Self)
        ensures
            v@ == (ViewerState {
                records: Seq::empty(),
                held: Seq::empty(),
                expanded_uids: Set::empty(),
                expanded_groups: Set::empty(),
                pins: Set::empty(),
                position: 0,
                scroll_offset: 0,
                selected_uid: None,
                scroll_mode: false,
                scroll: all_at_top(),
                filter: Seq::empty(),
                filter_focused: false,
                help_visible: false,
                list_height: list_height as int,
                content_height: content_height as int,
                rejected: 0,
            }),
    {
        let v = Viewer {
            buffer: LogBuffer::new(),
            held: Vec::new(),
            expanded_uids: UidSet::new(),
            expanded_groups: KeySet::new(),
            pinned_groups: KeySet::new(),
            selection: Selection { position: 0, scroll_offset: 0 },
            selected_uid: None,
            scroll_mode: false,
            scroll: ScrollTable::new(),
            filter_text: String::new(),
            filter_focused: false,
            help_visible: false,
            list_height,
            content_height,
            rejected: 0,
        };
        assert(texts(v.held@) =~= Seq::<Seq<char>>::empty());
        v
    }

    /// Takes note of how much room there is to show rows and content.
    pub fn resize(&mut self, list_height: usize, content_height: usize)
        ensures
            final(self)@ == (ViewerState {
                list_height: list_height as int,
                content_height: content_height as int,
                ..old(self)@
            }),
    {
        self.list_height = list_height;
        self.content_height = content_height;
    }

    /// The selected row.
    pub fn picked(&self) -> (p: Picked)
        ensures
            p@ == self@.selected_row(),
    {
        let grouped = GroupedLogMessages::from_messages(self.buffer.records(), &self.pinned_groups);
        let rows = create_flat_navigation_structure(
            &grouped,
            &self.expanded_groups,
            self.filter_text.as_str(),
        );
        if self.selection.position < rows.len() {
            assert(rows_of(rows@)[self.selection.position as int] == rows@[self.selection.position as int]@);
            match &rows[self.selection.position] {
                FlatNavigationItem::GroupHeader(key) => Picked::Header(key.clone()),
                FlatNavigationItem::Message(msg) => Picked::Member((*msg).clone()),
            }
        } else {
            Picked::Nothing
        }
    }

    /// How many rows the list has.
    pub fn row_count(&self) -> (n: usize)
        ensures
            n == self@.rows().len(),
    {
        let grouped = GroupedLogMessages::from_messages(self.buffer.records(), &self.pinned_groups);
        create_flat_navigation_structure(
            &grouped,
            &self.expanded_groups,
            self.filter_text.as_str(),
        ).len()
    }

    /// Puts the selection on row `position`.
    fn select(&mut self, position: usize)
        ensures
            final(self)@ == (ViewerState { position: position as int, ..old(self)@ }),
    {
        self.selection = Selection { position, scroll_offset: self.selection.scroll_offset };
    }

    /// Moves the selection one row up.
    pub fn move_up(&mut self)
        ensures
            final(self)@ == old(self)@.moved_up(),
    {
        if self.selection.position > 0 {
            self.select(self.selection.position - 1);
        } else {
            self.select(0);
        }
    }

    /// Moves the selection one row down.
    pub fn move_down(&mut self)
        ensures
            final(self)@ == old(self)@.moved_down(),
    {
        let total = self.row_count();
        if self.selection.position < total && self.selection.position + 1 < total {
            self.select(self.selection.position + 1);
        } else {
            self.select(self.selection.position);
        }
    }

    /// Moves the selection half a page up.
    pub fn page_up(&mut self)
        ensures
            final(self)@ == old(self)@.paged_up(),
    {
        let step = self.list_height / 2;
        if self.selection.position > step {
            self.select(self.selection.position - step);
        } else {
            self.select(0);
        }
    }

    /// Moves the selection half a page down.
    pub fn page_down(&mut self)
        ensures
            final(self)@ == old(self)@.paged_down(),
    {
        let step = self.list_height / 2;
        let total = self.row_count();
        if total == 0 {
            self.select(self.selection.position);
        } else if self.selection.position < total && step < total - self.selection.position {
            self.select(self.selection.position + step);
        } else {
            self.select(total - 1);
        }
    }

    /// Expands or collapses what is selected.
    pub fn toggle_expansion(&mut self)
        ensures
            final(self)@ == old(self)@.expansion_toggled(),
    {
        match self.picked() {
            Picked::Header(key) => {
                self.expanded_groups.toggle(key);
            },
            Picked::Member(msg) => {
                match msg.uid {
                    Some(uid) => {
                        self.expanded_uids.toggle(uid);
                    },
                    None => {},
                }
            },
            Picked::Nothing => {},
        }
    }

    /// Enters scroll mode on the selected record, if it is expanded.
    pub fn enter_scroll_mode(&mut self)
        ensures
            final(self)@ == old(self)@.scroll_entered(),
    {
        match self.picked() {
            Picked::Member(msg) => {
                match msg.uid {
                    Some(uid) => {
                        if self.expanded_uids.contains(&uid) {
                            self.scroll_mode = true;
                            self.scroll.set(uid, ScrollState { offset: 0, cursor: 0 });
                        }
                    },
                    None => {},
                }
            },
            _ => {},
        }
    }

    /// Pins or unpins the selected group and follows its header.
    pub fn toggle_pin(&mut self)
        ensures
            final(self)@ == old(self)@.pin_toggled(),
    {
        match self.picked() {
            Picked::Header(key) => {
                self.pinned_groups.toggle(key.clone());
                let ghost pinned = self@;
                let grouped = GroupedLogMessages::from_messages(
                    self.buffer.records(),
                    &self.pinned_groups,
                );
                let rows = create_flat_navigation_structure(
                    &grouped,
                    &self.expanded_groups,
                    self.filter_text.as_str(),
                );
                let at = find_header(&rows, &key);
                if at < rows.len() {
                    self.select(at);
                }
            },
            _ => {},
        }
    }

    /// Forgets everything received.
    pub fn clear(&mut self)
        ensures
            final(self)@ == old(self)@.cleared(),
    {
        self.buffer.clear();
        self.expanded_uids.clear();
        self.expanded_groups.clear();
        self.scroll.clear();
        self.selected_uid = None;
        self.selection = Selection { position: 0, scroll_offset: 0 };
    }

    /// Moves through the content of the selected record.
    pub fn scroll_by(&mut self, motion: Motion)
        ensures
            final(self)@ == old(self)@.scrolled(motion),
    {
        match self.picked() {
            Picked::Member(msg) => {
                match msg.uid {
                    Some(uid) => {
                        let total = count_statement_lines(msg.statement.as_str());
                        let mut state = self.scroll.get(&uid);
                        match motion {
                            Motion::LineDown => state.cursor_down(self.content_height, total),
                            Motion::LineUp => state.cursor_up(self.content_height, total),
                            Motion::PageDown => state.page_down(self.content_height, total),
                            Motion::PageUp => state.page_up(self.content_height, total),
                        }
                        self.scroll.set(uid, state);
                    },
                    None => {},
                }
            },
            _ => {},
        }
    }

    /// Leaves scroll mode and collapses the selected record.
    pub fn escape_scroll_mode(&mut self)
        ensures
            final(self)@ == old(self)@.scroll_escaped(),
    {
        match self.picked() {
            Picked::Member(msg) => {
                match msg.uid {
                    Some(uid) => {
                        self.expanded_uids.remove(&uid);
                    },
                    None => {},
                }
            },
            _ => {},
        }
        self.scroll_mode = false;
    }

    /// The text to copy: the sub-statement under the cursor of the selected
    /// record.
    pub fn copy_text(&self) -> (a: Action)
        ensures
            a@ == self@.copied(),
    {
        match self.picked() {
            Picked::Member(msg) => {
                match msg.uid {
                    Some(uid) => {
                        let state = self.scroll.get(&uid);
                        Action::Copy(
                            extract_batch_statement_at_cursor(msg.statement.as_str(), state.cursor),
                        )
                    },
                    None => Action::Nothing,
                }
            },
            _ => Action::Nothing,
        }
    }

    /// Remembers the uid of the selected record, before records come in; on
    /// a header, or on no row, it remembers none.
    pub fn remember_selection(&mut self)
        ensures
            final(self)@ == old(self)@.remembered(),
    {
        match self.picked() {
            Picked::Member(msg) => {
                self.selected_uid = msg.uid;
            },
            _ => {
                self.selected_uid = None;
            },
        }
    }

    /// Puts the selection back on the remembered record, after records came
    /// in.
    pub fn reselect(&mut self)
        ensures
            old(self)@.restored(final(self)@.position, final(self)@.scroll_offset),
            final(self)@ == (ViewerState {
                position: final(self)@.position,
                scroll_offset: final(self)@.scroll_offset,
                ..old(self)@
            }),
    {
        let grouped = GroupedLogMessages::from_messages(self.buffer.records(), &self.pinned_groups);
        let rows = create_flat_navigation_structure(
            &grouped,
            &self.expanded_groups,
            self.filter_text.as_str(),
        );
        self.selection = restore_selection(
            &rows,
            &self.selected_uid,
            self.selection,
            self.list_height,
        );
    }

    /// Takes a line that came in. In scroll mode the line is held back and
    /// nothing is handed out; otherwise the line is handed back to be decoded
    /// and put into the buffer.
    pub fn receive(&mut self, line: String) -> (r: Option<String>)
        ensures
            old(self)@.scroll_mode ==> r is None && final(self)@ == (ViewerState {
                held: old(self)@.held.push(line@),
                ..old(self)@
            }),
            !old(self)@.scroll_mode ==> r == Some(line) && final(self)@ == old(self)@,
    {
        if self.scroll_mode {
            let ghost before = self.held@;
            self.held.push(line);
            assert(texts(self.held@) =~= texts(before).push(line@));
            None
        } else {
            Some(line)
        }
    }

    /// Hands out the lines that were held back, in the order in which they
    /// came, once scroll mode is off; while it is on, none.
    pub fn release_held(&mut self) -> (lines: Vec<String>)
        ensures
            old(self)@.scroll_mode ==> lines@.len() == 0 && final(self)@ == old(self)@,
            !old(self)@.scroll_mode ==> texts(lines@) == old(self)@.held && final(self)@ == (
            ViewerState { held: Seq::empty(), ..old(self)@ }),
    {
        if self.scroll_mode {
            Vec::new()
        } else {
            let mut lines: Vec<String> = Vec::new();
            std::mem::swap(&mut lines, &mut self.held);
            assert(texts(self.held@) =~= Seq::<Seq<char>>::empty());
            lines
        }
    }

    /// Puts a decoded record into the buffer.
    pub fn ingest(&mut self, record: SqlLogMessage)
        ensures
            final(self)@ == (ViewerState {
                records: appended(old(self)@.records, stamped(record@, old(self)@.records.len())),
                ..old(self)@
            }),
    {
        self.buffer.append(record);
    }

    /// Takes note of a line that could not be decoded: it is counted and
    /// nothing else changes.
    pub fn reject_line(&mut self)
        ensures
            final(self)@ == (ViewerState {
                rejected: if old(self)@.rejected < usize::MAX {
                    old(self)@.rejected + 1
                } else {
                    old(self)@.rejected
                },
                ..old(self)@
            }),
    {
        if self.rejected < usize::MAX {
            self.rejected = self.rejected + 1;
        }
    }

    /// Puts the selection back on the remembered record once records have
    /// come in; in scroll mode, and where none came in, nothing changes.
    pub fn after_ingest(&mut self, received: bool)
        ensures
            received && !old(self)@.scroll_mode ==> old(self)@.restored(
                final(self)@.position,
                final(self)@.scroll_offset,
            ),
            !(received && !old(self)@.scroll_mode) ==> final(self)@ == old(self)@,
            final(self)@ == (ViewerState {
                position: final(self)@.position,
                scroll_offset: final(self)@.scroll_offset,
                ..old(self)@
            }),
    {
        if received && !self.scroll_mode {
            self.reselect();
        }
    }

    /// Handles a key in scroll mode.
    fn handle_scroll_key(&mut self, key: Key)
        ensures
            final(self)@ == old(self)@.after_scroll_key(key),
    {
        match key {
            Key::Char('h', _) => {
                self.scroll_mode = false;
            },
            Key::Esc => self.escape_scroll_mode(),
            Key::Char('j', _) | Key::Down => self.scroll_by(Motion::LineDown),
            Key::Char('k', _) | Key::Up => self.scroll_by(Motion::LineUp),
            Key::Char('d', true) => self.scroll_by(Motion::PageDown),
            Key::Char('u', true) => self.scroll_by(Motion::PageUp),
            _ => {},
        }
    }

    /// Handles a key while the filter is edited.
    fn handle_filter_key(&mut self, key: Key)
        ensures
            final(self)@ == old(self)@.after_filter_key(key),
    {
        match key {
            Key::Esc | Key::Enter => {
                self.filter_focused = false;
            },
            Key::Char(c, _) => {
                crate::text::push_char(&mut self.filter_text, c);
            },
            Key::Backspace => {
                let chars = crate::text::chars_of(self.filter_text.as_str());
                if chars.len() > 0 {
                    let kept = crate::text::slice_of(&chars, 0, chars.len() - 1);
                    self.filter_text = crate::text::string_of(&kept);
                    assert(self.filter_text@ =~= old(self).filter_text@.drop_last());
                }
            },
            _ => {},
        }
    }

    /// Handles a key in the list.
    fn handle_list_key(&mut self, key: Key)
        ensures
            final(self)@ == old(self)@.after_list_key(key),
    {
        match key {
            Key::Char('f', _) => {
                self.filter_focused = true;
            },
            Key::Up | Key::Char('k', _) => self.move_up(),
            Key::Down | Key::Char('j', _) => self.move_down(),
            Key::Char('d', true) => self.page_down(),
            Key::Char('u', true) => self.page_up(),
            Key::Enter => self.toggle_expansion(),
            Key::Char('l', _) => self.enter_scroll_mode(),
            Key::Char('h', _) => {
                self.help_visible = true;
            },
            Key::Char('t', _) => self.toggle_pin(),
            Key::Char('c', _) => self.clear(),
            _ => {},
        }
    }

    /// Handles a key press: changes the state as the mode and the key ask,
    /// and says what is left to do outside.
    pub fn handle_key(&mut self, key: Key) -> (action: Action)
        ensures
            final(self)@ == old(self)@.after_key(key),
            action@ == old(self)@.action_of(key),
    {
        match key {
            Key::Char('q', _) => {
                return Action::Quit;
            },
            _ => {},
        }
        if self.help_visible {
            match key {
                Key::Esc => {
                    self.help_visible = false;
                },
                _ => {},
            }
            Action::Nothing
        } else if self.scroll_mode {
            match key {
                Key::Char('y', _) => self.copy_text(),
                _ => {
                    self.handle_scroll_key(key);
                    Action::Nothing
                },
            }
        } else if self.filter_focused {
            self.handle_filter_key(key);
            Action::Nothing
        } else {
            self.handle_list_key(key);
            Action::Nothing
        }
    }
}

} // verus!

//! What is shown of one expanded record.

use crate::format::ContentLine;
use crate::scroll::{visible_range, window, ScrollState};
use vstd::prelude::*;

verus! {

/// One line of what is shown of an expanded record below its title.
#[derive(Debug, Clone, Copy, PartialEq, Eq, Structural)]
pub enum ItemLine {
    /// The record has no content line.
    NoContent,
    /// No content line fits into the window.
    NotVisible,
    /// Scroll mode is on this record: the first line shown, counted from 1,
    /// and the number of lines.
    ScrollPosition { first: usize, total: usize },
    /// The content is longer than the window: the number of lines.
    TooLong { total: usize },
    /// A content line, and whether the cursor is on it.
    Content { line: ContentLine, cursor: bool },
    /// Below the window there are more lines: their number.
    MoreBelow { remaining: usize },
}

/// The notice above the content, where the content is longer than the
/// window.
pub open spec fn notice_above(total: int, height: int, start: int, focused: bool) -> Seq<ItemLine> {
    if total <= height {
        Seq::empty()
    } else if focused {
        seq![ItemLine::ScrollPosition { first: (start + 1) as usize, total: total as usize }]
    } else {
        seq![ItemLine::TooLong { total: total as usize }]
    }
}

/// The notice below the content, where lines are left below the window.
pub open spec fn notice_below(total: int, height: int, end: int) -> Seq<ItemLine> {
    if total > height && end < total {
        seq![ItemLine::MoreBelow { remaining: (total - end) as usize }]
    } else {
        Seq::empty()
    }
}

/// The content lines `[start, end)`, the cursor marked where scroll mode is
/// on the record.
pub open spec fn shown_content(
    layout: Seq<ContentLine>,
    start: int,
    end: int,
    cursor: int,
    focused: bool,
) -> Seq<ItemLine> {
    Seq::new(
        (end - start) as nat,
        |k: int| ItemLine::Content { line: layout[start + k], cursor: focused && start + k == cursor },
    )
}

/// What is shown of an expanded record below its title: a notice where it
/// has no content or none fits; else the content lines in the window, with a
/// notice above where the content is longer than the window, and one below
/// where lines are left below it.
pub open spec fn item_lines(
    layout: Seq<ContentLine>,
    offset: int,
    cursor: int,
    height: int,
    focused: bool,
) -> Seq<ItemLine> {
    let total = layout.len() as int;
    let (start, end) = window(offset, total, height);
    if total == 0 {
        seq![ItemLine::NoContent]
    } else if start >= end {
        seq![ItemLine::NotVisible]
    } else {
        notice_above(total, height, start, focused) + shown_content(
            layout,
            start,
            end,
            cursor,
            focused,
        ) + notice_below(total, height, end)
    }
}

/// Decides what is shown of an expanded record below its title, for the
/// content lines of the record, its scroll position, a window of `height`
/// lines, and whether scroll mode is on this record.
pub fn plan_item(layout: &Vec<ContentLine>, state: ScrollState, height: usize, focused: bool) -> (lines:
    Vec<ItemLine>)
    ensures
        lines@ == item_lines(
            layout@,
            state.offset as int,
            state.cursor as int,
            height as int,
            focused,
        ),
{
    let total = layout.len();
    let mut lines: Vec<ItemLine> = Vec::new();
    if total == 0 {
        lines.push(ItemLine::NoContent);
        assert(lines@ =~= seq![ItemLine::NoContent]);
        return lines;
    }
    let (start, end) = visible_range(state.offset, total, height);
    if start >= end {
        lines.push(ItemLine::NotVisible);
        assert(lines@ =~= seq![ItemLine::NotVisible]);
        return lines;
    }
    if total > height {
        if focused {
            lines.push(ItemLine::ScrollPosition { first: start + 1, total });
        } else {
            lines.push(ItemLine::TooLong { total });
        }
    }
    let ghost above = notice_above(total as int, height as int, start as int, focused);
    assert(lines@ =~= above);
    let mut at: usize = start;
    while at < end
        invariant
            start <= at <= end <= layout@.len(),
            lines@ == above + shown_content(
                layout@,
                start as int,
                at as int,
                state.cursor as int,
                focused,
            ),
        decreases end - at,
    {
        lines.push(ItemLine::Content { line: layout[at], cursor: focused && at == state.cursor });
        assert(lines@ =~= above + shown_content(
            layout@,
            start as int,
            at + 1,
            state.cursor as int,
            focused,
        ));
        at += 1;
    }
    let ghost body = lines@;
    if total > height && end < total {
        lines.push(ItemLine::MoreBelow { remaining: total - end });
    }
    assert(lines@ =~= body + notice_below(total as int, height as int, end as int));
    lines
}

} // verus!

//! The scroll position inside the content of one record.

use vstd::prelude::*;

verus! {

/// Where the view into one record's content stands: the first line shown and
/// the line in focus.
#[derive(Debug, Clone, Copy, PartialEq, Eq, Structural)]
pub struct ScrollState {
    pub offset: usize,
    pub cursor: usize,
}

/// A scroll position over the integers.
pub ghost struct Scroll {
    pub offset: int,
    pub cursor: int,
}

impl View for ScrollState {
    type V = Scroll;

    open spec fn view(&self) -> Scroll {
        Scroll { offset: self.offset as int, cursor: self.cursor as int }
    }
}

/// The largest offset that still fills a window of `height` lines from
/// `total` lines.
pub open spec fn max_offset(total: int, height: int) -> int {
    if total > height {
        total - height
    } else {
        0
    }
}

/// `offset` brought into `[0, max_offset(total, height)]`.
pub open spec fn clamped_offset(offset: int, total: int, height: int) -> int {
    if offset < 0 {
        0
    } else if offset > max_offset(total, height) {
        max_offset(total, height)
    } else {
        offset
    }
}

/// The index of the last content line, 0 where there is no line.
pub open spec fn last_line(total: int) -> int {
    if total > 0 {
        total - 1
    } else {
        0
    }
}

impl Scroll {
    /// The cursor is on a line that exists and inside the window, and the
    /// window does not reach past the end of the content.
    pub open spec fn in_view(self, total: int, height: int) -> bool {
        &&& 0 <= self.offset <= self.cursor < self.offset + height
        &&& self.cursor < total
        &&& self.offset <= max_offset(total, height)
    }

    /// The position brought back into view: the cursor onto a line that
    /// exists, the window moved by as little as shows the cursor, the offset
    /// clamped.
    pub open spec fn settled(self, total: int, height: int) -> Scroll {
        let cursor = if self.cursor > last_line(total) {
            last_line(total)
        } else if self.cursor < 0 {
            0
        } else {
            self.cursor
        };
        let offset = if cursor < self.offset {
            cursor
        } else if height > 0 && cursor - self.offset >= height {
            cursor - height + 1
        } else {
            self.offset
        };
        Scroll { offset: clamped_offset(offset, total, height), cursor }
    }

    /// The cursor moved down by `step` lines, no further than the last line;
    /// the window follows by `step` where the cursor leaves it.
    pub open spec fn stepped_down(self, step: int, total: int, height: int) -> Scroll {
        let cursor = if self.cursor + step < last_line(total) {
            self.cursor + step
        } else {
            last_line(total)
        };
        let offset = if cursor >= self.offset + height {
            self.offset + step
        } else {
            self.offset
        };
        Scroll { offset, cursor }
    }

    /// The cursor moved up by `step` lines, no further than the first line;
    /// the window follows by `step` where the cursor leaves it.
    pub open spec fn stepped_up(self, step: int) -> Scroll {
        let cursor = if self.cursor > step {
            self.cursor - step
        } else {
            0
        };
        let offset = if cursor < self.offset {
            if self.offset > step {
                self.offset - step
            } else {
                0
            }
        } else {
            self.offset
        };
        Scroll { offset, cursor }
    }
}

/// A position that is settled is in view, whenever there is a line to show
/// and a window to show it in.
pub proof fn lemma_settled_in_view(s: Scroll, total: int, height: int)
    requires
        total > 0,
        height > 0,
    ensures
        s.settled(total, height).in_view(total, height),
{
}

/// Settling leaves a position that is in view as it is.
pub proof fn lemma_settled_fixes_in_view(s: Scroll, total: int, height: int)
    requires
        s.in_view(total, height),
    ensures
        s.settled(total, height) == s,
{
}

/// Clamping an offset twice is clamping it once, and an offset inside the
/// range is left as it is.
pub proof fn lemma_clamp_idempotent(offset: int, total: int, height: int)
    ensures
        clamped_offset(clamped_offset(offset, total, height), total, height) == clamped_offset(
            offset,
            total,
            height,
        ),
        0 <= offset <= max_offset(total, height) ==> clamped_offset(offset, total, height)
            == offset,
        0 <= clamped_offset(offset, total, height) <= max_offset(total, height),
        total <= height ==> clamped_offset(offset, total, height) == 0,
{
}

/// From a position in view, one line down or up is the plain step with the
/// offset clamped: settling finds nothing else to mend.
pub proof fn lemma_line_step_from_view(s: Scroll, total: int, height: int)
    requires
        s.in_view(total, height),
    ensures
        s.stepped_down(1, total, height).settled(total, height) == s.stepped_down(1, total, height),
        s.stepped_up(1).settled(total, height) == s.stepped_up(1),
{
}

/// From a position in view, half a page down or up is the plain step with
/// the offset clamped: settling only clamps the offset.
pub proof fn lemma_page_step_from_view(s: Scroll, total: int, height: int)
    requires
        s.in_view(total, height),
    ensures
        ({
            let t = s.stepped_down(height / 2, total, height);
            t.settled(total, height) == Scroll {
                offset: clamped_offset(t.offset, total, height),
                cursor: t.cursor,
            }
        }),
        s.stepped_up(height / 2).settled(total, height) == s.stepped_up(height / 2),
{
}

/// `offset` brought into the range that `total` lines and a window of
/// `height` lines allow: 0 where everything fits.
pub fn clamp_offset(offset: usize, total: usize, height: usize) -> (r: usize)
    ensures
        r == clamped_offset(offset as int, total as int, height as int),
        r <= offset,
{
    if total <= height {
        0
    } else if offset > total - height {
        total - height
    } else {
        offset
    }
}

/// The lines `[start, end)` to show for a stored `offset`: a window of
/// `height` lines from the clamped offset, and the last `height` lines where
/// that window would be empty.
pub open spec fn window(offset: int, total: int, height: int) -> (int, int) {
    let o = clamped_offset(offset, total, height);
    let end = if o + height < total {
        o + height
    } else {
        total
    };
    if o < end {
        (o, end)
    } else {
        (max_offset(total, height), total)
    }
}

/// The lines `[start, end)` to show for a stored `offset`.
pub fn visible_range(offset: usize, total: usize, height: usize) -> (r: (usize, usize))
    ensures
        (r.0 as int, r.1 as int) == window(offset as int, total as int, height as int),
        r.0 <= r.1 <= total,
        r.1 - r.0 <= height,
        total > 0 && height > 0 ==> r.0 < r.1,
{
    let o = clamp_offset(offset, total, height);
    let end: usize = if height < total - o {
        o + height
    } else {
        total
    };
    if o < end {
        (o, end)
    } else if total > height {
        (total - height, total)
    } else {
        (0, total)
    }
}

impl ScrollState {
    /// The top of the content.
    pub fn new() -> (s: Self)
        ensures
            s@ == (Scroll { offset: 0, cursor: 0 }),
    {
        ScrollState { offset: 0, cursor: 0 }
    }

    /// Takes a position that fits.
    fn store(&mut self, offset: u128, cursor: u128)
        requires
            offset <= usize::MAX,
            cursor <= usize::MAX,
        ensures
            final(self)@ == (Scroll { offset: offset as int, cursor: cursor as int }),
    {
        self.offset = offset as usize;
        self.cursor = cursor as usize;
    }

    /// Settles a position given over wider integers.
    fn settle_from(&mut self, offset: u128, cursor: u128, height: usize, total: usize)
        requires
            offset <= 2 * usize::MAX,
            cursor <= usize::MAX,
        ensures
            final(self)@ == (Scroll { offset: offset as int, cursor: cursor as int }).settled(
                total as int,
                height as int,
            ),
    {
        let t: u128 = total as u128;
        let h: u128 = height as u128;
        let last: u128 = if t > 0 {
            t - 1
        } else {
            0
        };
        let c: u128 = if cursor > last {
            last
        } else {
            cursor
        };
        let o: u128 = if c < offset {
            c
        } else if h > 0 && c - offset >= h {
            c - h + 1
        } else {
            offset
        };
        let most: u128 = if t > h {
            t - h
        } else {
            0
        };
        let clamped: u128 = if o > most {
            most
        } else {
            o
        };
        self.store(clamped, c);
    }

    /// Moves the cursor `step` lines down.
    fn step_down(&mut self, step: usize, height: usize, total: usize)
        ensures
            final(self)@ == old(self)@.stepped_down(step as int, total as int, height as int).settled(
                total as int,
                height as int,
            ),
    {
        let t: u128 = total as u128;
        let last: u128 = if t > 0 {
            t - 1
        } else {
            0
        };
        let cursor: u128 = if (self.cursor as u128) + (step as u128) < last {
            (self.cursor as u128) + (step as u128)
        } else {
            last
        };
        let offset: u128 = if cursor >= (self.offset as u128) + (height as u128) {
            (self.offset as u128) + (step as u128)
        } else {
            self.offset as u128
        };
        self.settle_from(offset, cursor, height, total);
    }

    /// Moves the cursor `step` lines up.
    fn step_up(&mut self, step: usize, height: usize, total: usize)
        ensures
            final(self)@ == old(self)@.stepped_up(step as int).settled(total as int, height as int),
    {
        let cursor: usize = if self.cursor > step {
            self.cursor - step
        } else {
            0
        };
        let offset: usize = if cursor < self.offset {
            if self.offset > step {
                self.offset - step
            } else {
                0
            }
        } else {
            self.offset
        };
        self.settle_from(offset as u128, cursor as u128, height, total);
    }

    /// Brings the position back into view for a window of `height` lines over
    /// `total` lines, as after a resize or when the content has shrunk.
    pub fn settle(&mut self, height: usize, total: usize)
        ensures
            final(self)@ == old(self)@.settled(total as int, height as int),
            total > 0 && height > 0 ==> final(self)@.in_view(total as int, height as int),
            0 <= final(self)@.offset <= max_offset(total as int, height as int),
            old(self)@.in_view(total as int, height as int) ==> *final(self) == *old(self),
    {
        self.settle_from(self.offset as u128, self.cursor as u128, height, total);
    }

    /// Moves the cursor one line down.
    pub fn cursor_down(&mut self, height: usize, total: usize)
        ensures
            final(self)@ == old(self)@.stepped_down(1, total as int, height as int).settled(
                total as int,
                height as int,
            ),
            total > 0 && height > 0 ==> final(self)@.in_view(total as int, height as int),
            0 <= final(self)@.offset <= max_offset(total as int, height as int),
            old(self)@.in_view(total as int, height as int) ==> final(self)@ == old(
                self,
            )@.stepped_down(1, total as int, height as int),
    {
        self.step_down(1, height, total);
    }

    /// Moves the cursor one line up.
    pub fn cursor_up(&mut self, height: usize, total: usize)
        ensures
            final(self)@ == old(self)@.stepped_up(1).settled(total as int, height as int),
            total > 0 && height > 0 ==> final(self)@.in_view(total as int, height as int),
            0 <= final(self)@.offset <= max_offset(total as int, height as int),
            old(self)@.in_view(total as int, height as int) ==> final(self)@ == old(
                self,
            )@.stepped_up(1),
    {
        self.step_up(1, height, total);
    }

    /// Moves the cursor half a window down.
    pub fn page_down(&mut self, height: usize, total: usize)
        ensures
            final(self)@ == old(self)@.stepped_down(
                height as int / 2,
                total as int,
                height as int,
            ).settled(total as int, height as int),
            total > 0 && height > 0 ==> final(self)@.in_view(total as int, height as int),
            0 <= final(self)@.offset <= max_offset(total as int, height as int),
            old(self)@.in_view(total as int, height as int) ==> ({
                let t = old(self)@.stepped_down(height as int / 2, total as int, height as int);
                final(self)@ == Scroll {
                    offset: clamped_offset(t.offset, total as int, height as int),
                    cursor: t.cursor,
                }
            }),
    {
        self.step_down(height / 2, height, total);
    }

    /// Moves the cursor half a window up.
    pub fn page_up(&mut self, height: usize, total: usize)
        ensures
            final(self)@ == old(self)@.stepped_up(height as int / 2).settled(
                total as int,
                height as int,
            ),
            total > 0 && height > 0 ==> final(self)@.in_view(total as int, height as int),
            0 <= final(self)@.offset <= max_offset(total as int, height as int),
            old(self)@.in_view(total as int, height as int) ==> final(self)@ == old(
                self,
            )@.stepped_up(height as int / 2),
    {
        self.step_up(height / 2, height, total);
    }
}

} // verus!

//! The cursor and the window of the display.
//!
//! The cursor counts nibbles, two to a byte; the offset counts bytes and
//! names the first byte shown. A line of the display holds 16 bytes. Every
//! movement is a function of the old position, the step asked for and the
//! size of the content.
use crate::overlay::MAX_SIZE;
use crate::store::Mode;
use vstd::prelude::*;

verus! {

/// The largest value the cursor may take: the last nibble of the content
/// when overwriting, the nibble behind it when inserting.
pub open spec fn cursor_limit(size: int, mode: Mode) -> int {
    match mode {
        Mode::Overwrite => if size == 0 {
            0
        } else {
            2 * size - 1
        },
        Mode::Insert => 2 * size,
    }
}

/// `x`, lowered to a multiple of 16.
pub open spec fn align16(x: int) -> int {
    x - x % 16
}

/// The window of `lines` lines that starts at byte `offset` shows nibble
/// `cursor`.
pub open spec fn visible(offset: int, lines: int, cursor: int) -> bool {
    2 * offset <= cursor <= 2 * offset + 32 * lines - 1
}

/// The offset after a scroll by `delta` bytes: not above the top, and not
/// below the last line. Where the content ends in a short line, the window
/// stops one line earlier if the cursor has not reached that line.
pub open spec fn scrolled(offset: int, delta: int, size: int, cursor: int) -> int {
    let target = offset + delta;
    let room = if size >= 16 {
        size - 16
    } else {
        0
    };
    if target < 0 {
        0
    } else if target > room {
        if size % 16 == 0 {
            room
        } else if 2 * align16(size) > cursor {
            align16(size) - 16
        } else {
            align16(size)
        }
    } else {
        align16(target)
    }
}

/// The largest nibble address up to `limit` in the column of `cursor`: the
/// same column on the last line or, where the last line is too short, on the
/// line before it.
pub open spec fn snapped(cursor: int, limit: int) -> int {
    let column = cursor % 32;
    let last_line = limit - limit % 32;
    if last_line + column <= limit {
        last_line + column
    } else if last_line >= 32 {
        last_line - 32 + column
    } else {
        limit
    }
}

/// The cursor after a move by `delta` nibbles. A move above the top ends in
/// the first line and a move below the bottom in the last, both in the
/// column the cursor came from.
pub open spec fn moved(cursor: int, delta: int, limit: int) -> int {
    let target = cursor + delta;
    if target < 0 {
        if cursor % 32 <= limit {
            cursor % 32
        } else {
            limit
        }
    } else if target > limit {
        snapped(cursor, limit)
    } else {
        target
    }
}

/// The offset after the cursor went from `cursor` to `landed`: one line up
/// or down where the cursor left the window or hit the bottom, and the line
/// of the cursor where that is not enough to show it.
pub open spec fn followed(
    offset: int,
    lines: int,
    cursor: int,
    delta: int,
    size: int,
    limit: int,
    landed: int,
) -> int {
    let target = cursor + delta;
    let step = if target < 0 {
        offset
    } else if target > limit {
        if delta >= 16 {
            scrolled(offset, 16, size, landed)
        } else {
            offset
        }
    } else {
        let up = if landed < 2 * offset {
            scrolled(offset, -16, size, landed)
        } else {
            offset
        };
        if landed > 2 * up + 32 * lines - 1 {
            scrolled(up, 16, size, landed)
        } else {
            up
        }
    };
    if visible(step, lines, landed) {
        step
    } else {
        align16(landed / 2)
    }
}

/// The byte a jump to nibble `nibble` lands on: the byte of the nibble, or
/// the last byte where the nibble lies behind the content.
pub open spec fn jump_byte(nibble: int, size: int) -> int {
    if size == 0 {
        0
    } else if nibble / 2 <= size - 1 {
        nibble / 2
    } else {
        size - 1
    }
}

/// The cursor after a jump to nibble `nibble`.
pub open spec fn jump_cursor(nibble: int, size: int) -> int {
    if size == 0 {
        0
    } else if nibble / 2 <= size - 1 {
        nibble
    } else {
        2 * (size - 1)
    }
}

/// The offset after a jump to byte `address`: unchanged where the window
/// shows the byte, else such that the byte stands in the middle line.
pub open spec fn recentered(offset: int, lines: int, address: int) -> int {
    if offset <= address <= offset + 16 * lines - 1 {
        offset
    } else if address >= (lines / 2) * 16 {
        align16(address - (lines / 2) * 16)
    } else {
        0
    }
}

/// A move leaves the cursor between the first nibble and the limit.
pub proof fn lemma_moved_in_range(cursor: int, delta: int, limit: int)
    requires
        0 <= cursor,
        0 <= limit,
    ensures
        0 <= moved(cursor, delta, limit) <= limit,
{
}

/// A scroll ends on a line start between the top and the end of the content.
pub proof fn lemma_scrolled_aligned(offset: int, delta: int, size: int, cursor: int)
    requires
        0 <= offset,
        0 <= size,
        0 <= cursor,
    ensures
        0 <= scrolled(offset, delta, size, cursor),
        scrolled(offset, delta, size, cursor) <= offset + delta || scrolled(
            offset,
            delta,
            size,
            cursor,
        ) <= size,
        scrolled(offset, delta, size, cursor) % 16 == 0,
{
}

/// After a move the window shows the cursor, and it still starts at a line
/// start if it did before.
pub proof fn lemma_followed_shows(
    offset: int,
    lines: int,
    cursor: int,
    delta: int,
    size: int,
    limit: int,
    landed: int,
)
    requires
        0 <= offset,
        0 <= cursor,
        0 <= size,
        0 <= landed,
    ensures
        lines >= 1 ==> visible(
            followed(offset, lines, cursor, delta, size, limit, landed),
            lines,
            landed,
        ),
        offset % 16 == 0 ==> followed(offset, lines, cursor, delta, size, limit, landed) % 16 == 0,
{
    lemma_scrolled_aligned(offset, 16, size, landed);
    lemma_scrolled_aligned(offset, -16, size, landed);
    lemma_scrolled_aligned(scrolled(offset, -16, size, landed), 16, size, landed);
}

/// The cursor, the window and the selection of the display.
#[derive(Clone, Copy, Debug, PartialEq, Eq, Structural)]
pub struct Viewport {
    /// The nibble the cursor stands on.
    pub cursor: u64,
    /// The first byte shown.
    pub offset: u64,
    /// The number of lines shown.
    pub lines_displayed: u16,
    /// The editing mode.
    pub mode: Mode,
    /// The nibble at the other end of the selection, if there is one.
    pub selection_start: Option<u64>,
}

impl Viewport {
    /// The cursor on the first nibble of a window of 256 lines at the top,
    /// overwriting, with nothing selected.
    pub fn new() -> (v: Self)
        ensures
            v == (Viewport {
                cursor: 0,
                offset: 0,
                lines_displayed: 0x100,
                mode: Mode::Overwrite,
                selection_start: None,
            }),
    {
        Viewport {
            cursor: 0,
            offset: 0,
            lines_displayed: 0x100,
            mode: Mode::Overwrite,
            selection_start: None,
        }
    }

    /// The cursor is in range for a content of `size` bytes.
    pub open spec fn cursor_in_range(&self, size: int) -> bool {
        self.cursor <= cursor_limit(size, self.mode)
    }

    /// The window shows the cursor.
    pub open spec fn shows_cursor(&self) -> bool {
        visible(self.offset as int, self.lines_displayed as int, self.cursor as int)
    }

    /// The viewport after a scroll by `delta` bytes.
    pub open spec fn scrolled_by(self, delta: int, size: int) -> Viewport {
        Viewport {
            offset: scrolled(self.offset as int, delta, size, self.cursor as int) as u64,
            ..self
        }
    }

    /// The viewport after a move of the cursor by `delta` nibbles.
    pub open spec fn moved_by(self, delta: int, size: int) -> Viewport {
        let limit = cursor_limit(size, self.mode);
        let landed = moved(self.cursor as int, delta, limit);
        Viewport {
            cursor: landed as u64,
            offset: followed(
                self.offset as int,
                self.lines_displayed as int,
                self.cursor as int,
                delta,
                size,
                limit,
                landed,
            ) as u64,
            ..self
        }
    }

    /// The viewport after a jump to nibble `nibble`.
    pub open spec fn jumped_to_nibble(self, nibble: int, size: int) -> Viewport {
        Viewport {
            cursor: jump_cursor(nibble, size) as u64,
            offset: recentered(
                self.offset as int,
                self.lines_displayed as int,
                jump_byte(nibble, size),
            ) as u64,
            ..self
        }
    }

    /// The viewport after a jump to byte `address`.
    pub open spec fn jumped_to(self, address: int, size: int) -> Viewport {
        self.jumped_to_nibble(2 * address, size)
    }

    /// The largest value the cursor may take.
    pub fn limit(&self, size: u64) -> (l: u64)
        requires
            size <= MAX_SIZE,
        ensures
            l == cursor_limit(size as int, self.mode),
    {
        match self.mode {
            Mode::Overwrite => if size == 0 {
                0
            } else {
                2 * size - 1
            },
            Mode::Insert => 2 * size,
        }
    }

    /// The largest nibble address up to `limit` in the column of `cursor`.
    pub fn snap(cursor: u64, limit: u64) -> (r: u64)
        ensures
            r == snapped(cursor as int, limit as int),
    {
        let column = cursor % 32;
        let last_line = limit - limit % 32;
        if column <= limit - last_line {
            last_line + column
        } else if last_line >= 32 {
            last_line - 32 + column
        } else {
            limit
        }
    }

    /// Whether the window shows nibble `cursor`.
    fn shows(&self, cursor: u64) -> (b: bool)
        ensures
            b == visible(self.offset as int, self.lines_displayed as int, cursor as int),
    {
        let first: u128 = 2 * (self.offset as u128);
        let behind: u128 = first + 32 * (self.lines_displayed as u128);
        first <= cursor as u128 && (cursor as u128) < behind
    }

    /// Scrolls the window by `delta` bytes.
    pub fn change_offset(&mut self, delta: i64, size: u64)
        requires
            size <= MAX_SIZE,
        ensures
            *final(self) == old(self).scrolled_by(delta as int, size as int),
            final(self).offset == scrolled(
                old(self).offset as int,
                delta as int,
                size as int,
                old(self).cursor as int,
            ),
            final(self).offset % 16 == 0,
    {
        let target: i128 = self.offset as i128 + delta as i128;
        let room: u64 = if size >= 16 {
            size - 16
        } else {
            0
        };
        if target < 0 {
            self.offset = 0;
        } else if target > room as i128 {
            if size % 16 == 0 {
                self.offset = room;
            } else {
                let last: u64 = size - size % 16;
                if 2 * last > self.cursor {
                    self.offset = last - 16;
                } else {
                    self.offset = last;
                }
            }
        } else {
            let within: u64 = target as u64;
            self.offset = within - within % 16;
        }
    }

    /// Moves the cursor by `delta` nibbles and lets the window follow it.
    pub fn change_cursor(&mut self, delta: i64, size: u64)
        requires
            size <= MAX_SIZE,
        ensures
            final(self).cursor == moved(
                old(self).cursor as int,
                delta as int,
                cursor_limit(size as int, old(self).mode),
            ),
            final(self).offset == followed(
                old(self).offset as int,
                old(self).lines_displayed as int,
                old(self).cursor as int,
                delta as int,
                size as int,
                cursor_limit(size as int, old(self).mode),
                final(self).cursor as int,
            ),
            final(self).lines_displayed == old(self).lines_displayed,
            final(self).mode == old(self).mode,
            final(self).selection_start == old(self).selection_start,
            *final(self) == old(self).moved_by(delta as int, size as int),
            final(self).cursor_in_range(size as int),
            final(self).lines_displayed >= 1 ==> final(self).shows_cursor(),
            old(self).offset % 16 == 0 ==> final(self).offset % 16 == 0,
    {
        let limit = self.limit(size);
        let target: i128 = self.cursor as i128 + delta as i128;
        if target < 0 {
            let column = self.cursor % 32;
            self.cursor = if column <= limit {
                column
            } else {
                limit
            };
        } else if target > limit as i128 {
            self.cursor = Viewport::snap(self.cursor, limit);
            if delta >= 16 {
                self.change_offset(16, size);
            }
        } else {
            self.cursor = target as u64;
            if (self.cursor as u128) < 2 * (self.offset as u128) {
                self.change_offset(-16, size);
            }
            if self.cursor as u128 + 1 > 2 * (self.offset as u128) + 32 * (
            self.lines_displayed as u128) {
                self.change_offset(16, size);
            }
        }
        if !self.shows(self.cursor) {
            let byte = self.cursor / 2;
            self.offset = byte - byte % 16;
        }
        proof {
            lemma_moved_in_range(old(self).cursor as int, delta as int, limit as int);
            lemma_followed_shows(
                old(self).offset as int,
                old(self).lines_displayed as int,
                old(self).cursor as int,
                delta as int,
                size as int,
                limit as int,
                self.cursor as int,
            );
        }
    }

    /// Jumps to nibble `nibble`, or to the last byte where the nibble lies
    /// behind the content. The window moves only if it does not show the
    /// byte already; it then shows the byte in its middle line.
    pub fn cursor_jump_to(&mut self, nibble: u64, size: u64)
        requires
            size <= MAX_SIZE,
        ensures
            *final(self) == old(self).jumped_to_nibble(nibble as int, size as int),
            final(self).cursor == jump_cursor(nibble as int, size as int),
            final(self).lines_displayed >= 1 ==> final(self).shows_cursor(),
            old(self).offset % 16 == 0 ==> final(self).offset % 16 == 0,
    {
        let (address, cursor) = if size == 0 {
            (0, 0)
        } else if nibble / 2 <= size - 1 {
            (nibble / 2, nibble)
        } else {
            (size - 1, 2 * (size - 1))
        };
        self.cursor = cursor;
        let behind: u128 = self.offset as u128 + 16 * (self.lines_displayed as u128);
        if address < self.offset || address as u128 >= behind {
            let above: u64 = (self.lines_displayed / 2) as u64 * 16;
            if address >= above {
                let first = address - above;
                self.offset = first - first % 16;
            } else {
                self.offset = 0;
            }
        }
    }

    /// Jumps to the first nibble of byte `address`.
    pub fn jump_to(&mut self, address: u64, size: u64)
        requires
            size <= MAX_SIZE,
        ensures
            *final(self) == old(self).jumped_to(address as int, size as int),
            final(self).cursor == 2 * jump_byte(2 * address, size as int),
            final(self).lines_displayed >= 1 ==> final(self).shows_cursor(),
            old(self).offset % 16 == 0 ==> final(self).offset % 16 == 0,
    {
        let nibble = if address <= MAX_SIZE {
            2 * address
        } else {
            2 * MAX_SIZE
        };
        self.cursor_jump_to(nibble, size);
    }

    /// Moves the cursor like `change_cursor` where nothing is selected. Where
    /// there is a selection, moves both of its ends by `delta` nibbles, or
    /// neither if one of them would leave the content.
    pub fn move_selection(&mut self, delta: i64, size: u64)
        requires
            size <= MAX_SIZE,
        ensures
            old(self).selection_start is None ==> *final(self) == old(self).moved_by(
                delta as int,
                size as int,
            ),
            old(self).selection_start matches Some(start) ==> if 0 <= old(self).cursor + delta
                <= 2 * size && 0 <= start + delta <= 2 * size {
                *final(self) == (Viewport {
                    cursor: (old(self).cursor + delta) as u64,
                    selection_start: Some((start + delta) as u64),
                    ..*old(self)
                })
            } else {
                *final(self) == *old(self)
            },
    {
        match self.selection_start {
            None => {
                self.change_cursor(delta, size);
            },
            Some(start) => {
                let cursor: i128 = self.cursor as i128 + delta as i128;
                let other: i128 = start as i128 + delta as i128;
                let bound: i128 = 2 * (size as i128);
                if 0 <= cursor && cursor <= bound && 0 <= other && other <= bound {
                    self.cursor = cursor as u64;
                    self.selection_start = Some(other as u64);
                }
            },
        }
    }

    /// Whether byte `address` lies between the two ends of the selection.
    pub fn is_selected(&self, address: u64) -> (b: bool)
        ensures
            b == match self.selection_start {
                None => false,
                Some(start) => if start <= self.cursor {
                    start / 2 <= address <= self.cursor / 2
                } else {
                    self.cursor / 2 <= address <= start / 2
                },
            },
    {
        match self.selection_start {
            None => false,
            Some(start) => {
                if start <= self.cursor {
                    start / 2 <= address && address <= self.cursor / 2
                } else {
                    self.cursor / 2 <= address && address <= start / 2
                }
            },
        }
    }
}

/// A scroll by whole lines keeps the cursor in the window whenever the
/// window asked for shows it. The one exception is the nibble behind a
/// content that ends with a full line, in a window of a single line: that
/// window never goes below the last line of the content.
pub proof fn lemma_scroll_keeps_cursor_visible(v: Viewport, delta: int, size: int)
    requires
        0 <= size <= MAX_SIZE,
        v.offset % 16 == 0,
        delta % 16 == 0,
        v.lines_displayed >= 1,
        v.cursor_in_range(size),
        visible(
            if v.offset + delta < 0 {
                0
            } else {
                v.offset + delta
            },
            v.lines_displayed as int,
            v.cursor as int,
        ),
        v.lines_displayed >= 2 || v.cursor < 2 * size || size % 16 != 0 || size == 0,
    ensures
        v.scrolled_by(delta, size).shows_cursor(),
{
}

} // verus!

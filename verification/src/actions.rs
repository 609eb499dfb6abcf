//! What the keys of the editor do: the steps of the cursor that take the
//! window along, the jumps to the ends of a line and of the content, the
//! typing and the removal of bytes.
use crate::app::{edited, typed_edit, App, CurrentEditor};
use crate::history::{undo_step, Kind};
use crate::store::Mode;
use crate::viewport::{cursor_limit, snapped, Viewport};
use vstd::prelude::*;

verus! {

/// The viewport after a change of the editing mode. A cursor behind the
/// content comes back to its last nibble when the mode becomes overwrite.
pub open spec fn toggled(view: Viewport, size: int) -> Viewport {
    match view.mode {
        Mode::Insert => Viewport {
            mode: Mode::Overwrite,
            cursor: if view.cursor >= 2 * size {
                cursor_limit(size, Mode::Overwrite) as u64
            } else {
                view.cursor
            },
            ..view
        },
        Mode::Overwrite => Viewport { mode: Mode::Insert, ..view },
    }
}

/// The line of the window on which the cursor stands, counted from 0. A
/// cursor above the window counts as on its first line.
pub open spec fn cursor_line(view: Viewport) -> int {
    if view.cursor >= 2 * view.offset {
        (view.cursor - 2 * view.offset) / 32
    } else {
        0
    }
}

/// The viewport after a step down by one line: from the last line of the
/// window, the window goes down as well.
pub open spec fn stepped_down(view: Viewport, size: int) -> Viewport {
    let scrolled = if cursor_line(view) == view.lines_displayed - 1 {
        view.scrolled_by(16, size)
    } else {
        view
    };
    scrolled.moved_by(32, size)
}

/// The viewport after a step up by one line: from the first line of the
/// window, the window goes up as well. On the first line of the content
/// there is no step up.
pub open spec fn stepped_up(view: Viewport, size: int) -> Viewport {
    if view.cursor < 31 {
        view
    } else {
        let scrolled = if cursor_line(view) == 0 {
            view.scrolled_by(-16, size)
        } else {
            view
        };
        scrolled.moved_by(-32, size)
    }
}

/// The number of bytes a page step moves by: one line less than the window
/// holds.
pub open spec fn page_bytes(view: Viewport) -> int {
    if view.lines_displayed >= 1 {
        (view.lines_displayed - 1) * 16
    } else {
        0
    }
}

/// The viewport after a step by one page, down or up.
pub open spec fn paged(view: Viewport, size: int, down: bool) -> Viewport {
    if down {
        view.scrolled_by(page_bytes(view), size).moved_by(2 * page_bytes(view), size)
    } else {
        view.scrolled_by(-page_bytes(view), size).moved_by(-2 * page_bytes(view), size)
    }
}

/// The nibble at the end of the line of `cursor`.
pub open spec fn line_end_of(cursor: int) -> int {
    if cursor - cursor % 32 + 31 <= u64::MAX {
        cursor - cursor % 32 + 31
    } else {
        u64::MAX as int
    }
}

/// The cursor stands right behind the byte of the last edit.
pub open spec fn on_last_edit(app: App) -> bool {
    &&& app.document.undo_stack().len() > 0
    &&& app.view.cursor >= 1
    &&& app.document.undo_stack().last().1 == (app.view.cursor - 1) / 2
}

impl App {
    /// Changes the editing mode.
    pub fn toggle_mode(&mut self)
        requires
            old(self).wf(),
        ensures
            *final(self) == (App {
                view: toggled(old(self).view, old(self).document@.len() as int),
                ..*old(self)
            }),
            final(self).view.mode == Mode::Overwrite ==> final(self).view.cursor_in_range(
                old(self).document@.len() as int,
            ),
    {
        let size = self.document.len();
        match self.view.mode {
            Mode::Insert => {
                self.view.mode = Mode::Overwrite;
                if self.view.cursor >= 2 * size {
                    self.view.cursor = if size == 0 {
                        0
                    } else {
                        2 * size - 1
                    };
                }
            },
            Mode::Overwrite => {
                self.view.mode = Mode::Insert;
            },
        }
    }

    /// Whether the cursor stands on line `line` of the window.
    fn cursor_on_line(&self, line: u64) -> (b: bool)
        ensures
            b == (cursor_line(self.view) == line),
    {
        let first: u128 = 2 * (self.view.offset as u128);
        let cursor = self.view.cursor as u128;
        if cursor >= first {
            (cursor - first) / 32 == line as u128
        } else {
            line == 0
        }
    }

    /// Steps down by one line.
    pub fn cursor_down(&mut self)
        requires
            old(self).wf(),
        ensures
            *final(self) == (App {
                view: stepped_down(old(self).view, old(self).document@.len() as int),
                ..*old(self)
            }),
            final(self).view.cursor_in_range(old(self).document@.len() as int),
            final(self).view.lines_displayed >= 1 ==> final(self).view.shows_cursor(),
    {
        if self.view.lines_displayed >= 1 && self.cursor_on_line(
            (self.view.lines_displayed - 1) as u64,
        ) {
            self.change_offset(16);
        }
        self.change_cursor(32);
    }

    /// Steps up by one line.
    pub fn cursor_up(&mut self)
        requires
            old(self).wf(),
        ensures
            *final(self) == (App {
                view: stepped_up(old(self).view, old(self).document@.len() as int),
                ..*old(self)
            }),
    {
        if self.view.cursor < 31 {
            return ;
        }
        if self.cursor_on_line(0) {
            self.change_offset(-16);
        }
        self.change_cursor(-32);
    }

    /// Steps down by one page.
    pub fn page_down(&mut self)
        requires
            old(self).wf(),
        ensures
            *final(self) == (App {
                view: paged(old(self).view, old(self).document@.len() as int, true),
                ..*old(self)
            }),
            final(self).view.cursor_in_range(old(self).document@.len() as int),
            final(self).view.lines_displayed >= 1 ==> final(self).view.shows_cursor(),
    {
        let step: i64 = if self.view.lines_displayed >= 1 {
            (self.view.lines_displayed - 1) as i64 * 16
        } else {
            0
        };
        self.change_offset(step);
        self.change_cursor(2 * step);
    }

    /// Steps up by one page.
    pub fn page_up(&mut self)
        requires
            old(self).wf(),
        ensures
            *final(self) == (App {
                view: paged(old(self).view, old(self).document@.len() as int, false),
                ..*old(self)
            }),
            final(self).view.cursor_in_range(old(self).document@.len() as int),
            final(self).view.lines_displayed >= 1 ==> final(self).view.shows_cursor(),
    {
        let step: i64 = if self.view.lines_displayed >= 1 {
            (self.view.lines_displayed - 1) as i64 * 16
        } else {
            0
        };
        self.change_offset(-step);
        self.change_cursor(-2 * step);
    }

    /// Jumps to the first nibble of the line of the cursor.
    pub fn line_start(&mut self)
        requires
            old(self).wf(),
        ensures
            *final(self) == (App {
                view: old(self).view.jumped_to_nibble(
                    old(self).view.cursor - old(self).view.cursor % 32,
                    old(self).document@.len() as int,
                ),
                ..*old(self)
            }),
    {
        self.cursor_jump_to(self.view.cursor - self.view.cursor % 32);
    }

    /// Jumps to the last nibble of the line of the cursor, or to the last
    /// byte of the content where the line ends behind it.
    pub fn line_end(&mut self)
        requires
            old(self).wf(),
        ensures
            *final(self) == (App {
                view: old(self).view.jumped_to_nibble(
                    line_end_of(old(self).view.cursor as int),
                    old(self).document@.len() as int,
                ),
                ..*old(self)
            }),
    {
        let start = self.view.cursor - self.view.cursor % 32;
        let end = if start <= u64::MAX - 31 {
            start + 31
        } else {
            u64::MAX
        };
        self.cursor_jump_to(end);
    }

    /// Jumps to the first line of the content, in the column of the cursor.
    pub fn file_start(&mut self)
        requires
            old(self).wf(),
        ensures
            *final(self) == (App {
                view: old(self).view.jumped_to_nibble(
                    (old(self).view.cursor % 32) as int,
                    old(self).document@.len() as int,
                ),
                ..*old(self)
            }),
    {
        self.cursor_jump_to(self.view.cursor % 32);
    }

    /// Jumps to the last line of the content that has a byte in the column
    /// of the cursor.
    pub fn file_end(&mut self)
        requires
            old(self).wf(),
        ensures
            *final(self) == (App {
                view: old(self).view.jumped_to_nibble(
                    snapped(
                        old(self).view.cursor as int,
                        cursor_limit(old(self).document@.len() as int, Mode::Overwrite),
                    ),
                    old(self).document@.len() as int,
                ),
                ..*old(self)
            }),
    {
        let size = self.document.len();
        let limit = if size == 0 {
            0
        } else {
            2 * size - 1
        };
        self.cursor_jump_to(Viewport::snap(self.view.cursor, limit));
    }

    /// Takes a nibble typed under the cursor and moves on by one nibble.
    pub fn type_hex(&mut self, value: u8)
        requires
            old(self).wf(),
        ensures
            final(self).wf(),
            edited(
                *old(self),
                App { view: old(self).view, ..*final(self) },
                typed_edit(old(self).document@, old(self).view.cursor, value, old(self).view.mode),
            ),
            final(self).view == old(self).view.moved_by(1, final(self).document@.len() as int),
            final(self).last_address_read == old(self).view.offset,
            final(self).view.cursor_in_range(final(self).document@.len() as int),
    {
        self.write(self.view.cursor, value);
        self.change_cursor(1);
    }

    /// Takes a character typed under the cursor in the text pane and moves
    /// on by one byte.
    pub fn type_ascii(&mut self, value: u8)
        requires
            old(self).wf(),
        ensures
            final(self).wf(),
            edited(
                *old(self),
                App { view: old(self).view, ..*final(self) },
                (Kind::Modification, old(self).view.cursor / 2, Some(value)),
            ),
            final(self).view == old(self).view.moved_by(2, final(self).document@.len() as int),
            final(self).last_address_read == old(self).view.offset,
            final(self).view.cursor_in_range(final(self).document@.len() as int),
    {
        self.write_ascii(self.view.cursor, value);
        self.change_cursor(2);
    }

    /// Removes the byte under the cursor. While overwriting, nothing is
    /// removed.
    pub fn delete_under_cursor(&mut self)
        requires
            old(self).wf(),
        ensures
            final(self).wf(),
            old(self).view.mode == Mode::Overwrite ==> *final(self) == *old(self),
            old(self).view.mode == Mode::Insert ==> edited(
                *old(self),
                *final(self),
                (Kind::Deletion, old(self).view.cursor / 2, None),
            ) && final(self).last_address_read == old(self).last_address_read,
    {
        match self.view.mode {
            Mode::Insert => {
                self.delete_byte(self.view.cursor / 2);
            },
            Mode::Overwrite => {},
        }
    }

    /// Goes back by one step. While inserting, the byte before the cursor is
    /// removed, or the byte under it where the cursor stands on a second
    /// nibble. While overwriting, the last edit is taken back if it was made
    /// on the byte before the cursor; else the cursor steps back, by a
    /// nibble in the pane of digits and by a byte in the pane of text.
    pub fn backspace(&mut self)
        requires
            old(self).wf(),
        ensures
            final(self).wf(),
            final(self).document.file() == old(self).document.file(),
            match old(self).view.mode {
                Mode::Insert => if old(self).view.cursor % 2 == 1 {
                    &&& edited(
                        *old(self),
                        App { view: old(self).view, ..*final(self) },
                        (Kind::Deletion, old(self).view.cursor / 2, None),
                    )
                    &&& final(self).view == old(self).view.moved_by(
                        -1,
                        final(self).document@.len() as int,
                    )
                } else if old(self).view.cursor > 1 {
                    &&& edited(
                        *old(self),
                        App { view: old(self).view, ..*final(self) },
                        (Kind::Deletion, (old(self).view.cursor / 2 - 1) as u64, None),
                    )
                    &&& final(self).view == (Viewport {
                        cursor: (old(self).view.cursor - 2) as u64,
                        ..old(self).view
                    })
                } else {
                    *final(self) == *old(self)
                },
                Mode::Overwrite => if on_last_edit(*old(self)) {
                    &&& *final(self) == (App {
                        document: final(self).document,
                        view: final(self).view,
                        ..*old(self)
                    })
                    &&& final(self).state() == undo_step(old(self).state())
                } else {
                    *final(self) == (App {
                        view: old(self).view.moved_by(
                            if old(self).editor_mode == CurrentEditor::AsciiEditor {
                                -2
                            } else {
                                -1
                            },
                            old(self).document@.len() as int,
                        ),
                        ..*old(self)
                    })
                },
            },
    {
        match self.view.mode {
            Mode::Insert => {
                if self.view.cursor % 2 == 1 {
                    self.delete_byte(self.view.cursor / 2);
                    self.change_cursor(-1);
                } else if self.view.cursor > 1 {
                    self.delete_byte(self.view.cursor / 2 - 1);
                    self.view.cursor = self.view.cursor - 2;
                }
            },
            Mode::Overwrite => {
                let on_last_edit = match self.last_edit() {
                    Some(entry) => self.view.cursor >= 1 && entry.1 == (self.view.cursor - 1) / 2,
                    None => false,
                };
                if on_last_edit {
                    self.undo();
                } else {
                    match self.editor_mode {
                        CurrentEditor::AsciiEditor => self.change_cursor(-2),
                        _ => self.change_cursor(-1),
                    }
                }
            },
        }
    }

    /// Asks to leave the editor. With changes pending, the editor asks
    /// first whether to save them, and stays.
    pub fn request_quit(&mut self) -> (leave: bool)
        ensures
            leave == old(self).document.records().is_empty(),
            leave ==> *final(self) == *old(self),
            !leave ==> *final(self) == (App {
                editor_mode: CurrentEditor::ExitPopup,
                ..*old(self)
            }),
    {
        if self.document.is_modified() {
            self.editor_mode = CurrentEditor::ExitPopup;
            false
        } else {
            true
        }
    }

    /// Begins a selection at the cursor.
    pub fn start_selection(&mut self)
        ensures
            *final(self) == (App {
                view: Viewport { selection_start: Some(old(self).view.cursor), ..old(self).view },
                ..*old(self)
            }),
    {
        self.view.selection_start = Some(self.view.cursor);
    }

    /// Goes over to the other of the two panes.
    pub fn switch_pane(&mut self)
        ensures
            *final(self) == (App {
                editor_mode: match old(self).editor_mode {
                    CurrentEditor::HexEditor => CurrentEditor::AsciiEditor,
                    CurrentEditor::AsciiEditor => CurrentEditor::HexEditor,
                    other => other,
                },
                ..*old(self)
            }),
    {
        match self.editor_mode {
            CurrentEditor::HexEditor => {
                self.editor_mode = CurrentEditor::AsciiEditor;
            },
            CurrentEditor::AsciiEditor => {
                self.editor_mode = CurrentEditor::HexEditor;
            },
            _ => {},
        }
    }

    /// Leaves the command bar and the selection.
    pub fn escape(&mut self)
        ensures
            *final(self) == (App {
                command_bar: if old(self).editor_mode != CurrentEditor::HexEditor {
                    None
                } else {
                    old(self).command_bar
                },
                editor_mode: CurrentEditor::HexEditor,
                view: Viewport { selection_start: None, ..old(self).view },
                ..*old(self)
            }),
    {
        if self.editor_mode != CurrentEditor::HexEditor {
            self.command_bar = None;
            self.editor_mode = CurrentEditor::HexEditor;
        }
        self.view.selection_start = None;
    }
}

} // verus!

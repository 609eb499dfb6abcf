//! The editor: a document, the cursor with its window, the results of the
//! last search and the state of the interface.
use crate::document::{records_edited, reversal, Document};
use crate::history::{
    reapplies, recorded, redo_step, redone, undo_all_steps, undo_step, EditorState, HistoryEntry,
    Kind,
};
use crate::overlay::{Changes, MAX_SIZE};
use crate::search::{first_after, last_before, SearchResults};
use crate::store::{only_overwrites, patches_of, Mode, SavePlan, StoreError};
use crate::viewport::Viewport;
use vstd::prelude::*;
use vstd::string::StrSliceExecFns;

verus! {

/// The part of the interface that takes the keys.
#[derive(Clone, Copy, Debug, PartialEq, Eq, Structural)]
pub enum CurrentEditor {
    HexEditor,
    AsciiEditor,
    CommandBar,
    ExitPopup,
}

/// The line in which a command is typed.
#[derive(Debug)]
pub struct CommandBar {
    pub command: String,
    pub cursor: u64,
}

/// How grave a message to the user is.
#[derive(Clone, Copy, Debug, PartialEq, Eq, Structural)]
pub enum WarningLevel {
    Info,
    Warning,
    Error,
}

/// The editor of one file.
pub struct App {
    /// The content of the file and the history of its edits.
    pub document: Document,
    /// The name of the file, without the directories that lead to it.
    pub filename: String,
    /// The cursor, the window, the editing mode and the selection.
    pub view: Viewport,
    /// The part of the interface that takes the keys.
    pub editor_mode: CurrentEditor,
    /// The command being typed, if any.
    pub command_bar: Option<CommandBar>,
    /// The results of the last search, if it found anything.
    pub search_results: Option<SearchResults>,
    /// The message on display, if any.
    pub error_msg: Option<(WarningLevel, String)>,
    /// Whether the line of information below the panes is shown.
    pub show_infobar: bool,
    /// The address at which the next read for the display begins.
    pub last_address_read: u64,
}

/// The part of a path behind its last `/`.
pub open spec fn base_name_of(path: Seq<char>) -> Seq<char>
    decreases path.len(),
{
    if path.len() == 0 {
        path
    } else if path.last() == '/' {
        Seq::empty()
    } else {
        base_name_of(path.drop_last()).push(path.last())
    }
}

/// The name of the file at `path`: what follows the last `/`.
pub fn base_name(path: &str) -> (name: String)
    ensures
        name@ == base_name_of(path@),
{
    let length = path.unicode_len();
    let mut start: usize = length;
    proof {
        assert(path@.take(length as int) =~= path@);
        assert(base_name_of(path@) + path@.subrange(length as int, length as int) =~= base_name_of(
            path@,
        ));
    }
    while start > 0 && path.get_char(start - 1) != '/'
        invariant
            start <= length == path@.len(),
            base_name_of(path@) == base_name_of(path@.take(start as int)) + path@.subrange(
                start as int,
                length as int,
            ),
        decreases start,
    {
        proof {
            let head = path@.take(start as int);
            assert(head.last() == path@[start - 1]);
            assert(head.drop_last() =~= path@.take(start - 1));
            assert(base_name_of(head.drop_last()).push(head.last()) + path@.subrange(
                start as int,
                length as int,
            ) =~= base_name_of(head.drop_last()) + path@.subrange(start - 1, length as int));
        }
        start = start - 1;
    }
    proof {
        let head = path@.take(start as int);
        if start > 0 {
            assert(head.last() == path@[start - 1]);
        }
        assert(base_name_of(head) =~= Seq::<char>::empty());
        assert(base_name_of(path@) =~= path@.subrange(start as int, length as int));
    }
    path.substring_char(start, length).to_owned()
}

/// A byte with its first nibble, where `cursor` is even, or its second
/// nibble set to `value`.
pub open spec fn with_nibble(byte: u8, cursor: u64, value: u8) -> u8 {
    if cursor % 2 == 0 {
        (byte & 0x0f) ^ (value << 4)
    } else {
        (byte & 0xf0) ^ value
    }
}

/// The edit that a nibble typed at `cursor` makes. While inserting, the
/// first nibble of a byte puts in a new byte, at the end of the content
/// where the cursor stands behind it. Every other nibble changes the byte
/// under the cursor.
pub open spec fn typed_edit(content: Seq<u8>, cursor: u64, value: u8, mode: Mode) -> HistoryEntry {
    let address = cursor / 2;
    if mode == Mode::Insert && cursor % 2 == 0 {
        (
            Kind::Insertion,
            if address <= content.len() {
                address
            } else {
                content.len() as u64
            },
            Some(value << 4),
        )
    } else {
        (Kind::Modification, address, Some(with_nibble(content[address as int], cursor, value)))
    }
}

/// The edit that a write of `value` at `address` makes.
pub open spec fn written_edit(content: Seq<u8>, address: u64, value: u8, mode: Mode) -> HistoryEntry {
    match mode {
        Mode::Overwrite => (Kind::Modification, address, Some(value)),
        Mode::Insert => (
            Kind::Insertion,
            if address <= content.len() {
                address
            } else {
                content.len() as u64
            },
            Some(value),
        ),
    }
}

/// Byte `address` lies between the two ends of the selection.
pub open spec fn selected(view: Viewport, address: u64) -> bool {
    match view.selection_start {
        None => false,
        Some(start) => if start <= view.cursor {
            start / 2 <= address <= view.cursor / 2
        } else {
            view.cursor / 2 <= address <= start / 2
        },
    }
}

/// The address of the first selected byte, or the size of the content where
/// the selection begins behind it.
pub open spec fn selection_from(view: Viewport, size: int) -> int {
    let start = view.selection_start->0;
    let low = if start <= view.cursor {
        start / 2
    } else {
        view.cursor / 2
    };
    if low < size {
        low as int
    } else {
        size
    }
}

/// The address behind the last selected byte, or the size of the content
/// where the selection ends behind it.
pub open spec fn selection_to(view: Viewport, size: int) -> int {
    let start = view.selection_start->0;
    let high = if start <= view.cursor {
        view.cursor / 2
    } else {
        start / 2
    };
    if high < size {
        high + 1
    } else {
        size
    }
}

/// What a change of the content leaves in the editor: the edit is made and
/// recorded and the redo stack is emptied or, where the edit cannot be made,
/// a warning is on display and the document is as it was. Nothing else
/// changes, but for the place of the next read for the display.
pub open spec fn edited(before: App, after: App, edit: HistoryEntry) -> bool {
    &&& after == (App {
        document: after.document,
        error_msg: after.error_msg,
        last_address_read: after.last_address_read,
        ..before
    })
    &&& after.document.file() == before.document.file()
    &&& after.document@ == redone(before.document@, edit)
    &&& if reapplies(before.document@, edit) {
        &&& after.document.undo_stack() == before.document.undo_stack().push(
            recorded(before.document@, edit),
        )
        &&& after.document.redo_stack().len() == 0
        &&& after.error_msg == before.error_msg
        &&& records_edited(
            before.document.file(),
            before.document.records(),
            after.document.records(),
            before.document@.len() as int,
            edit,
        )
    } else {
        &&& after.state() == before.state()
        &&& after.document.records() == before.document.records()
        &&& after.warns()
    }
}

impl App {
    /// What the editor holds, as far as the history is concerned.
    pub open spec fn state(&self) -> EditorState {
        EditorState {
            content: self.document@,
            undo: self.document.undo_stack(),
            redo: self.document.redo_stack(),
            view: self.view,
        }
    }

    /// The document is well formed.
    pub open spec fn wf(&self) -> bool {
        self.document.wf()
    }

    /// A warning is on display.
    pub open spec fn warns(&self) -> bool {
        self.error_msg matches Some(message) && message.0 == WarningLevel::Warning
    }

    /// An editor for the file `filename`, which holds `bytes`. A file larger
    /// than `MAX_SIZE` is refused.
    pub fn new(filename: String, bytes: Vec<u8>) -> (r: Result<App, StoreError>)
        ensures
            bytes@.len() > MAX_SIZE ==> r is Err && r->Err_0 == StoreError::Full,
            bytes@.len() <= MAX_SIZE ==> r is Ok && ({
                let app = r->Ok_0;
                &&& app.wf()
                &&& app.document@ == bytes@
                &&& app.document.file() == bytes@
                &&& app.document.records() == Map::<u64, Changes>::empty()
                &&& app.document.undo_stack().len() == 0
                &&& app.document.redo_stack().len() == 0
                &&& app.last_address_read == 0
                &&& app.filename@ == base_name_of(filename@)
                &&& app.view == (Viewport {
                    cursor: 0,
                    offset: 0,
                    lines_displayed: 0x100,
                    mode: Mode::Overwrite,
                    selection_start: None,
                })
                &&& app.editor_mode == CurrentEditor::HexEditor
                &&& app.command_bar is None
                &&& app.search_results is None
                &&& app.error_msg is None
                &&& app.show_infobar
            }),
    {
        let document = match Document::new(bytes) {
            Ok(document) => document,
            Err(e) => {
                return Err(e);
            },
        };
        Ok(
            App {
                document,
                filename: base_name(filename.as_str()),
                view: Viewport::new(),
                editor_mode: CurrentEditor::HexEditor,
                command_bar: None,
                search_results: None,
                error_msg: None,
                show_infobar: true,
                last_address_read: 0,
            },
        )
    }

    /// Puts the next read for the display at the first byte of the window.
    pub fn reset(&mut self)
        ensures
            *final(self) == (App { last_address_read: old(self).view.offset, ..*old(self) }),
    {
        self.last_address_read = self.view.offset;
    }

    /// The number of bytes in the logical content.
    pub fn file_size(&self) -> (n: u64)
        requires
            self.wf(),
        ensures
            n == self.document@.len(),
    {
        self.document.len()
    }

    /// The number of bytes from the first byte of the window to the end of
    /// the content.
    pub fn length_to_end(&self) -> (n: u64)
        requires
            self.wf(),
        ensures
            n == if self.view.offset <= self.document@.len() {
                self.document@.len() - self.view.offset
            } else {
                0
            },
    {
        let size = self.document.len();
        if self.view.offset <= size {
            size - self.view.offset
        } else {
            0
        }
    }

    /// Puts a message on display, in place of the one before.
    pub fn add_error_message(&mut self, level: WarningLevel, message: String)
        ensures
            *final(self) == (App { error_msg: Some((level, message)), ..*old(self) }),
    {
        self.error_msg = Some((level, message));
    }

    /// Takes the message off the display.
    pub fn cleanup_error_message(&mut self)
        ensures
            *final(self) == (App { error_msg: None, ..*old(self) }),
    {
        self.error_msg = None;
    }

    /// Reads the byte at a logical address.
    pub fn read_byte_addr(&self, address: u64) -> (r: Result<u8, StoreError>)
        requires
            self.wf(),
        ensures
            address < self.document@.len() ==> r == Ok::<u8, StoreError>(
                self.document@[address as int],
            ),
            address >= self.document@.len() ==> r == Err::<u8, StoreError>(StoreError::NotFound),
    {
        self.document.read_byte(address)
    }

    /// Reads a byte of the backing file, whatever changes are pending.
    pub fn read_byte_addr_file(&self, address: u64) -> (r: Result<u8, StoreError>)
        ensures
            address < self.document.file().len() ==> r == Ok::<u8, StoreError>(
                self.document.file()[address as int],
            ),
            address >= self.document.file().len() ==> r == Err::<u8, StoreError>(
                StoreError::NotFound,
            ),
    {
        self.document.read_file_byte(address)
    }

    /// Writes `value` at a logical address and records the edit: over the
    /// byte found there when overwriting, in front of it when inserting. An
    /// insertion at or behind the end appends. The redo stack is emptied.
    pub fn write_byte(&mut self, address: u64, value: u8, mode: Mode) -> (r: Result<(), StoreError>)
        requires
            old(self).wf(),
        ensures
            final(self).wf(),
            *final(self) == (App { document: final(self).document, ..*old(self) }),
            final(self).document.file() == old(self).document.file(),
            final(self).document@ == redone(
                old(self).document@,
                written_edit(old(self).document@, address, value, mode),
            ),
            r is Ok <==> reapplies(
                old(self).document@,
                written_edit(old(self).document@, address, value, mode),
            ),
            r is Ok ==> final(self).document.undo_stack() == old(self).document.undo_stack().push(
                recorded(
                    old(self).document@,
                    written_edit(old(self).document@, address, value, mode),
                ),
            ) && final(self).document.redo_stack().len() == 0 && records_edited(
                old(self).document.file(),
                old(self).document.records(),
                final(self).document.records(),
                old(self).document@.len() as int,
                written_edit(old(self).document@, address, value, mode),
            ),
            r is Err ==> ({
                &&& final(self).state() == old(self).state()
                &&& final(self).document.records() == old(self).document.records()
                &&& r->Err_0 == match mode {
                    Mode::Overwrite => StoreError::NotFound,
                    Mode::Insert => StoreError::Full,
                }
            }),
    {
        let size = self.document.len();
        let edit = match mode {
            Mode::Overwrite => (Kind::Modification, address, Some(value)),
            Mode::Insert => (
                Kind::Insertion,
                if address <= size {
                    address
                } else {
                    size
                },
                Some(value),
            ),
        };
        if self.document.edit(edit) {
            Ok(())
        } else {
            match mode {
                Mode::Overwrite => Err(StoreError::NotFound),
                Mode::Insert => Err(StoreError::Full),
            }
        }
    }

    /// Takes a nibble typed at `cursor`: makes the edit, records it, and
    /// puts the next read for the display at the first byte of the window.
    /// Where the edit cannot be made, a warning is put on display and the
    /// content stays as it is.
    pub fn write(&mut self, cursor: u64, value: u8)
        requires
            old(self).wf(),
        ensures
            final(self).wf(),
            final(self).last_address_read == old(self).view.offset,
            edited(
                *old(self),
                *final(self),
                typed_edit(old(self).document@, cursor, value, old(self).view.mode),
            ),
    {
        let address = cursor / 2;
        let size = self.document.len();
        let edit = match self.view.mode {
            Mode::Insert if cursor % 2 == 0 => (
                Kind::Insertion,
                if address <= size {
                    address
                } else {
                    size
                },
                Some(value << 4),
            ),
            _ => {
                let original = match self.document.read_byte(address) {
                    Ok(original) => original,
                    Err(_) => 0,
                };
                let changed = if cursor % 2 == 0 {
                    (original & 0x0f) ^ (value << 4)
                } else {
                    (original & 0xf0) ^ value
                };
                (Kind::Modification, address, Some(changed))
            },
        };
        if !self.document.edit(edit) {
            self.error_msg = Some((WarningLevel::Warning, "Failed to write byte".to_string()));
        }
        self.last_address_read = self.view.offset;
    }

    /// Takes a character typed at `cursor` in the text pane: writes it over
    /// the byte under the cursor, records the edit, and puts the next read
    /// for the display at the first byte of the window. Where there is no
    /// byte under the cursor, a warning is put on display.
    pub fn write_ascii(&mut self, cursor: u64, value: u8)
        requires
            old(self).wf(),
        ensures
            final(self).wf(),
            final(self).last_address_read == old(self).view.offset,
            edited(*old(self), *final(self), (Kind::Modification, cursor / 2, Some(value))),
    {
        let address = cursor / 2;
        if !self.document.edit((Kind::Modification, address, Some(value))) {
            self.error_msg = Some(
                (WarningLevel::Warning, "Failed to write the byte under the cursor".to_string()),
            );
        }
        self.last_address_read = self.view.offset;
    }

    /// Removes the byte at a logical address and records the edit. Where
    /// there is no byte at the address, so in every empty content, a warning
    /// is put on display.
    pub fn delete_byte(&mut self, address: u64)
        requires
            old(self).wf(),
        ensures
            final(self).wf(),
            final(self).last_address_read == old(self).last_address_read,
            edited(*old(self), *final(self), (Kind::Deletion, address, None)),
    {
        if !self.document.edit((Kind::Deletion, address, None)) {
            self.error_msg = Some((WarningLevel::Warning, "There is no byte to delete".to_string()));
        }
    }

    /// The last edit that can be taken back.
    pub fn last_edit(&self) -> (r: Option<HistoryEntry>)
        ensures
            self.document.undo_stack().len() == 0 ==> r is None,
            self.document.undo_stack().len() > 0 ==> r == Some(self.document.undo_stack().last()),
    {
        self.document.last_edit()
    }

    /// Takes back the last edit, keeps it for a redo and puts the cursor on
    /// the byte of the edit.
    pub fn undo(&mut self)
        requires
            old(self).wf(),
        ensures
            final(self).wf(),
            *final(self) == (App {
                document: final(self).document,
                view: final(self).view,
                ..*old(self)
            }),
            final(self).document.file() == old(self).document.file(),
            final(self).state() == undo_step(old(self).state()),
            if old(self).document.undo_stack().len() > 0 {
                records_edited(
                    old(self).document.file(),
                    old(self).document.records(),
                    final(self).document.records(),
                    old(self).document@.len() as int,
                    reversal(old(self).document.undo_stack().last()),
                )
            } else {
                final(self).document.records() == old(self).document.records()
            },
    {
        match self.document.undo() {
            None => {},
            Some((entry, kept)) => {
                let size = self.document.len();
                let second_nibble = match (entry.0, entry.2, kept.2) {
                    (Kind::Modification, Some(prior), Some(current)) => current & 0xf0 == prior
                        & 0xf0,
                    _ => false,
                };
                if second_nibble {
                    self.view.cursor_jump_to(2 * entry.1 + 1, size);
                } else {
                    self.view.jump_to(entry.1, size);
                }
            },
        }
    }

    /// Makes the edit taken back last again and puts the cursor one nibble
    /// behind the first nibble of its byte. Where the edit cannot be made
    /// any more, it is dropped and a warning is put on display.
    pub fn redo(&mut self)
        requires
            old(self).wf(),
        ensures
            final(self).wf(),
            *final(self) == (App {
                document: final(self).document,
                view: final(self).view,
                error_msg: final(self).error_msg,
                ..*old(self)
            }),
            final(self).document.file() == old(self).document.file(),
            final(self).state() == redo_step(old(self).state()),
            if old(self).document.redo_stack().len() > 0 && reapplies(
                old(self).document@,
                old(self).document.redo_stack().last(),
            ) {
                records_edited(
                    old(self).document.file(),
                    old(self).document.records(),
                    final(self).document.records(),
                    old(self).document@.len() as int,
                    old(self).document.redo_stack().last(),
                )
            } else {
                final(self).document.records() == old(self).document.records()
            },
            old(self).document.redo_stack().len() > 0 && !reapplies(
                old(self).document@,
                old(self).document.redo_stack().last(),
            ) ==> final(self).warns(),
            old(self).document.redo_stack().len() == 0 || reapplies(
                old(self).document@,
                old(self).document.redo_stack().last(),
            ) ==> final(self).error_msg == old(self).error_msg,
    {
        match self.document.redo() {
            None => {},
            Some((entry, done)) => {
                if done {
                    let size = self.document.len();
                    self.view.jump_to(entry.1, size);
                    self.view.change_cursor(1, size);
                } else {
                    self.error_msg = Some(
                        (WarningLevel::Warning, "Could not restore the byte".to_string()),
                    );
                }
            },
        }
    }

    /// Takes back every edit. The content is then that of the backing file.
    pub fn undo_all(&mut self)
        requires
            old(self).wf(),
        ensures
            final(self).wf(),
            *final(self) == (App {
                document: final(self).document,
                view: final(self).view,
                ..*old(self)
            }),
            final(self).document.file() == old(self).document.file(),
            final(self).state() == undo_all_steps(old(self).state()),
            final(self).document.undo_stack().len() == 0,
            final(self).document@ == old(self).document.file(),
    {
        while self.document.undo_depth() > 0
            invariant
                self.wf(),
                *self == (App { document: self.document, view: self.view, ..*old(self) }),
                self.document.file() == old(self).document.file(),
                undo_all_steps(self.state()) == undo_all_steps(old(self).state()),
            decreases self.document.undo_stack().len(),
        {
            self.undo();
        }
    }

    /// Works out what a save has to write to the disk: the changed bytes
    /// alone where every pending change replaces one byte by one byte, the
    /// whole content otherwise. Carried out on the backing file, the plan
    /// leaves the logical content on disk.
    pub fn save_to_disk(&self) -> (plan: SavePlan)
        requires
            self.wf(),
        ensures
            plan.applied_to(self.document.file()) == self.document@,
            plan is InPlace <==> only_overwrites(self.document.records()),
            plan matches SavePlan::InPlace(patches) ==> patches_of(
                patches@,
                self.document.records(),
            ),
    {
        self.document.save_plan()
    }

    /// Takes note that a save has reached the disk: the content is now that
    /// of the backing file, with no pending change and no history.
    pub fn saved(&mut self)
        requires
            old(self).wf(),
        ensures
            final(self).wf(),
            *final(self) == (App { document: final(self).document, ..*old(self) }),
            final(self).document.file() == old(self).document@,
            final(self).document@ == old(self).document@,
            final(self).document.records() == Map::<u64, Changes>::empty(),
            final(self).document.undo_stack().len() == 0,
            final(self).document.redo_stack().len() == 0,
    {
        self.document.mark_saved();
    }

    /// Reads up to 16 bytes for the display, from where the last read
    /// stopped, and returns them with their number.
    pub fn read_16_length(&mut self) -> (r: (Vec<u8>, usize))
        requires
            old(self).wf(),
        ensures
            *final(self) == (App {
                last_address_read: final(self).last_address_read,
                ..*old(self)
            }),
            r.1 == r.0@.len(),
            old(self).last_address_read >= old(self).document@.len() ==> ({
                &&& r.0@.len() == 0
                &&& final(self).last_address_read == old(self).last_address_read
            }),
            old(self).last_address_read < old(self).document@.len() ==> ({
                let from = old(self).last_address_read as int;
                let to = if from + 16 <= old(self).document@.len() {
                    from + 16
                } else {
                    old(self).document@.len() as int
                };
                r.0@ == old(self).document@.subrange(from, to) && final(self).last_address_read
                    == to
            }),
    {
        let mut bytes: Vec<u8> = Vec::new();
        let size = self.document.len();
        let start = self.last_address_read;
        let mut current = start;
        let mut count: usize = 0;
        while count < 16 && current < size
            invariant
                self.wf(),
                *self == *old(self),
                size == self.document@.len(),
                start <= current <= size || (current == start && count == 0),
                count <= 16,
                current == start + count,
                bytes@.len() == count,
                start < size ==> bytes@ == self.document@.subrange(start as int, current as int),
            decreases 16 - count,
        {
            match self.document.read_byte(current) {
                Ok(value) => {
                    bytes.push(value);
                },
                Err(_) => {},
            }
            current = current + 1;
            count = count + 1;
            assert(bytes@ =~= self.document@.subrange(start as int, current as int));
        }
        self.last_address_read = current;
        (bytes, count)
    }

    /// Reads the next byte for the display, if the content has one there,
    /// and moves on by one byte in either case.
    pub fn read_byte(&mut self) -> (r: Option<u8>)
        requires
            old(self).wf(),
        ensures
            *final(self) == (App {
                last_address_read: if old(self).last_address_read < u64::MAX {
                    (old(self).last_address_read + 1) as u64
                } else {
                    old(self).last_address_read
                },
                ..*old(self)
            }),
            old(self).last_address_read < old(self).document@.len() ==> r == Some(
                old(self).document@[old(self).last_address_read as int],
            ),
            old(self).last_address_read >= old(self).document@.len() ==> r is None,
    {
        let r = match self.document.read_byte(self.last_address_read) {
            Ok(value) => Some(value),
            Err(_) => None,
        };
        if self.last_address_read < u64::MAX {
            self.last_address_read = self.last_address_read + 1;
        }
        r
    }

    /// Whether byte `address` lies between the two ends of the selection.
    pub fn is_selected(&self, address: u64) -> (b: bool)
        ensures
            b == selected(self.view, address),
    {
        self.view.is_selected(address)
    }

    /// The bytes between the two ends of the selection, as far as the
    /// content holds them, or nothing where nothing is selected.
    pub fn get_selected_bytes(&self) -> (r: Option<Vec<u8>>)
        requires
            self.wf(),
        ensures
            self.view.selection_start is None ==> r is None,
            self.view.selection_start is Some ==> r is Some && r->0@ == self.document@.subrange(
                selection_from(self.view, self.document@.len() as int),
                selection_to(self.view, self.document@.len() as int),
            ),
    {
        let start = match self.view.selection_start {
            None => {
                return None;
            },
            Some(start) => start,
        };
        let size = self.document.len();
        let (low, high) = if start <= self.view.cursor {
            (start / 2, self.view.cursor / 2)
        } else {
            (self.view.cursor / 2, start / 2)
        };
        let from = if low < size {
            low
        } else {
            size
        };
        let to = if high < size {
            high + 1
        } else {
            size
        };
        let mut bytes: Vec<u8> = Vec::new();
        let mut address = from;
        while address < to
            invariant
                self.wf(),
                from <= address <= to <= self.document@.len(),
                bytes@ == self.document@.subrange(from as int, address as int),
            decreases to - address,
        {
            match self.document.read_byte(address) {
                Ok(value) => {
                    bytes.push(value);
                },
                Err(_) => {},
            }
            address = address + 1;
            assert(bytes@ =~= self.document@.subrange(from as int, address as int));
        }
        Some(bytes)
    }

    /// Scrolls the window by `direction` bytes.
    pub fn change_offset(&mut self, direction: i64)
        requires
            old(self).wf(),
        ensures
            *final(self) == (App {
                view: old(self).view.scrolled_by(
                    direction as int,
                    old(self).document@.len() as int,
                ),
                ..*old(self)
            }),
    {
        let size = self.document.len();
        self.view.change_offset(direction, size);
    }

    /// Moves the cursor by `direction` nibbles and lets the window follow
    /// it. The cursor stays inside the content, and the window shows it.
    pub fn change_cursor(&mut self, direction: i64)
        requires
            old(self).wf(),
        ensures
            *final(self) == (App {
                view: old(self).view.moved_by(direction as int, old(self).document@.len() as int),
                ..*old(self)
            }),
            final(self).view.cursor_in_range(old(self).document@.len() as int),
            final(self).view.lines_displayed >= 1 ==> final(self).view.shows_cursor(),
            old(self).view.offset % 16 == 0 ==> final(self).view.offset % 16 == 0,
    {
        let size = self.document.len();
        self.view.change_cursor(direction, size);
    }

    /// Jumps to the first nibble of byte `new_address`, or of the last byte
    /// where the address lies behind the content.
    pub fn jump_to(&mut self, new_address: u64)
        requires
            old(self).wf(),
        ensures
            *final(self) == (App {
                view: old(self).view.jumped_to(
                    new_address as int,
                    old(self).document@.len() as int,
                ),
                ..*old(self)
            }),
            final(self).view.lines_displayed >= 1 ==> final(self).view.shows_cursor(),
            old(self).view.offset % 16 == 0 ==> final(self).view.offset % 16 == 0,
    {
        let size = self.document.len();
        self.view.jump_to(new_address, size);
    }

    /// Jumps to nibble `new_cursor_address`, or to the last byte where the
    /// nibble lies behind the content.
    pub fn cursor_jump_to(&mut self, new_cursor_address: u64)
        requires
            old(self).wf(),
        ensures
            *final(self) == (App {
                view: old(self).view.jumped_to_nibble(
                    new_cursor_address as int,
                    old(self).document@.len() as int,
                ),
                ..*old(self)
            }),
            final(self).view.lines_displayed >= 1 ==> final(self).view.shows_cursor(),
            old(self).view.offset % 16 == 0 ==> final(self).view.offset % 16 == 0,
    {
        let size = self.document.len();
        self.view.cursor_jump_to(new_cursor_address, size);
    }

    /// Moves the cursor, or both ends of the selection where there is one.
    pub fn move_selection(&mut self, delta: i64)
        requires
            old(self).wf(),
        ensures
            *final(self) == (App { view: final(self).view, ..*old(self) }),
            old(self).view.selection_start is None ==> final(self).view == old(self).view.moved_by(
                delta as int,
                old(self).document@.len() as int,
            ),
            old(self).view.selection_start matches Some(start) ==> if {
                &&& 0 <= old(self).view.cursor + delta <= 2 * old(self).document@.len()
                &&& 0 <= start + delta <= 2 * old(self).document@.len()
            } {
                final(self).view == (Viewport {
                    cursor: (old(self).view.cursor + delta) as u64,
                    selection_start: Some((start + delta) as u64),
                    ..old(self).view
                })
            } else {
                final(self).view == old(self).view
            },
    {
        let size = self.document.len();
        self.view.move_selection(delta, size);
    }

    /// Takes note of a match at `result_address`. The first match of a
    /// search opens the results and takes the cursor to it.
    pub fn add_to_search_results(&mut self, result_address: u64, query_len: usize)
        requires
            old(self).wf(),
        ensures
            *final(self) == (App {
                view: final(self).view,
                search_results: final(self).search_results,
                ..*old(self)
            }),
            final(self).search_results is Some,
            match old(self).search_results {
                Some(results) => {
                    &&& final(self).view == old(self).view
                    &&& final(self).search_results->0.match_addresses@
                        == results.match_addresses@.push(result_address)
                    &&& final(self).search_results->0.query_length == results.query_length
                },
                None => {
                    &&& final(self).view == old(self).view.jumped_to(
                        result_address as int,
                        old(self).document@.len() as int,
                    )
                    &&& final(self).search_results->0.match_addresses@ == seq![result_address]
                    &&& final(self).search_results->0.query_length == query_len
                },
            },
    {
        let mut results: Option<SearchResults> = None;
        std::mem::swap(&mut results, &mut self.search_results);
        match results {
            Some(mut found) => {
                found.match_addresses.push(result_address);
                self.search_results = Some(found);
            },
            None => {
                let size = self.document.len();
                self.view.jump_to(result_address, size);
                let mut match_addresses: Vec<u64> = Vec::new();
                match_addresses.push(result_address);
                self.search_results = Some(
                    SearchResults { match_addresses, query_length: query_len },
                );
            },
        }
    }

    /// Jumps to the first match behind the byte under the cursor, if there
    /// is one.
    pub fn go_to_next_search_result(&mut self)
        requires
            old(self).wf(),
        ensures
            *final(self) == (App { view: final(self).view, ..*old(self) }),
            final(self).view == (match old(self).search_results {
                Some(results) => match first_after(
                    results.match_addresses@,
                    old(self).view.cursor / 2,
                ) {
                    Some(found) => old(self).view.jumped_to(
                        found as int,
                        old(self).document@.len() as int,
                    ),
                    None => old(self).view,
                },
                None => old(self).view,
            }),
    {
        let current = self.view.cursor / 2;
        let target = match &self.search_results {
            Some(results) => results.next_after(current),
            None => None,
        };
        match target {
            Some(found) => {
                let size = self.document.len();
                self.view.jump_to(found, size);
            },
            None => {},
        }
    }

    /// Jumps to the last match before the byte under the cursor, if there is
    /// one.
    pub fn go_to_previous_search_result(&mut self)
        requires
            old(self).wf(),
        ensures
            *final(self) == (App { view: final(self).view, ..*old(self) }),
            final(self).view == (match old(self).search_results {
                Some(results) => match last_before(
                    results.match_addresses@,
                    old(self).view.cursor / 2,
                ) {
                    Some(found) => old(self).view.jumped_to(
                        found as int,
                        old(self).document@.len() as int,
                    ),
                    None => old(self).view,
                },
                None => old(self).view,
            }),
    {
        let current = self.view.cursor / 2;
        let target = match &self.search_results {
            Some(results) => results.previous_before(current),
            None => None,
        };
        match target {
            Some(found) => {
                let size = self.document.len();
                self.view.jump_to(found, size);
            },
            None => {},
        }
    }
}

} // verus!

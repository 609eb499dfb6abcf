//! The history of edits: what an undo and a redo do to the content, to the
//! two stacks and to the cursor.
use crate::overlay::MAX_SIZE;
use crate::viewport::{cursor_limit, Viewport};
use vstd::prelude::*;

verus! {

/// What an edit did to the content.
#[derive(Clone, Copy, Debug, PartialEq, Eq, Structural)]
pub enum Kind {
    /// A byte was given another value.
    Modification,
    /// A byte was put in.
    Insertion,
    /// A byte was taken out.
    Deletion,
}

/// An edit on one of the stacks: its kind, its address and a byte. On the
/// undo stack the byte is the value the address held before the edit, and
/// there is none for an insertion. On the redo stack it is the value the
/// edit gave the address.
pub type HistoryEntry = (Kind, u64, Option<u8>);

/// The edit recorded in `entry` can be taken back from `content`.
pub open spec fn applies(content: Seq<u8>, entry: HistoryEntry) -> bool {
    match entry.0 {
        Kind::Modification => entry.1 < content.len() && entry.2 is Some,
        Kind::Insertion => entry.1 < content.len() && entry.2 is None,
        Kind::Deletion => entry.1 <= content.len() < MAX_SIZE && entry.2 is Some,
    }
}

/// The content once the edit recorded in `entry` has been taken back.
pub open spec fn undone(content: Seq<u8>, entry: HistoryEntry) -> Seq<u8> {
    let address = entry.1 as int;
    if !applies(content, entry) {
        content
    } else {
        match entry.0 {
            Kind::Modification => content.update(address, entry.2->0),
            Kind::Insertion => content.remove(address),
            Kind::Deletion => content.insert(address, entry.2->0),
        }
    }
}

/// Every edit on the stack can be taken back, the last one first.
pub open spec fn replayable(content: Seq<u8>, stack: Seq<HistoryEntry>) -> bool
    decreases stack.len(),
{
    stack.len() > 0 ==> applies(content, stack.last()) && replayable(
        undone(content, stack.last()),
        stack.drop_last(),
    )
}

/// The content once every edit on the stack has been taken back.
pub open spec fn rewound(content: Seq<u8>, stack: Seq<HistoryEntry>) -> Seq<u8>
    decreases stack.len(),
{
    if stack.len() == 0 {
        content
    } else {
        rewound(undone(content, stack.last()), stack.drop_last())
    }
}

/// The edit kept in `entry` for a redo can be made on `content`.
pub open spec fn reapplies(content: Seq<u8>, entry: HistoryEntry) -> bool {
    match entry.0 {
        Kind::Modification => entry.1 < content.len() && entry.2 is Some,
        Kind::Insertion => entry.1 <= content.len() < MAX_SIZE && entry.2 is Some,
        Kind::Deletion => entry.1 < content.len(),
    }
}

/// The content once the edit kept in `entry` has been made again.
pub open spec fn redone(content: Seq<u8>, entry: HistoryEntry) -> Seq<u8> {
    let address = entry.1 as int;
    if !reapplies(content, entry) {
        content
    } else {
        match entry.0 {
            Kind::Modification => content.update(address, entry.2->0),
            Kind::Insertion => content.insert(address, entry.2->0),
            Kind::Deletion => content.remove(address),
        }
    }
}

/// What an undo of `entry` leaves on the redo stack: the edit with the value
/// it had given the address.
pub open spec fn kept_for_redo(content: Seq<u8>, entry: HistoryEntry) -> HistoryEntry {
    match entry.0 {
        Kind::Deletion => entry,
        _ => (entry.0, entry.1, Some(content[entry.1 as int])),
    }
}

/// What a redo of `entry` leaves on the undo stack: the edit with the value
/// the address held before it.
pub open spec fn recorded(content: Seq<u8>, entry: HistoryEntry) -> HistoryEntry {
    match entry.0 {
        Kind::Insertion => (Kind::Insertion, entry.1, None),
        _ => (entry.0, entry.1, Some(content[entry.1 as int])),
    }
}

/// What the editor holds, as far as the history is concerned.
pub struct EditorState {
    /// The logical content.
    pub content: Seq<u8>,
    /// The edits that can be taken back, the last one on top.
    pub undo: Seq<HistoryEntry>,
    /// The edits that were taken back, the last one on top.
    pub redo: Seq<HistoryEntry>,
    /// The cursor and the window.
    pub view: Viewport,
}

/// Where an undo of `entry` puts the cursor: on the byte of the edit, and on
/// its second nibble where a modification left the first one as it was.
pub open spec fn view_after_undo(view: Viewport, content: Seq<u8>, entry: HistoryEntry) -> Viewport {
    let size = undone(content, entry).len() as int;
    if entry.0 == Kind::Modification && content[entry.1 as int] & 0xf0 == entry.2->0 & 0xf0 {
        view.jumped_to_nibble(2 * entry.1 + 1, size)
    } else {
        view.jumped_to(entry.1 as int, size)
    }
}

/// Where a redo of `entry` puts the cursor: one nibble behind the first
/// nibble of the byte of the edit.
pub open spec fn view_after_redo(view: Viewport, content: Seq<u8>, entry: HistoryEntry) -> Viewport {
    let size = redone(content, entry).len() as int;
    view.jumped_to(entry.1 as int, size).moved_by(1, size)
}

/// The state after an undo: the last edit is taken back and kept for a redo.
/// With nothing to undo the state stays as it is.
pub open spec fn undo_step(s: EditorState) -> EditorState {
    if s.undo.len() == 0 {
        s
    } else if !applies(s.content, s.undo.last()) {
        EditorState { undo: s.undo.drop_last(), ..s }
    } else {
        EditorState {
            content: undone(s.content, s.undo.last()),
            undo: s.undo.drop_last(),
            redo: s.redo.push(kept_for_redo(s.content, s.undo.last())),
            view: view_after_undo(s.view, s.content, s.undo.last()),
        }
    }
}

/// The state after a redo: the edit taken back last is made again and
/// recorded anew. With nothing to redo, or where the edit cannot be made,
/// the content stays as it is.
pub open spec fn redo_step(s: EditorState) -> EditorState {
    if s.redo.len() == 0 {
        s
    } else if !reapplies(s.content, s.redo.last()) {
        EditorState { redo: s.redo.drop_last(), ..s }
    } else {
        EditorState {
            content: redone(s.content, s.redo.last()),
            undo: s.undo.push(recorded(s.content, s.redo.last())),
            redo: s.redo.drop_last(),
            view: view_after_redo(s.view, s.content, s.redo.last()),
        }
    }
}

/// The state once every edit on the undo stack has been taken back.
pub open spec fn undo_all_steps(s: EditorState) -> EditorState
    decreases s.undo.len(),
{
    if s.undo.len() == 0 {
        s
    } else {
        undo_all_steps(undo_step(s))
    }
}

/// An undo followed by a redo brings back the content and both stacks, for
/// each kind of edit. The cursor is back where it stood if it stood on the
/// second nibble of the byte of the edit, as it does after the first nibble
/// of a byte was typed.
pub proof fn lemma_undo_then_redo(s: EditorState)
    requires
        s.undo.len() > 0,
        applies(s.content, s.undo.last()),
        s.content.len() <= MAX_SIZE,
    ensures
        redo_step(undo_step(s)).content == s.content,
        redo_step(undo_step(s)).undo == s.undo,
        redo_step(undo_step(s)).redo == s.redo,
        redo_step(undo_step(s)).view == view_after_redo(
            undo_step(s).view,
            undo_step(s).content,
            undo_step(s).redo.last(),
        ),
        s.view.cursor == 2 * s.undo.last().1 + 1 && s.view.cursor <= cursor_limit(
            s.content.len() as int,
            s.view.mode,
        ) ==> redo_step(undo_step(s)).view.cursor == s.view.cursor,
{
    let entry = s.undo.last();
    let back = undo_step(s);
    let kept = kept_for_redo(s.content, entry);
    assert(back.redo.last() == kept);
    assert(back.redo.drop_last() =~= s.redo);
    assert(reapplies(back.content, kept));
    assert(redone(back.content, kept) =~= s.content);
    assert(recorded(back.content, kept) == entry);
    assert(s.undo.drop_last().push(entry) =~= s.undo);
}

/// Taking back an edit that has just been recorded for a change of the
/// content gives the content before the change.
pub proof fn lemma_record_then_undo(content: Seq<u8>, entry: HistoryEntry)
    requires
        reapplies(content, entry),
        content.len() <= MAX_SIZE,
    ensures
        applies(redone(content, entry), recorded(content, entry)),
        undone(redone(content, entry), recorded(content, entry)) == content,
{
    assert(undone(redone(content, entry), recorded(content, entry)) =~= content);
}

} // verus!

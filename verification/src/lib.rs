//! A hexadecimal editor for files: a store of bytes with an overlay of
//! pending changes, a history for undo and redo, a cursor with its window,
//! searches, and the commands of the command bar.
pub mod actions;
pub mod app;
pub mod command;
pub mod document;
pub mod glyph;
pub mod history;
pub mod overlay;
pub mod preview;
pub mod search;
pub mod store;
pub mod text;
pub mod viewport;

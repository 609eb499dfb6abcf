//! How a byte is shown in the pane of text.
use vstd::prelude::*;

verus! {

/// The classes of bytes that the display tells apart.
#[derive(Clone, Copy, Debug, PartialEq, Eq, Structural)]
pub enum ByteClass {
    /// The byte 0.
    Null,
    /// A space, a tab, a line feed, a form feed or a carriage return.
    Whitespace,
    /// A character of ASCII that leaves a mark.
    Printable,
    /// Any other byte below 0x80.
    Control,
    /// A byte from 0x80 on.
    High,
}

/// The byte is a space, a tab, a line feed, a form feed or a carriage return.
pub open spec fn is_whitespace(val: u8) -> bool {
    val == 0x20 || val == 0x09 || val == 0x0a || val == 0x0c || val == 0x0d
}

/// The class of a byte.
pub open spec fn class_of(val: u8) -> ByteClass {
    if val == 0 {
        ByteClass::Null
    } else if is_whitespace(val) {
        ByteClass::Whitespace
    } else if 0x20 < val < 0x7f {
        ByteClass::Printable
    } else if val < 0x80 {
        ByteClass::Control
    } else {
        ByteClass::High
    }
}

/// Tells the class of a byte.
pub fn byte_class(val: u8) -> (class: ByteClass)
    ensures
        class == class_of(val),
{
    if val == 0 {
        ByteClass::Null
    } else if val == 0x20 || val == 0x09 || val == 0x0a || val == 0x0c || val == 0x0d {
        ByteClass::Whitespace
    } else if 0x20 < val && val < 0x7f {
        ByteClass::Printable
    } else if val < 0x80 {
        ByteClass::Control
    } else {
        ByteClass::High
    }
}

/// The character that stands for a byte in the pane of text: the byte
/// itself where it leaves a mark, and a stand-in for every other byte.
pub open spec fn glyph_of(val: u8) -> char {
    match class_of(val) {
        ByteClass::Null => '0',
        ByteClass::Whitespace => if val == 0x20 {
            ' '
        } else {
            '_'
        },
        ByteClass::Printable => val as char,
        ByteClass::Control => '•',
        ByteClass::High => 'x',
    }
}

/// The character that stands for a byte in the pane of text.
pub fn ascii_char(val: u8) -> (c: char)
    ensures
        c == glyph_of(val),
{
    match byte_class(val) {
        ByteClass::Null => '0',
        ByteClass::Whitespace => if val == 0x20 {
            ' '
        } else {
            '_'
        },
        ByteClass::Printable => val as char,
        ByteClass::Control => '•',
        ByteClass::High => 'x',
    }
}

} // verus!

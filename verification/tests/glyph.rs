use hextazy::glyph::{ascii_char, byte_class, ByteClass};

#[test]
fn bytes_fall_into_five_classes() {
    assert_eq!(byte_class(0x00), ByteClass::Null);
    assert_eq!(byte_class(0x20), ByteClass::Whitespace);
    assert_eq!(byte_class(0x09), ByteClass::Whitespace);
    assert_eq!(byte_class(0x0b), ByteClass::Control);
    assert_eq!(byte_class(0x21), ByteClass::Printable);
    assert_eq!(byte_class(0x7e), ByteClass::Printable);
    assert_eq!(byte_class(0x7f), ByteClass::Control);
    assert_eq!(byte_class(0x80), ByteClass::High);
    assert_eq!(byte_class(0xff), ByteClass::High);
}

#[test]
fn every_byte_has_a_character_in_the_text_pane() {
    assert_eq!(ascii_char(0x00), '0');
    assert_eq!(ascii_char(0x20), ' ');
    assert_eq!(ascii_char(0x0a), '_');
    assert_eq!(ascii_char(b'A'), 'A');
    assert_eq!(ascii_char(b'~'), '~');
    assert_eq!(ascii_char(0x01), '\u{2022}');
    assert_eq!(ascii_char(0x7f), '\u{2022}');
    assert_eq!(ascii_char(0x80), 'x');
}

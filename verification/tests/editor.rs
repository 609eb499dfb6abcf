use hextazy::app::{App, CurrentEditor, WarningLevel};
use hextazy::history::Kind;
use hextazy::store::{Mode, SavePlan, StoreError};

fn open(bytes: &[u8]) -> App {
    App::new(String::from("/tmp/dir/sample.bin"), bytes.to_vec()).unwrap()
}

fn content(app: &App) -> Vec<u8> {
    (0..app.file_size()).map(|address| app.read_byte_addr(address).unwrap()).collect()
}

#[test]
fn a_new_editor_starts_at_the_top() {
    let app = open(&[1, 2, 3]);
    assert_eq!(app.filename, "sample.bin");
    assert_eq!(app.view.cursor, 0);
    assert_eq!(app.view.offset, 0);
    assert_eq!(app.view.lines_displayed, 0x100);
    assert_eq!(app.view.mode, Mode::Overwrite);
    assert_eq!(app.view.selection_start, None);
    assert_eq!(app.editor_mode, CurrentEditor::HexEditor);
    assert!(app.command_bar.is_none());
    assert!(app.search_results.is_none());
    assert!(app.error_msg.is_none());
    assert!(app.show_infobar);
    assert_eq!(app.file_size(), 3);
    assert_eq!(app.length_to_end(), 3);
    assert!(!app.document.is_modified());
}

#[test]
fn the_name_of_a_file_without_directories_is_kept() {
    let app = App::new(String::from("plain"), vec![]).unwrap();
    assert_eq!(app.filename, "plain");
    let app = App::new(String::from("a/b/"), vec![]).unwrap();
    assert_eq!(app.filename, "");
}

#[test]
fn an_overwritten_nibble_is_saved_in_place() {
    let mut app = open(&[0xDE, 0xAD, 0xBE, 0xEF]);
    app.write(0, 0xC);
    assert_eq!(app.read_byte_addr(0), Ok(0xCE));
    assert_eq!(app.file_size(), 4);
    match app.save_to_disk() {
        SavePlan::InPlace(patches) => assert_eq!(patches, vec![(0u64, 0xCEu8)]),
        SavePlan::Rewrite(_) => panic!("an overwrite alone is saved in place"),
    }
    app.saved();
    assert_eq!(app.read_byte_addr_file(0), Ok(0xCE));
    assert_eq!(content(&app), vec![0xCE, 0xAD, 0xBE, 0xEF]);
    assert!(!app.document.is_modified());
    assert_eq!(app.last_edit(), None);
}

#[test]
fn an_inserted_byte_is_saved_by_a_rewrite() {
    let mut app = open(&[0xDE, 0xAD, 0xBE, 0xEF]);
    app.view.mode = Mode::Insert;
    assert_eq!(app.write_byte(2, 0xFF, Mode::Insert), Ok(()));
    assert_eq!(app.read_byte_addr(2), Ok(0xFF));
    assert_eq!(app.read_byte_addr(3), Ok(0xBE));
    assert_eq!(app.file_size(), 5);
    match app.save_to_disk() {
        SavePlan::Rewrite(bytes) => assert_eq!(bytes, vec![0xDE, 0xAD, 0xFF, 0xBE, 0xEF]),
        SavePlan::InPlace(_) => panic!("an insertion is saved by a rewrite"),
    }
}

#[test]
fn a_deleted_byte_comes_back_on_undo() {
    let mut app = open(&[0xDE, 0xAD, 0xBE, 0xEF]);
    app.delete_byte(1);
    assert_eq!(app.file_size(), 3);
    assert_eq!(app.read_byte_addr(1), Ok(0xBE));
    assert_eq!(app.last_edit(), Some((Kind::Deletion, 1, Some(0xAD))));
    app.undo();
    assert_eq!(app.file_size(), 4);
    assert_eq!(app.read_byte_addr(1), Ok(0xAD));
    assert_eq!(app.view.cursor, 2);
    assert_eq!(app.last_edit(), None);
}

#[test]
fn typing_the_second_nibble_keeps_the_first() {
    let mut app = open(&[0xDE, 0xAD]);
    app.write(1, 0x5);
    assert_eq!(content(&app), vec![0xD5, 0xAD]);
    app.write(2, 0x1);
    assert_eq!(content(&app), vec![0xD5, 0x1D]);
    assert_eq!(app.last_edit(), Some((Kind::Modification, 1, Some(0xAD))));
}

#[test]
fn typing_while_inserting_puts_in_a_byte_on_the_first_nibble() {
    let mut app = open(&[0xDE, 0xAD]);
    app.view.mode = Mode::Insert;
    app.write(2, 0x7);
    assert_eq!(content(&app), vec![0xDE, 0x70, 0xAD]);
    assert_eq!(app.last_edit(), Some((Kind::Insertion, 1, None)));
    app.write(3, 0x9);
    assert_eq!(content(&app), vec![0xDE, 0x79, 0xAD]);
    app.write(6, 0x4);
    assert_eq!(content(&app), vec![0xDE, 0x79, 0xAD, 0x40]);
}

#[test]
fn typing_behind_the_end_warns_and_changes_nothing() {
    let mut app = open(&[0xDE]);
    app.write(2, 0x1);
    assert_eq!(content(&app), vec![0xDE]);
    assert!(matches!(app.error_msg, Some((WarningLevel::Warning, _))));
    assert_eq!(app.last_edit(), None);
    app.cleanup_error_message();
    assert!(app.error_msg.is_none());
    app.write_ascii(9, b'a');
    assert!(matches!(app.error_msg, Some((WarningLevel::Warning, _))));
    assert_eq!(app.write_byte(1, 3, Mode::Overwrite), Err(StoreError::NotFound));
}

#[test]
fn deleting_in_an_empty_content_warns() {
    let mut app = open(&[]);
    app.delete_byte(0);
    assert!(matches!(app.error_msg, Some((WarningLevel::Warning, _))));
    assert_eq!(app.file_size(), 0);
}

#[test]
fn write_ascii_replaces_the_byte_under_the_cursor() {
    let mut app = open(&[b'a', b'b', b'c']);
    app.write_ascii(3, b'X');
    assert_eq!(content(&app), vec![b'a', b'X', b'c']);
    assert_eq!(app.last_edit(), Some((Kind::Modification, 1, Some(b'b'))));
}

#[test]
fn undo_puts_the_cursor_on_the_nibble_that_changed() {
    let mut app = open(&[0x12, 0x34]);
    app.write(3, 0xF);
    assert_eq!(content(&app), vec![0x12, 0x3F]);
    app.undo();
    assert_eq!(content(&app), vec![0x12, 0x34]);
    assert_eq!(app.view.cursor, 3);
    app.write(2, 0xF);
    assert_eq!(content(&app), vec![0x12, 0xF4]);
    app.undo();
    assert_eq!(app.view.cursor, 2);
}

#[test]
fn undo_then_redo_brings_back_every_kind_of_edit() {
    let mut app = open(&[0xDE, 0xAD, 0xBE, 0xEF]);
    app.write(2, 0x1);
    app.change_cursor(3);
    let before = (content(&app), app.last_edit(), app.view.cursor);
    app.undo();
    assert_eq!(content(&app), vec![0xDE, 0xAD, 0xBE, 0xEF]);
    app.redo();
    assert_eq!((content(&app), app.last_edit(), app.view.cursor), before);

    app.view.mode = Mode::Insert;
    app.write(4, 0x2);
    let before = (content(&app), app.last_edit());
    assert_eq!(before.0, vec![0xDE, 0x1D, 0x20, 0xBE, 0xEF]);
    app.undo();
    assert_eq!(content(&app), vec![0xDE, 0x1D, 0xBE, 0xEF]);
    app.redo();
    assert_eq!((content(&app), app.last_edit()), before);
    assert_eq!(app.view.cursor, 5);

    app.delete_byte(3);
    let before = (content(&app), app.last_edit());
    assert_eq!(before.0, vec![0xDE, 0x1D, 0x20, 0xEF]);
    app.undo();
    assert_eq!(content(&app), vec![0xDE, 0x1D, 0x20, 0xBE, 0xEF]);
    app.redo();
    assert_eq!((content(&app), app.last_edit()), before);
}

#[test]
fn a_new_edit_empties_the_redo_stack() {
    let mut app = open(&[1, 2, 3]);
    app.write_ascii(0, 9);
    app.undo();
    app.write_ascii(2, 8);
    app.redo();
    assert_eq!(content(&app), vec![1, 8, 3]);
}

#[test]
fn undo_and_redo_without_history_do_nothing() {
    let mut app = open(&[1, 2, 3]);
    app.view.cursor = 4;
    app.undo();
    app.redo();
    app.undo_all();
    assert_eq!(content(&app), vec![1, 2, 3]);
    assert_eq!(app.view.cursor, 4);
    assert!(app.error_msg.is_none());
}

#[test]
fn undo_all_gives_back_the_file() {
    let file = vec![0xDE, 0xAD, 0xBE, 0xEF, 0x01];
    let mut app = open(&file);
    app.write(0, 0x1);
    app.write(3, 0x2);
    app.write_ascii(8, b'z');
    app.undo_all();
    assert_eq!(content(&app), file);
    assert_eq!(app.last_edit(), None);

    app.view.mode = Mode::Insert;
    app.write(4, 0x3);
    app.delete_byte(0);
    app.write(10, 0x4);
    app.delete_byte(2);
    app.write(1, 0x5);
    assert_eq!(app.file_size(), 5);
    app.undo_all();
    assert_eq!(app.file_size(), 5);
    assert_eq!(content(&app), file);
}

#[test]
fn the_display_reads_sixteen_bytes_at_a_time() {
    let bytes: Vec<u8> = (0..40).collect();
    let mut app = open(&bytes);
    app.reset();
    let (line, length) = app.read_16_length();
    assert_eq!(length, 16);
    assert_eq!(line, (0..16).collect::<Vec<u8>>());
    let (line, length) = app.read_16_length();
    assert_eq!((line, length), ((16..32).collect::<Vec<u8>>(), 16));
    let (line, length) = app.read_16_length();
    assert_eq!((line, length), ((32..40).collect::<Vec<u8>>(), 8));
    let (line, length) = app.read_16_length();
    assert_eq!((line, length), (vec![], 0));
    app.view.offset = 32;
    app.reset();
    assert_eq!(app.read_byte(), Some(32));
    assert_eq!(app.last_address_read, 33);
    assert_eq!(app.length_to_end(), 8);
    app.last_address_read = 40;
    assert_eq!(app.read_byte(), None);
    assert_eq!(app.last_address_read, 41);
}

#[test]
fn messages_replace_one_another() {
    let mut app = open(&[]);
    app.add_error_message(WarningLevel::Info, String::from("first"));
    app.add_error_message(WarningLevel::Error, String::from("second"));
    assert_eq!(app.error_msg, Some((WarningLevel::Error, String::from("second"))));
    app.cleanup_error_message();
    assert_eq!(app.error_msg, None);
}

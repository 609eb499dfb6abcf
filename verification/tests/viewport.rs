use hextazy::app::{App, CurrentEditor};
use hextazy::store::Mode;
use hextazy::viewport::Viewport;

fn view(cursor: u64, offset: u64, lines: u16, mode: Mode) -> Viewport {
    Viewport { cursor, offset, lines_displayed: lines, mode, selection_start: None }
}

#[test]
fn a_step_over_the_bottom_of_the_window_scrolls() {
    let mut v = view(0, 0, 1, Mode::Overwrite);
    v.change_cursor(0x20, 48);
    assert_eq!((v.cursor, v.offset), (32, 16));
}

#[test]
fn a_step_below_a_content_of_one_line_stays_on_it() {
    let mut v = view(0, 0, 1, Mode::Overwrite);
    v.change_cursor(0x20, 8);
    assert_eq!((v.cursor, v.offset), (0, 0));
    let mut v = view(7, 0, 1, Mode::Overwrite);
    v.change_cursor(0x20, 8);
    assert_eq!((v.cursor, v.offset), (7, 0));
}

#[test]
fn the_cursor_stops_at_the_last_nibble_in_its_column() {
    let mut v = view(2 * 16 + 5, 0, 10, Mode::Overwrite);
    v.change_cursor(0x20, 40);
    assert_eq!(v.cursor, 2 * 32 + 5);
    v.change_cursor(0x20, 40);
    assert_eq!(v.cursor, 2 * 32 + 5);
    let mut v = view(2 * 16 + 2 * 10, 0, 10, Mode::Overwrite);
    v.change_cursor(0x20, 40);
    assert_eq!(v.cursor, 2 * 16 + 2 * 10);
    let mut v = view(2 * 16 + 3, 0, 10, Mode::Overwrite);
    v.change_cursor(0x40, 32);
    assert_eq!(v.cursor, 2 * 16 + 3);
    let mut v = view(79, 0, 10, Mode::Overwrite);
    v.change_cursor(1, 40);
    assert_eq!(v.cursor, 79);
}

#[test]
fn the_cursor_may_stand_behind_the_content_while_inserting() {
    let mut v = view(79, 0, 10, Mode::Insert);
    v.change_cursor(1, 40);
    assert_eq!(v.cursor, 80);
    v.change_cursor(1, 40);
    assert_eq!(v.cursor, 80);
    let mut v = view(0, 0, 10, Mode::Insert);
    v.change_cursor(1, 0);
    assert_eq!(v.cursor, 0);
}

#[test]
fn a_step_above_the_top_ends_in_the_first_line() {
    let mut v = view(2 * 16 * 5 + 9, 64, 4, Mode::Overwrite);
    v.change_cursor(-1000, 400);
    assert_eq!((v.cursor, v.offset), (9, 0));
    let mut v = view(3, 0, 4, Mode::Overwrite);
    v.change_cursor(-4, 400);
    assert_eq!((v.cursor, v.offset), (3, 0));
}

#[test]
fn the_window_follows_the_cursor() {
    let mut v = view(2 * 32, 32, 2, Mode::Overwrite);
    v.change_cursor(-1, 400);
    assert_eq!((v.cursor, v.offset), (63, 16));
    let mut v = view(2 * 32 + 63, 32, 2, Mode::Overwrite);
    v.change_cursor(1, 400);
    assert_eq!((v.cursor, v.offset), (128, 48));
    let mut v = view(0, 0, 2, Mode::Overwrite);
    v.change_cursor(0x100, 400);
    assert_eq!((v.cursor, v.offset), (256, 128));
    let mut v = view(2 * 320, 320, 2, Mode::Overwrite);
    v.change_cursor(-0x100, 400);
    assert_eq!((v.cursor, v.offset), (384, 192));
}

#[test]
fn the_cursor_stays_in_range_and_in_the_window() {
    for size in [1u64, 7, 16, 17, 31, 32, 33, 100] {
        for mode in [Mode::Overwrite, Mode::Insert] {
            for lines in [1u16, 2, 5] {
                let mut v = view(0, 0, lines, mode);
                for delta in [1i64, 32, -1, 7, 64, -32, 1000, -7, 2, -1000, 31, 33, 0x7fff_ffff] {
                    v.change_cursor(delta, size);
                    let limit = match mode {
                        Mode::Overwrite => 2 * size - 1,
                        Mode::Insert => 2 * size,
                    };
                    assert!(v.cursor <= limit);
                    assert!(v.offset % 16 == 0);
                    assert!(v.offset <= v.cursor / 2);
                    assert!(v.cursor / 2 <= v.offset + lines as u64 * 16 - 1);
                }
            }
        }
    }
}

#[test]
fn scrolling_stops_at_both_ends() {
    let mut v = view(0, 32, 4, Mode::Overwrite);
    v.change_offset(-48, 400);
    assert_eq!(v.offset, 0);
    let mut v = view(2 * 380, 352, 4, Mode::Overwrite);
    v.change_offset(16, 400);
    assert_eq!(v.offset, 368);
    v.change_offset(16, 400);
    assert_eq!(v.offset, 384);
    v.change_offset(160, 400);
    assert_eq!(v.offset, 384);
    let mut v = view(2 * 390, 352, 4, Mode::Overwrite);
    v.change_offset(64, 405);
    assert_eq!(v.offset, 384);
    let mut v = view(2 * 401, 352, 4, Mode::Overwrite);
    v.change_offset(64, 405);
    assert_eq!(v.offset, 400);
    let mut v = view(0, 0, 4, Mode::Overwrite);
    v.change_offset(16, 10);
    assert_eq!(v.offset, 0);
    v.change_offset(16, 0);
    assert_eq!(v.offset, 0);
    let mut v = view(0, 0, 4, Mode::Overwrite);
    v.change_offset(21, 400);
    assert_eq!(v.offset, 16);
}

#[test]
fn a_scroll_alone_may_leave_the_cursor_behind() {
    let mut v = view(0, 0, 1, Mode::Overwrite);
    v.change_offset(16, 64);
    assert_eq!((v.cursor, v.offset), (0, 16));
}

#[test]
fn a_jump_inside_the_window_moves_the_cursor_alone() {
    let mut v = view(0, 32, 4, Mode::Overwrite);
    v.jump_to(40, 400);
    assert_eq!((v.cursor, v.offset), (80, 32));
    v.jump_to(95, 400);
    assert_eq!((v.cursor, v.offset), (190, 32));
}

#[test]
fn a_jump_outside_the_window_centres_it() {
    let mut v = view(0, 0, 4, Mode::Overwrite);
    v.jump_to(200, 400);
    assert_eq!((v.cursor, v.offset), (400, 160));
    v.jump_to(5, 400);
    assert_eq!((v.cursor, v.offset), (10, 0));
    let mut v = view(0, 0, 1, Mode::Overwrite);
    v.jump_to(37, 400);
    assert_eq!((v.cursor, v.offset), (74, 32));
}

#[test]
fn a_jump_behind_the_content_lands_on_the_last_byte() {
    let mut v = view(0, 0, 4, Mode::Overwrite);
    v.jump_to(1000, 400);
    assert_eq!((v.cursor, v.offset), (798, 352));
    v.cursor_jump_to(801, 400);
    assert_eq!(v.cursor, 798);
    v.cursor_jump_to(799, 400);
    assert_eq!(v.cursor, 799);
    v.jump_to(u64::MAX, 400);
    assert_eq!(v.cursor, 798);
    let mut v = view(6, 0, 4, Mode::Overwrite);
    v.jump_to(3, 0);
    assert_eq!((v.cursor, v.offset), (0, 0));
}

#[test]
fn a_selection_moves_as_a_whole_or_not_at_all() {
    let mut v = view(10, 0, 4, Mode::Overwrite);
    v.selection_start = Some(4);
    v.move_selection(2, 8);
    assert_eq!((v.cursor, v.selection_start), (12, Some(6)));
    v.move_selection(6, 8);
    assert_eq!((v.cursor, v.selection_start), (12, Some(6)));
    v.move_selection(-6, 8);
    assert_eq!((v.cursor, v.selection_start), (6, Some(0)));
    v.move_selection(-2, 8);
    assert_eq!((v.cursor, v.selection_start), (6, Some(0)));
    assert!(v.is_selected(0));
    assert!(v.is_selected(3));
    assert!(!v.is_selected(4));
    v.selection_start = None;
    assert!(!v.is_selected(3));
    v.move_selection(2, 8);
    assert_eq!((v.cursor, v.selection_start), (8, None));
}

fn open(size: u8) -> App {
    App::new(String::from("f"), (0..size).collect()).unwrap()
}

#[test]
fn the_arrow_keys_take_the_window_along() {
    let mut app = open(100);
    app.view.lines_displayed = 2;
    app.view.cursor = 32 + 4;
    app.cursor_down();
    assert_eq!((app.view.cursor, app.view.offset), (68, 16));
    app.cursor_up();
    assert_eq!((app.view.cursor, app.view.offset), (36, 16));
    app.cursor_up();
    assert_eq!((app.view.cursor, app.view.offset), (4, 0));
    app.cursor_up();
    assert_eq!((app.view.cursor, app.view.offset), (4, 0));
}

#[test]
fn a_page_is_one_line_less_than_the_window() {
    let mut app = open(200);
    app.view.lines_displayed = 4;
    app.view.cursor = 3;
    app.page_down();
    assert_eq!((app.view.cursor, app.view.offset), (99, 48));
    app.page_up();
    assert_eq!((app.view.cursor, app.view.offset), (3, 0));
}

#[test]
fn the_ends_of_a_line_and_of_the_content() {
    let mut app = open(100);
    app.view.lines_displayed = 4;
    app.view.cursor = 32 + 7;
    app.line_end();
    assert_eq!(app.view.cursor, 63);
    app.line_start();
    assert_eq!(app.view.cursor, 32);
    app.view.cursor = 32 + 7;
    app.file_end();
    assert_eq!(app.view.cursor, 6 * 32 + 7);
    app.view.cursor = 32 + 9;
    app.file_end();
    assert_eq!(app.view.cursor, 5 * 32 + 9);
    app.file_start();
    assert_eq!((app.view.cursor, app.view.offset), (9, 0));
}

#[test]
fn leaving_insert_mode_brings_the_cursor_back_into_the_content() {
    let mut app = open(4);
    app.toggle_mode();
    assert_eq!(app.view.mode, Mode::Insert);
    app.change_cursor(100);
    assert_eq!(app.view.cursor, 0);
    app.change_cursor(8);
    assert_eq!(app.view.cursor, 8);
    app.toggle_mode();
    assert_eq!((app.view.mode, app.view.cursor), (Mode::Overwrite, 7));
    let mut empty = open(0);
    empty.toggle_mode();
    empty.toggle_mode();
    assert_eq!((empty.view.mode, empty.view.cursor), (Mode::Overwrite, 0));
}

#[test]
fn typing_moves_the_cursor_on() {
    let mut app = open(4);
    app.type_hex(0xA);
    app.type_hex(0xB);
    assert_eq!(app.read_byte_addr(0), Ok(0xAB));
    assert_eq!(app.view.cursor, 2);
    app.editor_mode = CurrentEditor::AsciiEditor;
    app.type_ascii(b'q');
    assert_eq!(app.read_byte_addr(1), Ok(b'q'));
    assert_eq!(app.view.cursor, 4);
}

#[test]
fn backspace_removes_while_inserting_and_goes_back_while_overwriting() {
    let mut app = open(4);
    app.view.mode = Mode::Insert;
    app.view.cursor = 4;
    app.backspace();
    assert_eq!((app.file_size(), app.view.cursor), (3, 2));
    assert_eq!(app.read_byte_addr(1), Ok(2));
    app.view.cursor = 3;
    app.backspace();
    assert_eq!((app.file_size(), app.view.cursor), (2, 2));
    app.view.cursor = 0;
    app.backspace();
    assert_eq!((app.file_size(), app.view.cursor), (2, 0));
    app.delete_under_cursor();
    assert_eq!(app.file_size(), 1);

    let mut app = open(4);
    app.view.cursor = 5;
    app.backspace();
    assert_eq!(app.view.cursor, 4);
    app.editor_mode = CurrentEditor::AsciiEditor;
    app.backspace();
    assert_eq!(app.view.cursor, 2);
    app.editor_mode = CurrentEditor::HexEditor;
    app.type_hex(0xF);
    assert_eq!(app.read_byte_addr(1), Ok(0xF1));
    app.backspace();
    assert_eq!(app.read_byte_addr(1), Ok(1));
    assert_eq!(app.view.cursor, 2);
    app.delete_under_cursor();
    assert_eq!(app.file_size(), 4);
}

#[test]
fn quitting_with_changes_asks_first() {
    let mut app = open(4);
    assert!(app.request_quit());
    app.type_hex(1);
    assert!(!app.request_quit());
    assert_eq!(app.editor_mode, CurrentEditor::ExitPopup);
    app.escape();
    assert_eq!(app.editor_mode, CurrentEditor::HexEditor);
    app.start_selection();
    assert_eq!(app.view.selection_start, Some(1));
    app.escape();
    assert_eq!(app.view.selection_start, None);
    app.switch_pane();
    assert_eq!(app.editor_mode, CurrentEditor::AsciiEditor);
    app.switch_pane();
    assert_eq!(app.editor_mode, CurrentEditor::HexEditor);
}

#[test]
fn a_jump_always_lands_inside_the_window() {
    for size in [1u64, 15, 16, 17, 64, 100, 1000] {
        for lines in [1u16, 2, 3, 8] {
            for offset in [0u64, 16, 48, 512] {
                for address in [0u64, 1, 15, 16, 17, 63, 99, 500, 999, 5000] {
                    let mut v = view(0, offset, lines, Mode::Overwrite);
                    v.jump_to(address, size);
                    assert!(v.cursor / 2 <= size - 1);
                    assert_eq!(v.cursor / 2, address.min(size - 1));
                    assert!(v.offset % 16 == 0);
                    assert!(v.offset <= v.cursor / 2);
                    assert!(v.cursor / 2 <= v.offset + lines as u64 * 16 - 1);
                }
            }
        }
    }
}

#[test]
fn a_scroll_that_asks_for_a_window_with_the_cursor_keeps_it() {
    for size in [40u64, 64, 100, 400] {
        for lines in [2u16, 4] {
            for cursor in [0u64, 33, 70, 2 * size - 1] {
                for offset in [0u64, 16, 32, 48] {
                    for delta in [-32i64, -16, 0, 16, 32, 160] {
                        let asked = (offset as i64 + delta).max(0) as u64;
                        if asked * 2 <= cursor && cursor < asked * 2 + lines as u64 * 32 {
                            let mut v = view(cursor, offset, lines, Mode::Overwrite);
                            v.change_offset(delta, size);
                            assert!(v.offset * 2 <= cursor);
                            assert!(cursor < v.offset * 2 + lines as u64 * 32);
                        }
                    }
                }
            }
        }
    }
}

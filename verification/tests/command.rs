use hextazy::app::{App, CommandBar, WarningLevel};
use hextazy::command::{
    command_kind, parse_command, probe, CommandKind, CommandOutcome, ParsedCommand, Probe,
};
use hextazy::store::Mode;
use hextazy::text::{address_of_command, convert_hexstring_to_vec, is_hex_pairs, parse_seek};

const NONE: Probe = Probe {
    quit: false,
    address: false,
    hex_or_text: false,
    word: false,
    hex: false,
    hex_reversed: false,
    text: false,
    empty: false,
};

#[test]
fn the_first_form_of_a_line_decides() {
    assert_eq!(command_kind(Probe { quit: true, address: true, ..NONE }, ":q"), CommandKind::Quit);
    assert_eq!(command_kind(Probe { address: true, word: true, ..NONE }, ""), CommandKind::Jump);
    assert_eq!(
        command_kind(Probe { hex_or_text: true, word: true, ..NONE }, ""),
        CommandKind::SearchHexOrText
    );
    assert_eq!(command_kind(Probe { word: true, text: true, ..NONE }, ""), CommandKind::SearchWord);
    assert_eq!(command_kind(Probe { hex: true, empty: true, ..NONE }, ""), CommandKind::SearchHex);
    assert_eq!(
        command_kind(Probe { hex_reversed: true, ..NONE }, ""),
        CommandKind::SearchHexReversed
    );
    assert_eq!(command_kind(Probe { text: true, empty: true, ..NONE }, ""), CommandKind::SearchText);
    assert_eq!(command_kind(Probe { empty: true, ..NONE }, ":i"), CommandKind::ClearSearch);
}

#[test]
fn a_line_of_no_form_is_taken_by_its_words() {
    assert_eq!(command_kind(NONE, ":hide infobar"), CommandKind::HideInfobar);
    assert_eq!(command_kind(NONE, ":hexyl"), CommandKind::HideInfobar);
    assert_eq!(command_kind(NONE, ":show infobar"), CommandKind::ShowInfobar);
    assert_eq!(command_kind(NONE, ":!hexyl"), CommandKind::ShowInfobar);
    assert_eq!(command_kind(NONE, ":i"), CommandKind::InsertMode);
    assert_eq!(command_kind(NONE, ":insert"), CommandKind::InsertMode);
    assert_eq!(command_kind(NONE, ":mode insert"), CommandKind::InsertMode);
    assert_eq!(command_kind(NONE, ":o"), CommandKind::OverwriteMode);
    assert_eq!(command_kind(NONE, ":overwrite"), CommandKind::OverwriteMode);
    assert_eq!(command_kind(NONE, ":mode overwrite"), CommandKind::OverwriteMode);
    assert_eq!(command_kind(NONE, ":inserts"), CommandKind::Unknown);
    assert_eq!(command_kind(NONE, ""), CommandKind::Unknown);
}

#[test]
fn the_forms_are_found_by_their_patterns() {
    assert_eq!(probe(":q"), Probe { quit: true, ..NONE });
    assert_eq!(probe(": q "), Probe { quit: true, ..NONE });
    assert_eq!(probe(":0x1F"), Probe { address: true, ..NONE });
    assert_eq!(probe("/42ff"), Probe { hex_or_text: true, word: true, ..NONE });
    assert_eq!(probe("/hello"), Probe { word: true, ..NONE });
    assert_eq!(probe(":x/42ff"), Probe { hex: true, ..NONE });
    assert_eq!(probe(":xi/42ff"), Probe { hex_reversed: true, ..NONE });
    assert_eq!(probe(":s/hello"), Probe { text: true, ..NONE });
    assert_eq!(probe("/"), Probe { empty: true, ..NONE });
    assert_eq!(probe(":insert"), NONE);
    assert_eq!(probe("q"), NONE);
}

#[test]
fn a_command_is_taken_apart() {
    let parsed = parse_command(":q");
    assert_eq!((parsed.kind, parsed.address, parsed.argument), (CommandKind::Quit, None, None));
    let parsed = parse_command(":0x1f");
    assert_eq!((parsed.kind, parsed.address, parsed.argument), (CommandKind::Jump, Some(31), None));
    let parsed = parse_command(":0X1ffffffffffffffff");
    assert_eq!((parsed.kind, parsed.address), (CommandKind::Jump, None));
    let parsed = parse_command(":/42ffzz");
    assert_eq!(
        (parsed.kind, parsed.argument),
        (CommandKind::SearchHexOrText, Some(String::from("42ff")))
    );
    let parsed = parse_command("/ hello world");
    assert_eq!((parsed.kind, parsed.argument), (CommandKind::SearchWord, Some(String::from("hello"))));
    let parsed = parse_command(":x/4142");
    assert_eq!((parsed.kind, parsed.argument), (CommandKind::SearchHex, Some(String::from("4142"))));
    let parsed = parse_command(":xi /4142");
    assert_eq!(
        (parsed.kind, parsed.argument),
        (CommandKind::SearchHexReversed, Some(String::from("4142")))
    );
    let parsed = parse_command(":s/abc");
    assert_eq!((parsed.kind, parsed.argument), (CommandKind::SearchText, Some(String::from("abc"))));
    let parsed = parse_command(":mode insert");
    assert_eq!((parsed.kind, parsed.address, parsed.argument), (CommandKind::InsertMode, None, None));
}

fn open(bytes: &[u8], command: &str) -> App {
    let mut app = App::new(String::from("f"), bytes.to_vec()).unwrap();
    app.view.lines_displayed = 4;
    app.command_bar = Some(CommandBar { command: String::from(command), cursor: 1 });
    app
}

#[test]
fn a_search_typed_in_the_command_bar_finds_and_jumps() {
    let mut app = open(&[0xDE, 0xAD, 0xBE, 0xEF, 0xBE], "/BE");
    assert_eq!(app.interpret_command(), CommandOutcome::Continue);
    let results = app.search_results.as_ref().unwrap();
    assert_eq!((results.match_addresses.clone(), results.query_length), (vec![2, 4], 2));
    assert_eq!(app.view.cursor, 4);
    app.go_to_next_search_result();
    assert_eq!(app.view.cursor, 8);
    app.go_to_next_search_result();
    assert_eq!(app.view.cursor, 8);
}

#[test]
fn commands_move_search_and_set() {
    let mut app = open(&[0; 200], ":0x64");
    assert_eq!(app.interpret_command(), CommandOutcome::Continue);
    assert_eq!((app.view.cursor, app.view.offset), (200, 64));
    assert!(app.error_msg.is_none());

    let mut app = open(&[0; 200], ":0xffffffffffffffffff");
    app.interpret_command();
    assert!(matches!(app.error_msg, Some((WarningLevel::Warning, _))));
    assert_eq!(app.view.cursor, 0);

    let mut app = open(b"..AB..\x41\x42..BA", ":x/4142");
    app.interpret_command();
    assert_eq!(app.search_results.as_ref().unwrap().match_addresses, vec![2, 6]);
    assert_eq!(app.search_results.as_ref().unwrap().query_length, 2);
    assert_eq!(app.view.cursor, 4);
    app.command_bar = Some(CommandBar { command: String::from(":xi/4142"), cursor: 1 });
    app.interpret_command();
    assert_eq!(app.search_results.as_ref().unwrap().match_addresses, vec![10]);
    app.command_bar = Some(CommandBar { command: String::from(":s/BA"), cursor: 1 });
    app.interpret_command();
    assert_eq!(app.search_results.as_ref().unwrap().match_addresses, vec![10]);
    app.command_bar = Some(CommandBar { command: String::from("/nothing"), cursor: 1 });
    app.interpret_command();
    assert!(app.search_results.is_none());
    app.search_results = hextazy::search::search_hex(&[1], vec![1]);
    app.command_bar = Some(CommandBar { command: String::from("/"), cursor: 1 });
    app.interpret_command();
    assert!(app.search_results.is_none());

    let mut app = open(&[1, 2, 3], ":q");
    assert_eq!(app.interpret_command(), CommandOutcome::Quit);
    app.command_bar = Some(CommandBar { command: String::from(":i"), cursor: 1 });
    assert_eq!(app.interpret_command(), CommandOutcome::Continue);
    assert_eq!(app.view.mode, Mode::Insert);
    app.command_bar = Some(CommandBar { command: String::from(":overwrite"), cursor: 1 });
    app.interpret_command();
    assert_eq!(app.view.mode, Mode::Overwrite);
    app.command_bar = Some(CommandBar { command: String::from(":hexyl"), cursor: 1 });
    app.interpret_command();
    assert!(!app.show_infobar);
    app.command_bar = Some(CommandBar { command: String::from(":show infobar"), cursor: 1 });
    app.interpret_command();
    assert!(app.show_infobar);
    app.command_bar = None;
    assert_eq!(app.interpret_command(), CommandOutcome::Continue);
}

#[test]
fn a_search_for_text_outside_ascii_is_turned_down() {
    let mut app = open(b"abc", "");
    let outcome = app.run_command(ParsedCommand {
        kind: CommandKind::SearchText,
        address: None,
        argument: Some(String::from("\u{e9}t\u{e9}")),
    });
    assert_eq!(outcome, CommandOutcome::Continue);
    assert!(matches!(app.error_msg, Some((WarningLevel::Info, _))));
    assert!(app.search_results.is_none());
    let mut app = open(b"abc", "");
    app.run_command(ParsedCommand {
        kind: CommandKind::SearchHex,
        address: None,
        argument: Some(String::from("6g")),
    });
    assert!(app.search_results.is_none());
    assert!(app.error_msg.is_none());
}

#[test]
fn addresses_are_read_from_the_end_of_a_command() {
    assert_eq!(address_of_command(":0x10"), Some(16));
    assert_eq!(address_of_command(": 0XfF"), Some(255));
    assert_eq!(address_of_command(":0xffffffffffffffff"), Some(u64::MAX));
    assert_eq!(address_of_command(":0x10000000000000000"), None);
    assert_eq!(address_of_command(":0x"), None);
    assert_eq!(address_of_command(":10"), None);
    assert_eq!(address_of_command(""), None);
}

#[test]
fn a_seek_is_decimal_before_it_is_hexadecimal() {
    assert_eq!(parse_seek("1024"), Some(1024));
    assert_eq!(parse_seek("+7"), Some(7));
    assert_eq!(parse_seek("0xc0ffee"), Some(0xc0ffee));
    assert_eq!(parse_seek("c0ffee"), Some(0xc0ffee));
    assert_eq!(parse_seek("0x0x10"), Some(16));
    assert_eq!(parse_seek("10"), Some(10));
    assert_eq!(parse_seek("18446744073709551615"), Some(u64::MAX));
    assert_eq!(parse_seek("18446744073709551616"), None);
    assert_eq!(parse_seek("99999999999999999"), Some(99999999999999999));
    assert_eq!(parse_seek("9999999999999999999a"), None);
    assert_eq!(parse_seek("999999999999999a"), Some(0x999999999999999a));
    assert_eq!(parse_seek("ffffffffffffffffff"), None);
    assert_eq!(parse_seek(""), None);
    assert_eq!(parse_seek("+"), None);
    assert_eq!(parse_seek("0x"), None);
    assert_eq!(parse_seek("-1"), None);
    assert_eq!(parse_seek("12 "), None);
    assert_eq!(parse_seek("0X10"), None);
}

#[test]
fn pairs_of_digits_become_bytes() {
    assert!(is_hex_pairs("42ff"));
    assert!(is_hex_pairs(""));
    assert!(!is_hex_pairs("42f"));
    assert!(!is_hex_pairs("4g"));
    assert_eq!(convert_hexstring_to_vec("42ff"), vec![0x42, 0xff]);
    assert_eq!(convert_hexstring_to_vec("00A1b2"), vec![0x00, 0xa1, 0xb2]);
    assert_eq!(convert_hexstring_to_vec(""), Vec::<u8>::new());
}

//! The commands of the command bar: which command a line is, what it asks
//! for, and what the editor does on it.
//!
//! The forms of the commands are regular expressions, matched by the `regex`
//! crate. What the crate finds for a pattern and a line is taken on trust
//! and goes by a name of its own; everything that follows from it is
//! verified.
use crate::app::{App, WarningLevel};
use crate::search::{
    first_after, occurrences, occurrences_of_either, search_ascii, search_hex, search_hex_ascii,
    search_hex_reverse, SearchResults,
};
use crate::store::Mode;
use crate::text::{
    address_of, address_of_command, bytes_of_pairs, convert_hexstring_to_vec, hex_pairs,
    is_hex_pairs, same_text,
};
use crate::viewport::Viewport;
use vstd::prelude::*;
use vstd::utf8::{encode_utf8, is_ascii_chars};

verus! {

/// The forms a command can have.
#[derive(Clone, Copy, Debug, PartialEq, Eq, Structural)]
pub enum Form {
    /// `:q`
    Quit,
    /// `:0x1f`, a jump to an address
    Address,
    /// `/42ff`, a search for bytes and for their digits as text
    HexOrText,
    /// `/word`, a search for text
    Word,
    /// `:x/42ff`, a search for bytes
    Hex,
    /// `:xi/42ff`, a search for bytes read back to front
    HexReversed,
    /// `:s/word`, a search for text
    Text,
    /// `/`, the end of a search
    Empty,
}

impl Form {
    /// The regular expression of the form.
    pub open spec fn pattern(self) -> Seq<char> {
        match self {
            Form::Quit => r"^:\s?+q\s?+$"@,
            Form::Address => r"^:\s?+0[xX][0-9a-fA-F]+$"@,
            Form::HexOrText => r"^:?\s?+/([a-fA-F0-9]{2}+)"@,
            Form::Word => r"^:?/\s?+(\w+)"@,
            Form::Hex => r"^:\s?+x\s?+/([0-9a-fA-F]{2}+)$"@,
            Form::HexReversed => r"^:\s?+xi\s?+/([0-9a-fA-F]{2}+)$"@,
            Form::Text => r"^:\s?+s\s?+/\s?+(\w+)"@,
            Form::Empty => r"^:?\s?+/$"@,
        }
    }

    /// The regular expression of the form.
    pub fn regex(self) -> (p: &'static str)
        ensures
            p@ == self.pattern(),
    {
        match self {
            Form::Quit => r"^:\s?+q\s?+$",
            Form::Address => r"^:\s?+0[xX][0-9a-fA-F]+$",
            Form::HexOrText => r"^:?\s?+/([a-fA-F0-9]{2}+)",
            Form::Word => r"^:?/\s?+(\w+)",
            Form::Hex => r"^:\s?+x\s?+/([0-9a-fA-F]{2}+)$",
            Form::HexReversed => r"^:\s?+xi\s?+/([0-9a-fA-F]{2}+)$",
            Form::Text => r"^:\s?+s\s?+/\s?+(\w+)",
            Form::Empty => r"^:?\s?+/$",
        }
    }
}

/// What `Regex::is_match` of the `regex` crate answers for the regular
/// expression `pattern` and the text `text`, or nothing where `Regex::new`
/// refuses the pattern.
pub uninterp spec fn pattern_matches(pattern: Seq<char>, text: Seq<char>) -> Option<bool>;

/// What the first group of the regular expression `pattern` holds in the
/// first match that `Regex::captures` of the `regex` crate finds in `text`,
/// or nothing where there is no match, where the group took no part in it,
/// or where `Regex::new` refuses the pattern.
pub uninterp spec fn pattern_capture(pattern: Seq<char>, text: Seq<char>) -> Option<Seq<char>>;

/// Compiles `pattern` with `regex::Regex::new` and asks `Regex::is_match`
/// whether it matches anywhere in `text`. The answer is a function of the
/// pattern and the text alone; the contract names it and claims no more.
#[verifier::external_body]
fn regex_is_match(pattern: &str, text: &str) -> (r: Option<bool>)
    ensures
        r == pattern_matches(pattern@, text@),
{
    regex::Regex::new(pattern).ok().map(|compiled| compiled.is_match(text))
}

/// Compiles `pattern` with `regex::Regex::new`, asks `Regex::captures` for
/// the first match in `text` and copies what `Captures::get` holds for group
/// 1. The answer is a function of the pattern and the text alone; the
/// contract names it and claims no more.
#[verifier::external_body]
fn regex_first_group(pattern: &str, text: &str) -> (r: Option<String>)
    ensures
        r is Some <==> pattern_capture(pattern@, text@) is Some,
        r matches Some(group) ==> group@ == pattern_capture(pattern@, text@)->0,
{
    let found = regex::Regex::new(pattern).ok()?.captures(text)?;
    found.get(1).map(|group| group.as_str().to_string())
}

/// Which forms a line has.
#[derive(Clone, Copy, Debug, PartialEq, Eq, Structural)]
pub struct Probe {
    pub quit: bool,
    pub address: bool,
    pub hex_or_text: bool,
    pub word: bool,
    pub hex: bool,
    pub hex_reversed: bool,
    pub text: bool,
    pub empty: bool,
}

/// The line has the form `form`.
pub open spec fn has_form(form: Form, command: Seq<char>) -> bool {
    pattern_matches(form.pattern(), command) == Some(true)
}

/// The forms that the line `command` has.
pub open spec fn probe_of(command: Seq<char>) -> Probe {
    Probe {
        quit: has_form(Form::Quit, command),
        address: has_form(Form::Address, command),
        hex_or_text: has_form(Form::HexOrText, command),
        word: has_form(Form::Word, command),
        hex: has_form(Form::Hex, command),
        hex_reversed: has_form(Form::HexReversed, command),
        text: has_form(Form::Text, command),
        empty: has_form(Form::Empty, command),
    }
}

/// Whether the line has the form `form`.
fn matches_form(form: Form, command: &str) -> (b: bool)
    ensures
        b == has_form(form, command@),
{
    match regex_is_match(form.regex(), command) {
        Some(found) => found,
        None => false,
    }
}

/// Finds the forms that the line `command` has.
pub fn probe(command: &str) -> (p: Probe)
    ensures
        p == probe_of(command@),
{
    Probe {
        quit: matches_form(Form::Quit, command),
        address: matches_form(Form::Address, command),
        hex_or_text: matches_form(Form::HexOrText, command),
        word: matches_form(Form::Word, command),
        hex: matches_form(Form::Hex, command),
        hex_reversed: matches_form(Form::HexReversed, command),
        text: matches_form(Form::Text, command),
        empty: matches_form(Form::Empty, command),
    }
}

/// What a command asks for.
#[derive(Clone, Copy, Debug, PartialEq, Eq, Structural)]
pub enum CommandKind {
    Quit,
    Jump,
    SearchHexOrText,
    SearchWord,
    SearchHex,
    SearchHexReversed,
    SearchText,
    ClearSearch,
    HideInfobar,
    ShowInfobar,
    InsertMode,
    OverwriteMode,
    Unknown,
}

/// What the line `command` asks for, given the forms it has: the first of
/// its forms decides, and a line of no form is taken by its words.
pub open spec fn kind_of(probe: Probe, command: Seq<char>) -> CommandKind {
    if probe.quit {
        CommandKind::Quit
    } else if probe.address {
        CommandKind::Jump
    } else if probe.hex_or_text {
        CommandKind::SearchHexOrText
    } else if probe.word {
        CommandKind::SearchWord
    } else if probe.hex {
        CommandKind::SearchHex
    } else if probe.hex_reversed {
        CommandKind::SearchHexReversed
    } else if probe.text {
        CommandKind::SearchText
    } else if probe.empty {
        CommandKind::ClearSearch
    } else if command == ":hide infobar"@ || command == ":hexyl"@ {
        CommandKind::HideInfobar
    } else if command == ":show infobar"@ || command == ":!hexyl"@ {
        CommandKind::ShowInfobar
    } else if command == ":i"@ || command == ":insert"@ || command == ":mode insert"@ {
        CommandKind::InsertMode
    } else if command == ":o"@ || command == ":overwrite"@ || command == ":mode overwrite"@ {
        CommandKind::OverwriteMode
    } else {
        CommandKind::Unknown
    }
}

/// Decides what the line `command` asks for, given the forms it has.
pub fn command_kind(probe: Probe, command: &str) -> (kind: CommandKind)
    ensures
        kind == kind_of(probe, command@),
{
    if probe.quit {
        CommandKind::Quit
    } else if probe.address {
        CommandKind::Jump
    } else if probe.hex_or_text {
        CommandKind::SearchHexOrText
    } else if probe.word {
        CommandKind::SearchWord
    } else if probe.hex {
        CommandKind::SearchHex
    } else if probe.hex_reversed {
        CommandKind::SearchHexReversed
    } else if probe.text {
        CommandKind::SearchText
    } else if probe.empty {
        CommandKind::ClearSearch
    } else if same_text(command, ":hide infobar") || same_text(command, ":hexyl") {
        CommandKind::HideInfobar
    } else if same_text(command, ":show infobar") || same_text(command, ":!hexyl") {
        CommandKind::ShowInfobar
    } else if same_text(command, ":i") || same_text(command, ":insert") || same_text(
        command,
        ":mode insert",
    ) {
        CommandKind::InsertMode
    } else if same_text(command, ":o") || same_text(command, ":overwrite") || same_text(
        command,
        ":mode overwrite",
    ) {
        CommandKind::OverwriteMode
    } else {
        CommandKind::Unknown
    }
}

/// The form whose first group holds what a command of kind `kind` searches
/// for.
pub open spec fn form_of_search(kind: CommandKind) -> Option<Form> {
    match kind {
        CommandKind::SearchHexOrText => Some(Form::HexOrText),
        CommandKind::SearchWord => Some(Form::Word),
        CommandKind::SearchHex => Some(Form::Hex),
        CommandKind::SearchHexReversed => Some(Form::HexReversed),
        CommandKind::SearchText => Some(Form::Text),
        _ => None,
    }
}

/// A command, taken apart: what it asks for, the address of a jump, and the
/// text of a search.
#[derive(Debug)]
pub struct ParsedCommand {
    pub kind: CommandKind,
    pub address: Option<u64>,
    pub argument: Option<String>,
}

/// The text of the search that the line `command` asks for, if it asks for
/// one.
pub open spec fn argument_of(kind: CommandKind, command: Seq<char>) -> Option<Seq<char>> {
    match form_of_search(kind) {
        Some(form) => pattern_capture(form.pattern(), command),
        None => None,
    }
}

/// Takes the line `command` apart.
pub fn parse_command(command: &str) -> (parsed: ParsedCommand)
    ensures
        parsed.kind == kind_of(probe_of(command@), command@),
        parsed.address == if parsed.kind == CommandKind::Jump {
            address_of(command@)
        } else {
            None
        },
        parsed.argument is Some <==> argument_of(parsed.kind, command@) is Some,
        parsed.argument matches Some(text) ==> text@ == argument_of(parsed.kind, command@)->0,
{
    let kind = command_kind(probe(command), command);
    let address = match kind {
        CommandKind::Jump => address_of_command(command),
        _ => None,
    };
    let argument = match kind {
        CommandKind::SearchHexOrText => regex_first_group(Form::HexOrText.regex(), command),
        CommandKind::SearchWord => regex_first_group(Form::Word.regex(), command),
        CommandKind::SearchHex => regex_first_group(Form::Hex.regex(), command),
        CommandKind::SearchHexReversed => regex_first_group(Form::HexReversed.regex(), command),
        CommandKind::SearchText => regex_first_group(Form::Text.regex(), command),
        _ => None,
    };
    ParsedCommand { kind, address, argument }
}

/// Whether the editor goes on after a command.
#[derive(Clone, Copy, Debug, PartialEq, Eq, Structural)]
pub enum CommandOutcome {
    Continue,
    Quit,
}

/// The addresses that a search of kind `kind` for `text` finds in `file`.
/// Bytes are searched for only where the text is made of pairs of
/// hexadecimal digits, and text only where it is ASCII.
pub open spec fn hits(kind: CommandKind, file: Seq<u8>, text: Seq<char>) -> Seq<u64> {
    let as_text = encode_utf8(text);
    let as_bytes = bytes_of_pairs(text);
    match kind {
        CommandKind::SearchHexOrText => if hex_pairs(text) && as_text.len() > 0 && as_bytes.len()
            > 0 {
            occurrences_of_either(file, as_bytes, as_text, file.len() as int)
        } else {
            Seq::empty()
        },
        CommandKind::SearchWord | CommandKind::SearchText => if is_ascii_chars(text)
            && as_text.len() > 0 {
            occurrences(file, as_text, file.len() as int)
        } else {
            Seq::empty()
        },
        CommandKind::SearchHex => if hex_pairs(text) && as_bytes.len() > 0 {
            occurrences(file, as_bytes, file.len() as int)
        } else {
            Seq::empty()
        },
        CommandKind::SearchHexReversed => if hex_pairs(text) && as_bytes.len() > 0 {
            occurrences(file, as_bytes.reverse(), file.len() as int)
        } else {
            Seq::empty()
        },
        _ => Seq::empty(),
    }
}

/// The length by which the matches of a search are highlighted.
pub open spec fn highlight(kind: CommandKind, text: Seq<char>) -> int {
    match kind {
        CommandKind::SearchHex | CommandKind::SearchHexReversed => bytes_of_pairs(text).len() as int,
        _ => encode_utf8(text).len() as int,
    }
}

/// What a search that found `found` leaves in the editor: the results, and
/// the cursor on the first match behind the byte it stood on.
pub open spec fn search_effect(
    before: App,
    after: App,
    found: Seq<u64>,
    length: int,
) -> bool {
    &&& after.show_infobar == before.show_infobar
    &&& if found.len() > 0 {
        &&& after.search_results matches Some(results)
        &&& results.match_addresses@ == found
        &&& results.query_length == length
        &&& after.view == match first_after(found, before.view.cursor / 2) {
            Some(first) => before.view.jumped_to(first as int, before.document@.len() as int),
            None => before.view,
        }
    } else {
        after.search_results is None && after.view == before.view
    }
}

/// What a command does to the editor. A command changes neither the
/// document nor the command bar; it moves the cursor, replaces the results
/// of the last search, puts a message on display, or changes a setting.
pub open spec fn command_effect(
    before: App,
    after: App,
    kind: CommandKind,
    address: Option<u64>,
    argument: Option<Seq<char>>,
    outcome: CommandOutcome,
) -> bool {
    &&& outcome == if kind == CommandKind::Quit {
        CommandOutcome::Quit
    } else {
        CommandOutcome::Continue
    }
    &&& after == (App {
        view: after.view,
        search_results: after.search_results,
        error_msg: after.error_msg,
        show_infobar: after.show_infobar,
        ..before
    })
    &&& match kind {
        CommandKind::Quit | CommandKind::Unknown => after == before,
        CommandKind::Jump => match address {
            Some(target) => after == (App {
                view: before.view.jumped_to(target as int, before.document@.len() as int),
                ..before
            }),
            None => after == (App { error_msg: after.error_msg, ..before }) && after.warns(),
        },
        CommandKind::ClearSearch => after == (App { search_results: None, ..before }),
        CommandKind::HideInfobar => after == (App { show_infobar: false, ..before }),
        CommandKind::ShowInfobar => after == (App { show_infobar: true, ..before }),
        CommandKind::InsertMode => after == (App {
            view: Viewport { mode: Mode::Insert, ..before.view },
            ..before
        }),
        CommandKind::OverwriteMode => after == (App {
            view: Viewport { mode: Mode::Overwrite, ..before.view },
            ..before
        }),
        _ => match argument {
            Some(text) => {
                &&& search_effect(
                    before,
                    after,
                    hits(kind, before.document.file(), text),
                    highlight(kind, text),
                )
                &&& if kind == CommandKind::SearchText && !is_ascii_chars(text) {
                    after.error_msg matches Some(message) && message.0 == WarningLevel::Info
                } else {
                    after.error_msg == before.error_msg
                }
            },
            None => after == (App { search_results: None, ..before }),
        },
    }
}

impl App {
    /// Carries out a command that has been taken apart.
    pub fn run_command(&mut self, parsed: ParsedCommand) -> (outcome: CommandOutcome)
        requires
            old(self).wf(),
        ensures
            final(self).wf(),
            command_effect(
                *old(self),
                *final(self),
                parsed.kind,
                parsed.address,
                match parsed.argument {
                    Some(text) => Some(text@),
                    None => None,
                },
                outcome,
            ),
    {
        match parsed.kind {
            CommandKind::Quit => {
                return CommandOutcome::Quit;
            },
            CommandKind::Unknown => {},
            CommandKind::Jump => match parsed.address {
                Some(target) => {
                    self.jump_to(target);
                },
                None => {
                    self.error_msg = Some(
                        (WarningLevel::Warning, "Failed to parse given address".to_string()),
                    );
                },
            },
            CommandKind::ClearSearch => {
                self.search_results = None;
            },
            CommandKind::HideInfobar => {
                self.show_infobar = false;
            },
            CommandKind::ShowInfobar => {
                self.show_infobar = true;
            },
            CommandKind::InsertMode => {
                self.view.mode = Mode::Insert;
            },
            CommandKind::OverwriteMode => {
                self.view.mode = Mode::Overwrite;
            },
            _ => {
                let results = match &parsed.argument {
                    Some(text) => self.search(parsed.kind, text.as_str()),
                    None => None,
                };
                if parsed.kind == CommandKind::SearchText {
                    match &parsed.argument {
                        Some(text) => {
                            if !text.as_str().is_ascii() {
                                self.error_msg = Some(
                                    (
                                        WarningLevel::Info,
                                        "Search only support ascii characters".to_string(),
                                    ),
                                );
                            }
                        },
                        None => {},
                    }
                }
                self.search_results = results;
                self.go_to_next_search_result();
            },
        }
        CommandOutcome::Continue
    }

    /// Searches the backing file for what a command of kind `kind` asks
    /// for.
    fn search(&self, kind: CommandKind, text: &str) -> (r: Option<SearchResults>)
        ensures
            hits(kind, self.document.file(), text@).len() == 0 ==> r is None,
            hits(kind, self.document.file(), text@).len() > 0 ==> r is Some
                && r->0.match_addresses@ == hits(kind, self.document.file(), text@)
                && r->0.query_length == highlight(kind, text@),
    {
        let file = self.document.file_bytes().as_slice();
        match kind {
            CommandKind::SearchHexOrText => if is_hex_pairs(text) {
                search_hex_ascii(file, text, convert_hexstring_to_vec(text))
            } else {
                None
            },
            CommandKind::SearchWord | CommandKind::SearchText => if text.is_ascii() {
                search_ascii(file, text)
            } else {
                None
            },
            CommandKind::SearchHex => if is_hex_pairs(text) {
                search_hex(file, convert_hexstring_to_vec(text))
            } else {
                None
            },
            CommandKind::SearchHexReversed => if is_hex_pairs(text) {
                search_hex_reverse(file, convert_hexstring_to_vec(text))
            } else {
                None
            },
            _ => None,
        }
    }

    /// Carries out the command in the command bar. Without a command bar
    /// nothing happens.
    pub fn interpret_command(&mut self) -> (outcome: CommandOutcome)
        requires
            old(self).wf(),
        ensures
            final(self).wf(),
            match old(self).command_bar {
                Some(bar) => command_effect(
                    *old(self),
                    *final(self),
                    kind_of(probe_of(bar.command@), bar.command@),
                    if kind_of(probe_of(bar.command@), bar.command@) == CommandKind::Jump {
                        address_of(bar.command@)
                    } else {
                        None
                    },
                    argument_of(kind_of(probe_of(bar.command@), bar.command@), bar.command@),
                    outcome,
                ),
                None => *final(self) == *old(self) && outcome == CommandOutcome::Continue,
            },
    {
        let parsed = match &self.command_bar {
            Some(bar) => parse_command(bar.command.as_str()),
            None => {
                return CommandOutcome::Continue;
            },
        };
        self.run_command(parsed)
    }
}

} // verus!

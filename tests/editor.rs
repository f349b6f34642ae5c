use bed::buffer::LineBuffer;
use bed::command::{parse_command, BedCommand, ParseError, Range};
use bed::editor::{is_change_terminator, Action, EditError, Editor};
use bed::text::{decimal_string, trimmed, trimmed_end};

fn editor(text: &str) -> Editor {
    Editor::new(text.to_string())
}

fn ten_lines() -> Editor {
    editor("a\nb\nc\nd\ne\nf\ng\nh\ni\nj\n")
}

fn lines_of(e: &Editor) -> Vec<String> {
    let n = e.buffer.line_count();
    (0..n).map(|i| e.buffer.line(i)).collect()
}

fn emitted(a: Action) -> Vec<String> {
    match a {
        Action::Emit { lines } => lines,
        other => panic!("expected output, got {:?}", other),
    }
}

fn print(start: usize, end: usize) -> BedCommand {
    BedCommand::Print { range: Range { start, end } }
}

#[test]
fn address_defaults_comma_alone_is_whole_buffer() {
    assert_eq!(parse_command(",p", 4, 10), print(1, 10));
}

#[test]
fn address_defaults_bare_letter_is_current_line() {
    assert_eq!(parse_command("p", 4, 10), print(4, 4));
}

#[test]
fn address_defaults_open_end() {
    assert_eq!(parse_command("3,p", 4, 10), print(3, 10));
}

#[test]
fn address_defaults_open_start() {
    assert_eq!(parse_command(",7p", 4, 10), print(1, 7));
}

#[test]
fn address_explicit_forms() {
    assert_eq!(parse_command("3,7p", 4, 10), print(3, 7));
    assert_eq!(parse_command("5p", 4, 10), print(5, 5));
    assert_eq!(parse_command("  2, 6 p \n", 4, 10), print(2, 6));
    assert_eq!(parse_command("1 2p", 4, 10), print(1, 1));
    assert_eq!(
        parse_command("2,3n", 4, 10),
        BedCommand::NPrint { range: Range { start: 2, end: 3 } }
    );
    assert_eq!(
        parse_command("n", 4, 10),
        BedCommand::NPrint { range: Range { start: 4, end: 4 } }
    );
}

#[test]
fn parse_other_commands() {
    assert_eq!(parse_command("q", 1, 1), BedCommand::Quit);
    assert_eq!(parse_command("quit\n", 1, 1), BedCommand::Quit);
    assert_eq!(parse_command("c", 1, 1), BedCommand::Change);
    assert_eq!(parse_command("w \n", 1, 1), BedCommand::Write);
    assert_eq!(parse_command("42", 1, 1), BedCommand::Move { line: 42 });
}

#[test]
fn parse_rejects_malformed_input() {
    let unknown = BedCommand::Invalid { error: ParseError::UnknownCommand };
    assert_eq!(parse_command("zzz", 1, 1), unknown);
    assert_eq!(parse_command("", 1, 1), unknown);
    assert_eq!(parse_command("3,,p", 1, 1), unknown);
    assert_eq!(parse_command("5 ,p", 1, 1), unknown);
    assert_eq!(parse_command("px", 1, 1), unknown);
    assert_eq!(parse_command("qq", 1, 1), unknown);
}

#[test]
fn parse_reports_numbers_too_large() {
    let too_large = BedCommand::Invalid { error: ParseError::NumberTooLarge };
    assert_eq!(parse_command("99999999999999999999999p", 1, 1), too_large);
    assert_eq!(parse_command("1,99999999999999999999999n", 1, 1), too_large);
    assert_eq!(parse_command("99999999999999999999999", 1, 1), too_large);
    assert_eq!(
        parse_command("18446744073709551615", 1, 1),
        BedCommand::Move { line: usize::MAX }
    );
}

#[test]
fn print_range_emits_stored_lines_in_order() {
    let mut e = ten_lines();
    let out = emitted(e.handle("3,5p"));
    assert_eq!(out, vec!["c", "d", "e"]);
    let all = emitted(e.handle(",p"));
    assert_eq!(all.len(), 10);
    assert_eq!(all, lines_of(&e));
}

#[test]
fn print_empty_when_start_after_end() {
    let mut e = ten_lines();
    assert!(emitted(e.handle("5,3p")).is_empty());
}

#[test]
fn numbered_print_right_aligns_numbers() {
    let mut e = ten_lines();
    let out = emitted(e.handle("9,10n"));
    assert_eq!(out, vec![" 9 \u{2502} i", "10 \u{2502} j"]);
    let mut small = editor("x\ny\n");
    assert_eq!(emitted(small.handle(",n")), vec!["1 \u{2502} x", "2 \u{2502} y"]);
}

#[test]
fn print_out_of_bounds_is_an_error() {
    let mut e = ten_lines();
    match e.handle("0p") {
        Action::Fail { error } => {
            assert_eq!(error, EditError::RangeOutOfBounds { range: Range { start: 0, end: 0 } })
        }
        other => panic!("unexpected {:?}", other),
    }
    match e.handle("1,11n") {
        Action::Fail { error } => {
            assert_eq!(error, EditError::RangeOutOfBounds { range: Range { start: 1, end: 11 } })
        }
        other => panic!("unexpected {:?}", other),
    }
    assert_eq!(e.current_line, 10);
}

#[test]
fn move_sets_current_line_verbatim() {
    let mut e = ten_lines();
    assert_eq!(e.current_line, 10);
    assert!(matches!(e.handle("4"), Action::Nothing));
    assert_eq!(e.current_line, 4);
    assert!(matches!(e.handle("250"), Action::Nothing));
    assert_eq!(e.current_line, 250);
    assert!(matches!(e.handle("2\n"), Action::Nothing));
    assert_eq!(e.current_line, 2);
}

#[test]
fn move_then_print_current_line() {
    let mut e = ten_lines();
    e.handle("4");
    assert_eq!(emitted(e.handle("p")), vec!["d"]);
}

#[test]
fn change_replaces_current_line_with_collected_text() {
    let mut e = editor("a\nb\nc\nd\ne\n");
    e.handle("3");
    assert!(matches!(e.handle("c"), Action::CollectChange));
    assert_eq!(e.change("x\ny\n"), Ok(()));
    assert_eq!(lines_of(&e), vec!["a", "b", "x", "y", "d", "e"]);
    assert_eq!(e.buffer.to_text(), "a\nb\nx\ny\nd\ne\n");
    assert_eq!(e.current_line, 3);
}

#[test]
fn change_keeps_crlf_and_handles_multibyte_text() {
    let mut e = editor("ƒoo\nbär\r\nbaz");
    e.handle("2");
    assert_eq!(e.change("été  \n"), Ok(()));
    assert_eq!(e.buffer.to_text(), "ƒoo\nété\r\nbaz");
}

#[test]
fn change_clamps_current_line_when_buffer_shrinks() {
    let mut e = editor("only\n");
    assert_eq!(e.change(""), Ok(()));
    assert_eq!(e.buffer.to_text(), "\n");
    assert_eq!(e.buffer.line_count(), 1);
    assert_eq!(e.current_line, 1);
    let mut single = editor("z");
    assert_eq!(single.change("\n"), Ok(()));
    assert_eq!(single.buffer.line_count(), 0);
    assert_eq!(single.current_line, 0);
}

#[test]
fn change_without_current_line_fails() {
    let mut e = ten_lines();
    e.handle("0");
    match e.handle("c") {
        Action::Fail { error } => assert_eq!(error, EditError::NoCurrentLine { line: 0 }),
        other => panic!("unexpected {:?}", other),
    }
    assert_eq!(e.change("x"), Err(EditError::NoCurrentLine { line: 0 }));
    assert_eq!(lines_of(&e).len(), 10);
}

#[test]
fn write_then_reload_gives_same_text() {
    let original = "one\ntwo\r\nthree";
    let mut e = editor(original);
    e.handle("2");
    e.change("deux").unwrap();
    let saved = match e.handle("w") {
        Action::Save { text } => text,
        other => panic!("unexpected {:?}", other),
    };
    assert_eq!(saved, "one\ndeux\r\nthree");
    let reloaded = Editor::new(saved.clone());
    assert_eq!(reloaded.buffer.to_text(), saved);
    assert_eq!(lines_of(&reloaded), lines_of(&e));
}

#[test]
fn unrecognized_input_changes_nothing() {
    let mut e = ten_lines();
    e.handle("4");
    let before = e.buffer.to_text();
    match e.handle("zzz") {
        Action::Fail { error } => {
            assert_eq!(error, EditError::Parse { error: ParseError::UnknownCommand })
        }
        other => panic!("unexpected {:?}", other),
    }
    assert_eq!(e.current_line, 4);
    assert_eq!(e.buffer.to_text(), before);
}

#[test]
fn only_q_and_quit_terminate() {
    let mut e = ten_lines();
    for input in ["q", "quit", " q\n", "quit  \n"] {
        assert!(matches!(e.handle(input), Action::Quit), "{}", input);
    }
    for input in ["", "Q", "qu", "quitt", "q q", "zzz", "w", "1,2p", "x\n", "\u{2009}"] {
        assert!(!matches!(e.handle(input), Action::Quit), "{}", input);
    }
}

#[test]
fn new_editor_starts_at_last_line() {
    assert_eq!(ten_lines().current_line, 10);
    assert_eq!(editor("a\nb").current_line, 2);
    assert_eq!(editor("").current_line, 0);
}

#[test]
fn buffer_lines_drop_terminators() {
    let b = LineBuffer::from_text("foo\nbar\r\nbaz\n".to_string());
    assert_eq!(b.line_count(), 3);
    assert_eq!(b.line(0), "foo");
    assert_eq!(b.line(1), "bar");
    assert_eq!(b.line(2), "baz");
}

#[test]
fn buffer_replace_line_uses_byte_offsets() {
    let mut b = LineBuffer::from_text("ƒoo\nbär\nbaz".to_string());
    b.replace_line(1, "🌎 x\ny");
    assert_eq!(b.to_text(), "ƒoo\n🌎 x\ny\nbaz");
    assert_eq!(b.line_count(), 4);
}

#[test]
fn change_terminator_is_a_lone_dot_line() {
    assert!(is_change_terminator(".\n"));
    assert!(!is_change_terminator("."));
    assert!(!is_change_terminator(".\r\n"));
    assert!(!is_change_terminator(" .\n"));
}

#[test]
fn text_helpers() {
    assert_eq!(decimal_string(0), "0");
    assert_eq!(decimal_string(1234), "1234");
    assert_eq!(trimmed(" \t a b \u{3000}\n"), "a b");
    assert_eq!(trimmed_end("  a b \n"), "  a b");
}

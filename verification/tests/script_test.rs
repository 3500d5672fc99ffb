use agent_terminal::script::{
    parse_duration, parse_quoted_string, unescape, Command, DurationError, Keyword, ParseError,
    Script, SpecialKey,
};
use std::time::Duration;

#[test]
fn test_parse_duration() {
    assert_eq!(parse_duration("5s").unwrap(), Duration::from_secs(5));
    assert_eq!(parse_duration("500ms").unwrap(), Duration::from_millis(500));
    assert_eq!(parse_duration("1m").unwrap(), Duration::from_secs(60));
}

#[test]
fn test_unescape() {
    assert_eq!(unescape("hello\\nworld"), "hello\nworld");
    assert_eq!(unescape("tab\\there"), "tab\there");
    assert_eq!(unescape("\\x1b"), "\x1b");
}

#[test]
fn test_parse_script() {
    let script = r#"
# This is a comment
wait 500ms
write "hello world"
wait_for "$" 5s
assert_screen "prompt"
clear_buffer
"#;

    let parsed = Script::parse(script).unwrap();
    assert_eq!(parsed.commands.len(), 5);
}

#[test]
fn test_parse_quoted_string() {
    assert_eq!(parse_quoted_string("\"hello world\"").unwrap(), "hello world");
    assert_eq!(parse_quoted_string("'hello world'").unwrap(), "hello world");
    assert_eq!(parse_quoted_string("hello").unwrap(), "hello");
}

#[test]
fn parse_duration_bare_number_is_millis() {
    assert_eq!(parse_duration("250").unwrap(), Duration::from_millis(250));
    assert_eq!(parse_duration("  7s  ").unwrap(), Duration::from_secs(7));
    assert_eq!(parse_duration("+3s").unwrap(), Duration::from_secs(3));
}

#[test]
fn parse_duration_errors_name_the_unit() {
    assert_eq!(parse_duration("xms").unwrap_err(), DurationError::InvalidMillis);
    assert_eq!(parse_duration("s").unwrap_err(), DurationError::InvalidSeconds);
    assert_eq!(parse_duration("-1m").unwrap_err(), DurationError::InvalidMinutes);
    assert_eq!(parse_duration("5h").unwrap_err(), DurationError::InvalidFormat);
    assert_eq!(parse_duration("").unwrap_err(), DurationError::InvalidFormat);
    assert_eq!(parse_duration("18446744073709551616ms").unwrap_err(), DurationError::InvalidMillis);
}

#[test]
fn unescape_hex_and_unknown_escapes() {
    assert_eq!(unescape("\\x41\\x7f"), "A\x7f");
    assert_eq!(unescape("\\xZZabc"), "abc");
    assert_eq!(unescape("\\q"), "\\q");
    assert_eq!(unescape("end\\"), "end\\");
    assert_eq!(unescape("\\\\ \\\" \\'"), "\\ \" '");
    assert_eq!(unescape("\\x4"), "\x04");
    assert_eq!(unescape("\\xff"), "\u{ff}");
    assert_eq!(unescape("no escapes"), "no escapes");
}

#[test]
fn parse_quoted_string_keeps_unmatched_quotes() {
    assert_eq!(parse_quoted_string("\"").unwrap(), "\"");
    assert_eq!(parse_quoted_string("\"abc'").unwrap(), "\"abc'");
    assert_eq!(parse_quoted_string("  \"a b\"  ").unwrap(), "a b");
}

#[test]
fn parse_script_commands_in_order() {
    let script = "wait 2s\nwrite \"ls\\n\"\nwait_for \"a b\" 3s\nwait_for prompt\nassert_screen 'x'\nkey ESC\nkey ctrl-c\nclear_buffer extra\n";
    let parsed = Script::parse(script).unwrap();
    let c = &parsed.commands;
    assert_eq!(c.len(), 8);
    match &c[0] {
        Command::Wait { duration } => assert_eq!(*duration, Duration::from_secs(2)),
        other => panic!("unexpected {:?}", other),
    }
    match &c[1] {
        Command::Write { content } => assert_eq!(content, "ls\n"),
        other => panic!("unexpected {:?}", other),
    }
    match &c[2] {
        Command::WaitFor { pattern, timeout } => {
            assert_eq!(pattern, "a b");
            assert_eq!(*timeout, Duration::from_secs(3));
        }
        other => panic!("unexpected {:?}", other),
    }
    match &c[3] {
        Command::WaitFor { pattern, timeout } => {
            assert_eq!(pattern, "prompt");
            assert_eq!(*timeout, Duration::from_secs(5));
        }
        other => panic!("unexpected {:?}", other),
    }
    match &c[4] {
        Command::AssertScreen { expected } => assert_eq!(expected, "x"),
        other => panic!("unexpected {:?}", other),
    }
    assert!(matches!(c[5], Command::Key { key: SpecialKey::Escape }));
    assert!(matches!(c[6], Command::Key { key: SpecialKey::CtrlC }));
    assert!(matches!(c[7], Command::ClearBuffer));
}

#[test]
fn parse_script_error_reports_line() {
    let err = Script::parse("# c\n\nwait 1s\n  jump now  \nwait 2s").unwrap_err();
    assert_eq!(err.line_number, 4);
    assert_eq!(err.line, "jump now");
    match err.error {
        ParseError::UnknownCommand { name } => assert_eq!(name, "jump"),
        other => panic!("unexpected {:?}", other),
    }
}

#[test]
fn parse_line_errors() {
    assert!(matches!(
        Script::parse_line("wait").unwrap_err(),
        ParseError::MissingArgument { command: Keyword::Wait }
    ));
    assert!(matches!(
        Script::parse_line("write").unwrap_err(),
        ParseError::MissingArgument { command: Keyword::Write }
    ));
    assert!(matches!(
        Script::parse_line("wait_for").unwrap_err(),
        ParseError::MissingArgument { command: Keyword::WaitFor }
    ));
    assert!(matches!(
        Script::parse_line("assert_screen").unwrap_err(),
        ParseError::MissingArgument { command: Keyword::AssertScreen }
    ));
    assert!(matches!(
        Script::parse_line("key").unwrap_err(),
        ParseError::MissingArgument { command: Keyword::Key }
    ));
    assert!(matches!(
        Script::parse_line("wait soon").unwrap_err(),
        ParseError::InvalidDuration { error: DurationError::InvalidFormat }
    ));
    assert!(matches!(Script::parse_line("").unwrap_err(), ParseError::EmptyCommand));
    match Script::parse_line("key f1").unwrap_err() {
        ParseError::UnknownKey { name } => assert_eq!(name, "f1"),
        other => panic!("unexpected {:?}", other),
    }
}

#[test]
fn parse_line_key_names_ignore_case() {
    for (name, key) in [
        ("Enter", SpecialKey::Enter),
        ("RETURN", SpecialKey::Enter),
        ("Escape", SpecialKey::Escape),
        ("tab", SpecialKey::Tab),
        ("BS", SpecialKey::Backspace),
        ("backspace", SpecialKey::Backspace),
        ("CtrlD", SpecialKey::CtrlD),
        ("ctrl-d", SpecialKey::CtrlD),
    ] {
        match Script::parse_line(&format!("key {}", name)).unwrap() {
            Command::Key { key: k } => assert_eq!(k, key),
            other => panic!("unexpected {:?}", other),
        }
    }
}

#[test]
fn parse_line_wait_for_skips_non_timeouts() {
    match Script::parse_line("wait_for \"x\" abs 2m").unwrap() {
        Command::WaitFor { pattern, timeout } => {
            assert_eq!(pattern, "\"x\" abs");
            assert_eq!(timeout, Duration::from_secs(120));
        }
        other => panic!("unexpected {:?}", other),
    }
}

#[test]
fn parse_line_write_keeps_inner_spacing() {
    match Script::parse_line("write   \"a   b\"  ").unwrap() {
        Command::Write { content } => assert_eq!(content, "a   b"),
        other => panic!("unexpected {:?}", other),
    }
}

#[test]
fn parse_checked_reports_overflowing_minutes() {
    assert!(Script::parse_checked("wait 999999999999999999m").is_none());
    assert!(Script::parse_checked("wait_for \"$\" 999999999999999999m").is_none());
    // An error on an earlier line stops the parse before the overflow.
    assert!(matches!(Script::parse_checked("bogus\nwait 999999999999999999m"), Some(Err(_))));
    let ok = Script::parse_checked("# c\nwait 2m\n").unwrap().unwrap();
    assert_eq!(ok.commands.len(), 1);
}

#[test]
fn error_messages_read_as_before() {
    let e = Script::parse("write \"x\"\nwait").unwrap_err();
    assert_eq!(e.message(), "Parse error at line 2: wait");
    assert_eq!(e.error.message(), "wait requires a duration argument");
    let e = Script::parse("key f13").unwrap_err();
    assert_eq!(e.error.message(), "Unknown key: f13");
    let e = Script::parse("\n\n  launch rocket").unwrap_err();
    assert_eq!(e.message(), "Parse error at line 3: launch rocket");
    assert_eq!(e.error.message(), "Unknown command: launch");
    let e = Script::parse("wait 5x").unwrap_err();
    assert_eq!(e.error.message(), "Invalid duration format, expected: <number>[s|ms|m]");
    let e = Script::parse("wait xs").unwrap_err();
    assert_eq!(e.error.message(), "Invalid seconds");
    let e = Script::parse("assert_screen").unwrap_err();
    assert_eq!(e.error.message(), "assert_screen requires an expected content argument");
}

#[test]
fn joined_scripts_parse_to_joined_commands() {
    let a = "# setup\nwrite \"ls\\n\"\n\n";
    let b = "  \nkey enter\r\nwait 1s";
    let ca = Script::parse(a).unwrap().commands;
    let cb = Script::parse(b).unwrap().commands;
    let joined = Script::parse(&format!("{}\n{}", a, b)).unwrap().commands;
    assert_eq!(joined.len(), ca.len() + cb.len());
    assert!(matches!(&joined[0], Command::Write { content } if content == "ls\n"));
    assert!(matches!(&joined[1], Command::Key { key: SpecialKey::Enter }));
    assert!(matches!(&joined[2], Command::Wait { duration } if *duration == Duration::from_secs(1)));
}

#[test]
fn unescape_keeps_plain_text_and_never_grows() {
    assert_eq!(unescape("plain text, no escapes"), "plain text, no escapes");
    for s in ["\\n", "\\x1b[", "\\", "a\\qb", "\\x4"] {
        assert!(unescape(s).chars().count() <= s.chars().count());
    }
}

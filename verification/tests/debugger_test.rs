use agent_terminal::debugger::{boxed_screen, parse_debugger_input, raw_preview, DebuggerInput};
use agent_terminal::debugger::{preview_cuts_cleanly, screen_boxes_cleanly_exec};

#[test]
fn commands_and_their_short_forms() {
    assert!(matches!(parse_debugger_input("q"), DebuggerInput::Quit));
    assert!(matches!(parse_debugger_input("quit"), DebuggerInput::Quit));
    assert!(matches!(parse_debugger_input("  s  "), DebuggerInput::Screen));
    assert!(matches!(parse_debugger_input("screen\n"), DebuggerInput::Screen));
    assert!(matches!(parse_debugger_input("r"), DebuggerInput::Raw));
    assert!(matches!(parse_debugger_input("a"), DebuggerInput::Analyze));
    assert!(matches!(parse_debugger_input("help"), DebuggerInput::Help));
    assert!(matches!(parse_debugger_input("   "), DebuggerInput::Empty));
    match parse_debugger_input("frobnicate now") {
        DebuggerInput::Unknown { command } => assert_eq!(command, "frobnicate"),
        other => panic!("unexpected {:?}", other),
    }
}

#[test]
fn write_takes_the_rest_of_the_line() {
    match parse_debugger_input("w vim file.txt") {
        DebuggerInput::Write { text } => assert_eq!(text.as_deref(), Some("vim file.txt")),
        other => panic!("unexpected {:?}", other),
    }
    match parse_debugger_input("write  two  spaces") {
        DebuggerInput::Write { text } => assert_eq!(text.as_deref(), Some(" two  spaces")),
        other => panic!("unexpected {:?}", other),
    }
    assert!(matches!(parse_debugger_input("w"), DebuggerInput::Write { text: None }));
}

#[test]
fn numbers_default_when_missing_or_bad() {
    assert!(matches!(parse_debugger_input("h"), DebuggerInput::History { count: 5 }));
    assert!(matches!(parse_debugger_input("h 10"), DebuggerInput::History { count: 10 }));
    assert!(matches!(parse_debugger_input("history x"), DebuggerInput::History { count: 5 }));
    assert!(matches!(parse_debugger_input("d"), DebuggerInput::Delay { ms: 1000 }));
    assert!(matches!(parse_debugger_input("d 250"), DebuggerInput::Delay { ms: 250 }));
    assert!(matches!(parse_debugger_input("delay +7"), DebuggerInput::Delay { ms: 7 }));
    assert!(matches!(parse_debugger_input("d -1"), DebuggerInput::Delay { ms: 1000 }));
}

#[test]
fn screen_rows_are_cut_and_padded() {
    let rows = boxed_screen("hello\n\n");
    assert_eq!(rows.len(), 2);
    assert_eq!(rows[0], format!("\x1b[36m\u{2502}{:<58}\u{2502}\x1b[0m", "hello"));
    assert_eq!(rows[1], format!("\x1b[36m\u{2502}{:<58}\u{2502}\x1b[0m", ""));
    let long = "y".repeat(59);
    let rows = boxed_screen(&long);
    assert_eq!(rows[0], format!("\x1b[36m\u{2502}{}...\u{2502}\x1b[0m", "y".repeat(55)));
    let exact = "z".repeat(58);
    assert_eq!(boxed_screen(&exact)[0], format!("\x1b[36m\u{2502}{}\u{2502}\x1b[0m", exact));
    assert!(boxed_screen("").is_empty());
}

#[test]
fn raw_preview_keeps_two_hundred_bytes() {
    let raw = "A".repeat(300);
    assert_eq!(raw_preview(&raw), "A".repeat(200));
    assert_eq!(raw_preview("aGk="), "aGk=");
}

#[test]
fn boxing_and_preview_checks() {
    assert!(screen_boxes_cleanly_exec("plain\nlines"));
    let bad = format!("{}é{}", "a".repeat(54), "b".repeat(10));
    assert!(!screen_boxes_cleanly_exec(&bad));
    let good = format!("{}é{}", "a".repeat(53), "b".repeat(10));
    assert!(screen_boxes_cleanly_exec(&good));
    assert!(preview_cuts_cleanly(&"Q".repeat(500)));
    assert!(!preview_cuts_cleanly(&format!("{}é", "Q".repeat(199))));
}

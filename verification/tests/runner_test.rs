use agent_terminal::runner::{describe_command, format_content, key_sequence, plan_command, DslBuilder, Step};
use agent_terminal::script::{Command, SpecialKey};
use std::time::Duration;
use agent_terminal::runner::{command_cuts_cleanly, content_cuts_cleanly};

#[test]
fn builder_collects_commands_in_order() {
    let cmds = DslBuilder::new()
        .wait_for_shell()
        .write("echo hello\n")
        .wait_for("hello", Duration::from_secs(2))
        .assert_screen_contains("hello")
        .clear_buffer()
        .wait(Duration::from_millis(250))
        .enter()
        .esc()
        .key(SpecialKey::Tab)
        .into_commands();
    assert_eq!(cmds.len(), 9);
    match &cmds[0] {
        Command::WaitFor { pattern, timeout } => {
            assert_eq!(pattern, "$");
            assert_eq!(*timeout, Duration::from_secs(5));
        }
        other => panic!("unexpected {:?}", other),
    }
    assert!(matches!(&cmds[1], Command::Write { content } if content == "echo hello\n"));
    assert!(matches!(&cmds[2], Command::WaitFor { pattern, timeout } if pattern == "hello" && *timeout == Duration::from_secs(2)));
    assert!(matches!(&cmds[3], Command::AssertScreen { expected } if expected == "hello"));
    assert!(matches!(&cmds[4], Command::ClearBuffer));
    assert!(matches!(&cmds[5], Command::Wait { duration } if *duration == Duration::from_millis(250)));
    assert!(matches!(&cmds[6], Command::Key { key: SpecialKey::Enter }));
    assert!(matches!(&cmds[7], Command::Key { key: SpecialKey::Escape }));
    assert!(matches!(&cmds[8], Command::Key { key: SpecialKey::Tab }));
}

#[test]
fn default_builder_is_empty() {
    assert!(DslBuilder::default().into_commands().is_empty());
}

#[test]
fn format_content_escapes_and_quotes() {
    assert_eq!(format_content("ls\n"), "'ls\\n'");
    assert_eq!(format_content("\x1b:wq\r\t"), "'\\x1b:wq\\r\\t'");
    assert_eq!(format_content("\x7f\x03\x04"), "'\\x7f\\x03\\x04'");
    assert_eq!(format_content(""), "''");
}

#[test]
fn format_content_cuts_after_forty_bytes() {
    let long = "a".repeat(41);
    assert_eq!(format_content(&long), format!("'{}...'", "a".repeat(40)));
    let exact = "b".repeat(40);
    assert_eq!(format_content(&exact), format!("'{}'", exact));
    // Escapes count by their shown length.
    let newlines = "\n".repeat(21);
    assert_eq!(format_content(&newlines), format!("'{}...'", "\\n".repeat(20)));
}

#[test]
fn progress_lines_describe_each_command() {
    let wait_long = Command::Wait { duration: Duration::from_millis(2500) };
    assert_eq!(describe_command(1, 6, &wait_long), "[1/6] wait 2s");
    let wait_short = Command::Wait { duration: Duration::from_millis(500) };
    assert_eq!(describe_command(2, 6, &wait_short), "[2/6] wait 500ms");
    let write = Command::Write { content: "echo hi\n".to_string() };
    assert_eq!(describe_command(3, 6, &write), "[3/6] write 'echo hi\\n'");
    let wait_for = Command::WaitFor { pattern: "$".to_string(), timeout: Duration::from_secs(5) };
    assert_eq!(describe_command(4, 6, &wait_for), "[4/6] wait for ''$'' (timeout: 5s)");
    let assert_cmd = Command::AssertScreen { expected: "hi".to_string() };
    assert_eq!(describe_command(5, 6, &assert_cmd), "[5/6] assert screen contains ''hi''");
    assert_eq!(describe_command(6, 6, &Command::ClearBuffer), "[6/6] clear buffer");
    assert_eq!(describe_command(10, 12, &Command::Key { key: SpecialKey::CtrlC }), "[10/12] key Ctrl+C");
    assert_eq!(describe_command(7, 7, &Command::Key { key: SpecialKey::Backspace }), "[7/7] key Backspace");
}

#[test]
fn keys_send_their_control_characters() {
    assert_eq!(key_sequence(SpecialKey::Enter), "\n");
    assert_eq!(key_sequence(SpecialKey::Escape), "\x1b");
    assert_eq!(key_sequence(SpecialKey::Tab), "\t");
    assert_eq!(key_sequence(SpecialKey::Backspace), "\x7f");
    assert_eq!(key_sequence(SpecialKey::CtrlC), "\x03");
    assert_eq!(key_sequence(SpecialKey::CtrlD), "\x04");
}

#[test]
fn plan_maps_commands_to_steps() {
    match plan_command(&Command::Key { key: SpecialKey::CtrlD }) {
        Step::WriteInput { data } => assert_eq!(data, "\x04"),
        other => panic!("unexpected {:?}", other),
    }
    match plan_command(&Command::Write { content: "x".to_string() }) {
        Step::WriteInput { data } => assert_eq!(data, "x"),
        other => panic!("unexpected {:?}", other),
    }
    match plan_command(&Command::Wait { duration: Duration::from_secs(1) }) {
        Step::Sleep { duration } => assert_eq!(duration, Duration::from_secs(1)),
        other => panic!("unexpected {:?}", other),
    }
    match plan_command(&Command::WaitFor { pattern: "p".to_string(), timeout: Duration::from_secs(3) }) {
        Step::WaitFor { pattern, timeout } => {
            assert_eq!(pattern, "p");
            assert_eq!(timeout, Duration::from_secs(3));
        }
        other => panic!("unexpected {:?}", other),
    }
    assert!(matches!(plan_command(&Command::AssertScreen { expected: "e".to_string() }), Step::AssertScreenContains { expected } if expected == "e"));
    assert!(matches!(plan_command(&Command::ClearBuffer), Step::ClearBuffer));
}

#[test]
fn shown_content_reads_back_through_unescape() {
    // A written text without backslashes, as a progress line shows it,
    // unescapes to the same text.
    let content = "vim a.txt\n\x1b:wq\r\t";
    let shown = format_content(content);
    let inner = &shown[1..shown.len() - 1];
    assert_eq!(agent_terminal::script::unescape(inner), content);
}

#[test]
fn cut_checks_match_char_boundaries() {
    assert!(content_cuts_cleanly(&"a".repeat(100)));
    // 39 ASCII bytes then a two-byte character: byte 40 is inside it.
    let split = format!("{}é tail", "a".repeat(39));
    assert!(!content_cuts_cleanly(&split));
    let clean = format!("{}é tail", "a".repeat(38));
    assert!(content_cuts_cleanly(&clean));
    assert!(content_cuts_cleanly("é"));
    assert!(!command_cuts_cleanly(&Command::Write { content: split.clone() }));
    assert!(command_cuts_cleanly(&Command::ClearBuffer));
    assert_eq!(format_content(&clean), format!("'{}é...'", "a".repeat(38)));
}

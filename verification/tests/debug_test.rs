use base64::Engine;
use agent_terminal::debug::{analyze_raw_output, analyze_ansi_sequences, analyze_screen, describe_csi_sequence, scan_ansi_sequences, show_escaped};
use agent_terminal::debug::screen_cuts_cleanly;

fn params(ps: &[&str]) -> Vec<String> {
    ps.iter().map(|s| s.to_string()).collect()
}

#[test]
fn csi_descriptions() {
    assert_eq!(describe_csi_sequence(&params(&["?1049"]), b'h'), "Set Mode ?1049");
    assert_eq!(describe_csi_sequence(&params(&["?25"]), b'l'), "Reset Mode ?25");
    assert_eq!(describe_csi_sequence(&params(&["1", "31"]), b'm'), "SGR (Color/Style) 1;31");
    assert_eq!(describe_csi_sequence(&params(&["3", "1"]), b'H'), "Cursor Position 3;1");
    assert_eq!(describe_csi_sequence(&params(&[]), b'f'), "Cursor Position ");
    assert_eq!(describe_csi_sequence(&params(&["2"]), b'A'), "Cursor Up 2");
    assert_eq!(describe_csi_sequence(&params(&[]), b'J'), "Clear From Cursor to End");
    assert_eq!(describe_csi_sequence(&params(&["2"]), b'J'), "Clear Entire Screen");
    assert_eq!(describe_csi_sequence(&params(&["3"]), b'J'), "Clear Scrollback");
    assert_eq!(describe_csi_sequence(&params(&["5"]), b'J'), "Erase in Display 5");
    assert_eq!(describe_csi_sequence(&params(&["1"]), b'K'), "Clear Line To Cursor");
    assert_eq!(describe_csi_sequence(&params(&["9"]), b'K'), "Erase in Line 9");
    assert_eq!(describe_csi_sequence(&params(&["1", "24"]), b'r'), "Set Scrolling Region 1;24");
    assert_eq!(describe_csi_sequence(&params(&[]), b's'), "Save Cursor Position");
    assert_eq!(describe_csi_sequence(&params(&[]), b'u'), "Restore Cursor Position");
    assert_eq!(describe_csi_sequence(&params(&["6"]), b'n'), "Device Status Report 6");
    assert_eq!(describe_csi_sequence(&params(&["4"]), b'q'), "CSI 4 q");
}

#[test]
fn scan_finds_csi_and_other_escapes() {
    let data = b"ab\x1b[?1049h\x1b[2J\x1b7x\x1b]0;title\x07\x1b[1;31mred";
    let seqs = scan_ansi_sequences(data);
    let found: Vec<(usize, usize, &str)> = seqs.iter().map(|s| (s.offset, s.len, s.description.as_str())).collect();
    assert_eq!(
        found,
        vec![
            (2, 8, "Set Mode ?1049"),
            (10, 4, "Clear Entire Screen"),
            (14, 2, "ESC 7"),
            (27, 7, "SGR (Color/Style) 1;31"),
        ]
    );
}

#[test]
fn scan_skips_empty_params_and_unfinished_sequences() {
    let seqs = scan_ansi_sequences(b"\x1b[;5H\x1b[12");
    assert_eq!(seqs.len(), 1);
    assert_eq!(seqs[0].description, "Cursor Position 5");
    assert!(scan_ansi_sequences(b"\x1b").is_empty());
}

#[test]
fn report_marks_important_sequences_and_alternate_screen() {
    let r = analyze_ansi_sequences(b"\x1b[?1049h\x1b[?25l\x1b[H\x1bM");
    assert_eq!(r.sequences.len(), 4);
    let important: Vec<&str> = r.important.iter().map(|s| s.description.as_str()).collect();
    assert_eq!(important, vec!["Set Mode ?1049", "Cursor Position "]);
    assert!(r.enters_alternate_screen);
    assert!(!r.exits_alternate_screen);
}

#[test]
fn escaped_bytes_are_coloured() {
    assert_eq!(show_escaped(b"hi"), "hi");
    assert_eq!(show_escaped(b"\x1b"), "\x1b[35m\\x1b\x1b[0m");
    assert_eq!(show_escaped(b"\n"), "\x1b[32m\\n\x1b[0m\n");
    assert_eq!(show_escaped(b"\x00\xff"), "\x1b[31m\\x00\x1b[0m\x1b[31m\\xff\x1b[0m");
    assert_eq!(show_escaped(b"\x07\x08\t\r"), "\x1b[31m\\a\x1b[0m\x1b[31m\\b\x1b[0m\x1b[32m\\t\x1b[0m\x1b[32m\\r\x1b[0m");
}

#[test]
fn screen_analysis_lists_nonempty_lines() {
    let a = analyze_screen("$ vim\n\n  hello  \n~\n~");
    assert_eq!(a.total_lines, 5);
    assert!(a.vim);
    assert!(a.shell_prompt);
    assert!(!a.alternate_screen);
    assert_eq!(
        a.non_empty_lines,
        vec![(1, "$ vim".to_string()), (3, "hello".to_string()), (4, "~".to_string()), (5, "~".to_string())]
    );
    let long = "x".repeat(70);
    let b = analyze_screen(&long);
    assert_eq!(b.non_empty_lines, vec![(1, "x".repeat(60))]);
    assert!(!b.vim && !b.shell_prompt);
}

#[test]
fn screen_cut_check() {
    assert!(screen_cuts_cleanly("short\n"));
    assert!(!screen_cuts_cleanly(&format!("  {}é", "x".repeat(59))));
    assert!(screen_cuts_cleanly(&format!("{}é", "x".repeat(58))));
}

#[test]
fn scanned_sequences_are_in_order_and_apart() {
    let data = b"\x1b[1;2H\x1bM\x1b]title\x07x\x1b[?25l\x1b[3";
    let seqs = scan_ansi_sequences(data);
    assert_eq!(seqs.len(), 3);
    for s in &seqs {
        assert_eq!(data[s.offset], 0x1b);
        assert!(s.len >= 2 && s.offset + s.len <= data.len());
    }
    for w in seqs.windows(2) {
        assert!(w[0].offset + w[0].len <= w[1].offset);
    }
}

#[test]
fn alternate_screen_switches_are_detected() {
    let r = analyze_ansi_sequences(b"\x1b[?1049lbye");
    assert!(!r.enters_alternate_screen);
    assert!(r.exits_alternate_screen);
    // A non-private mode 1049 is not the alternate screen.
    let r = analyze_ansi_sequences(b"\x1b[1049h");
    assert!(!r.enters_alternate_screen);
    let r = analyze_ansi_sequences(b"\x1b[?25l\x1b[?1049h\x1b[?1049l");
    assert!(r.enters_alternate_screen && r.exits_alternate_screen);
}

#[test]
fn raw_output_is_decoded_before_analysis() {
    let raw = base64::engine::general_purpose::STANDARD.encode(b"\x1b[?1049hvim");
    let r = analyze_raw_output(&raw).unwrap();
    assert_eq!(r.sequences.len(), 1);
    assert_eq!(r.sequences[0].description, "Set Mode ?1049");
    assert!(r.enters_alternate_screen);
    assert!(analyze_raw_output("not base64!").is_none());
    assert_eq!(agent_terminal::encoding::decode_raw_output(&raw).unwrap(), b"\x1b[?1049hvim".to_vec());
    assert!(agent_terminal::encoding::decode_raw_output("%%%").is_none());
}

#[test]
fn decoding_gives_back_what_was_encoded() {
    let data: Vec<u8> = (0u8..=255).collect();
    let raw = base64::engine::general_purpose::STANDARD.encode(&data);
    assert_eq!(agent_terminal::encoding::decode_raw_output(&raw).unwrap(), data);
}

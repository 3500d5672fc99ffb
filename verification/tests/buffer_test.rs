use agent_terminal::buffer::{render_screen, OutputBuffer, MAX_RAW_BYTES};
use base64::engine::general_purpose::STANDARD;
use base64::Engine;
use agent_terminal::encoding::encoded_len_fits_exec;

#[test]
fn test_new_empty_buffer() {
    let buf = OutputBuffer::new(24, 80);
    assert_eq!(buf.raw_b64(), STANDARD.encode(b""));
    assert_eq!(buf.screen_contents(), "");
}

#[test]
fn test_push_raw_bytes_roundtrip() {
    let mut buf = OutputBuffer::new(24, 80);
    buf.push(b"hello");
    let decoded = STANDARD.decode(buf.raw_b64()).unwrap();
    assert_eq!(decoded, b"hello");
}

#[test]
fn test_push_accumulates_raw_bytes() {
    let mut buf = OutputBuffer::new(24, 80);
    buf.push(b"foo");
    buf.push(b"bar");
    let decoded = STANDARD.decode(buf.raw_b64()).unwrap();
    assert_eq!(decoded, b"foobar");
}

#[test]
fn test_push_empty_slice_is_noop() {
    let mut buf = OutputBuffer::new(24, 80);
    buf.push(b"");
    assert_eq!(buf.raw_b64(), STANDARD.encode(b""));
    assert_eq!(buf.screen_contents(), "");
}

#[test]
fn test_screen_contents_plain_text() {
    let mut buf = OutputBuffer::new(24, 80);
    buf.push(b"hello world");
    let screen = buf.screen_contents();
    assert!(screen.contains("hello world"));
}

#[test]
fn test_screen_contents_no_trailing_newline() {
    let mut buf = OutputBuffer::new(24, 80);
    buf.push(b"hi");
    let screen = buf.screen_contents();
    assert!(!screen.ends_with('\n'));
}

#[test]
fn test_screen_contents_multiline() {
    let mut buf = OutputBuffer::new(24, 80);
    buf.push(b"line1\r\nline2");
    let screen = buf.screen_contents();
    assert!(screen.contains("line1"));
    assert!(screen.contains("line2"));
}

#[test]
fn test_screen_contents_trailing_spaces_trimmed() {
    let mut buf = OutputBuffer::new(24, 80);
    buf.push(b"x");
    let screen = buf.screen_contents();
    let first_line = screen.lines().next().unwrap_or("");
    assert_eq!(first_line, "x");
}

#[test]
fn test_1mb_trim_keeps_at_most_1mb() {
    let mut buf = OutputBuffer::new(24, 80);
    let chunk = vec![b'A'; 512 * 1024];
    buf.push(&chunk);
    buf.push(&chunk);
    buf.push(&chunk);
    let raw_bytes = STANDARD.decode(buf.raw_b64()).unwrap();
    assert!(raw_bytes.len() <= 1024 * 1024, "raw buffer must not exceed 1 MB");
}

#[test]
fn test_1mb_trim_retains_most_recent_data() {
    let mut buf = OutputBuffer::new(24, 80);
    let ones = vec![b'A'; 1024 * 1024];
    let twos = vec![b'B'; 512 * 1024];
    buf.push(&ones);
    buf.push(&twos);
    let raw_bytes = STANDARD.decode(buf.raw_b64()).unwrap();
    let tail = &raw_bytes[raw_bytes.len() - 512 * 1024..];
    assert!(tail.iter().all(|&b| b == b'B'));
}

#[test]
fn test_raw_b64_is_valid_base64() {
    let mut buf = OutputBuffer::new(24, 80);
    buf.push(b"\x00\x01\x02\xff\xfe");
    let b64 = buf.raw_b64();
    assert!(STANDARD.decode(&b64).is_ok());
}

#[test]
fn test_resize_changes_dimensions() {
    let mut buf = OutputBuffer::new(24, 80);
    buf.push(b"hello world\r\nline 2");
    buf.resize(10, 40);
    let screen = buf.screen_contents();
    assert!(screen.contains("hello") || screen.contains("world"));
}

#[test]
fn test_resize_preserves_raw_bytes() {
    let mut buf = OutputBuffer::new(24, 80);
    buf.push(b"test data 123");
    let raw_before = buf.raw_b64();
    buf.resize(30, 100);
    let raw_after = buf.raw_b64();
    assert_eq!(raw_before, raw_after);
}

#[test]
fn test_resize_empty_buffer() {
    let mut buf = OutputBuffer::new(24, 80);
    buf.resize(10, 40);
    assert_eq!(buf.screen_contents(), "");
    assert_eq!(buf.raw_b64(), STANDARD.encode(b""));
}

#[test]
fn test_buffer_push_and_retrieve() {
    let mut buf = OutputBuffer::new(24, 80);
    buf.push(b"hello world");
    let raw = buf.raw_b64();
    assert!(!raw.is_empty());
    let screen = buf.screen_contents();
    assert!(screen.contains("hello world"));
}

#[test]
fn test_buffer_vt100_cursor_movement() {
    let mut buf = OutputBuffer::new(24, 80);
    buf.push(b"line1\r\nline2\r\nline3");
    let screen = buf.screen_contents();
    assert!(screen.contains("line1"));
    assert!(screen.contains("line2"));
    assert!(screen.contains("line3"));
}

#[test]
fn test_buffer_vt100_color_codes() {
    let mut buf = OutputBuffer::new(24, 80);
    buf.push(b"\x1b[32mgreen text\x1b[0m");
    let screen = buf.screen_contents();
    assert!(screen.contains("green text"));
}

#[test]
fn test_buffer_vt100_screen_clear() {
    let mut buf = OutputBuffer::new(24, 80);
    buf.push(b"first text");
    let screen1 = buf.screen_contents();
    assert!(screen1.contains("first text"));
    buf.push(b"\x1b[2J");
    let _screen2 = buf.screen_contents();
}

#[test]
fn test_buffer_vt100_cursor_home() {
    let mut buf = OutputBuffer::new(24, 80);
    buf.push(b"hello\x1b[Hworld");
    let _screen = buf.screen_contents();
}

#[test]
fn test_buffer_1mb_boundary_exact() {
    let mut buf = OutputBuffer::new(24, 80);
    let one_mb = vec![b'A'; 1024 * 1024];
    buf.push(&one_mb);
    let raw = buf.raw_b64();
    let decoded = STANDARD.decode(&raw).unwrap();
    assert!(decoded.len() <= 1024 * 1024);
}

#[test]
fn test_buffer_1mb_boundary_over() {
    let mut buf = OutputBuffer::new(24, 80);
    let data = vec![b'B'; 1024 * 1024 + 100 * 1024];
    buf.push(&data);
    let raw = buf.raw_b64();
    let decoded = STANDARD.decode(&raw).unwrap();
    assert!(decoded.len() <= 1024 * 1024, "Buffer should be capped at 1MB");
}

#[test]
fn test_buffer_binary_data() {
    let mut buf = OutputBuffer::new(24, 80);
    let binary_data: Vec<u8> = vec![0x00, 0x01, 0xFF, 0xFE, 0x7F, 0x80];
    buf.push(&binary_data);
    let raw = buf.raw_b64();
    assert!(!raw.is_empty());
    let decoded = STANDARD.decode(&raw).unwrap();
    assert_eq!(decoded, binary_data);
}

#[test]
fn test_buffer_newline_handling() {
    let mut buf = OutputBuffer::new(24, 80);
    buf.push(b"line1\r\nline2\r\nline3\r\nline4");
    let screen = buf.screen_contents();
    assert!(!screen.is_empty());
    assert!(screen.contains("line1"));
}

#[test]
fn test_buffer_resize_handling() {
    let mut buf_small = OutputBuffer::new(10, 40);
    let mut buf_large = OutputBuffer::new(50, 200);
    buf_small.push(b"small screen");
    buf_large.push(b"large screen");
    assert!(buf_small.screen_contents().contains("small screen"));
    assert!(buf_large.screen_contents().contains("large screen"));
}

#[test]
fn test_buffer_empty_push() {
    let mut buf = OutputBuffer::new(24, 80);
    buf.push(b"");
    assert_eq!(buf.raw_b64(), STANDARD.encode(b""));
    assert_eq!(buf.screen_contents(), "");
    buf.push(b"hello");
    buf.push(b"");
    buf.push(b" world");
    let screen = buf.screen_contents();
    assert!(screen.contains("hello"));
    assert!(screen.contains("world"));
}

#[test]
fn test_buffer_unicode_handling() {
    let mut buf = OutputBuffer::new(24, 80);
    let unicode = "Hello 世界 🌍 ñoño café 日本語";
    buf.push(unicode.as_bytes());
    let screen = buf.screen_contents();
    assert!(screen.contains("Hello"));
    let raw = buf.raw_b64();
    assert!(!raw.is_empty());
}

#[test]
fn test_buffer_preserves_order() {
    let mut buf = OutputBuffer::new(24, 80);
    for i in 0..10 {
        buf.push(format!("chunk{}", i).as_bytes());
    }
    let raw = buf.raw_b64();
    let decoded = STANDARD.decode(&raw).unwrap();
    let decoded_str = String::from_utf8_lossy(&decoded);
    for i in 0..10 {
        assert!(decoded_str.contains(&format!("chunk{}", i)));
    }
}

#[test]
fn test_buffer_large_screen_contents() {
    let mut buf = OutputBuffer::new(100, 200);
    for row in 0..50 {
        buf.push(format!("Row {} data here\r\n", row).as_bytes());
    }
    let screen = buf.screen_contents();
    assert!(!screen.is_empty());
    let lines: Vec<&str> = screen.lines().collect();
    assert!(lines.len() > 0);
}

#[test]
fn raw_keeps_exactly_the_last_megabyte() {
    let mut buf = OutputBuffer::new(24, 80);
    let mut data = vec![b'x'; MAX_RAW_BYTES];
    data.extend_from_slice(b"0123456789");
    buf.push(&data);
    let raw = STANDARD.decode(buf.raw_b64()).unwrap();
    assert_eq!(raw.len(), MAX_RAW_BYTES);
    assert!(raw.ends_with(b"0123456789"));
    assert_eq!(raw[0], b'x');
}

#[test]
fn raw_b64_is_standard_padded_base64() {
    let mut buf = OutputBuffer::new(24, 80);
    buf.push(b"hello");
    assert_eq!(buf.raw_b64(), "aGVsbG8=");
}

#[test]
fn render_screen_trims_and_drops_empty_rows() {
    let grid = vec![
        vec![Some("a".to_string()), Some(String::new()), Some("b".to_string()), None],
        vec![None, Some(" ".to_string())],
        vec![Some("c".to_string())],
        vec![None, None],
        vec![],
    ];
    assert_eq!(render_screen(&grid), "a b\n\nc");
    assert_eq!(render_screen(&vec![vec![None]]), "");
}

#[test]
fn buffers_stay_within_their_limit() {
    let mut buf = OutputBuffer::new(24, 80);
    assert!(buf.within_limit());
    buf.push(&vec![b'z'; MAX_RAW_BYTES + 10]);
    assert!(buf.within_limit());
}

#[test]
fn encodable_lengths() {
    assert!(encoded_len_fits_exec(0));
    assert!(encoded_len_fits_exec(4096));
    assert!(!encoded_len_fits_exec(usize::MAX));
}

#[test]
fn screen_lines_are_trimmed_and_bounded() {
    let mut buf = OutputBuffer::new(5, 20);
    for i in 0..12 {
        buf.push(format!("row {}   \r\n", i).as_bytes());
    }
    let screen = buf.screen_contents();
    let lines: Vec<&str> = screen.split('\n').collect();
    assert!(lines.len() <= 5);
    assert!(lines.iter().all(|l| !l.ends_with(' ')));
    assert!(!lines.last().unwrap().is_empty());
}

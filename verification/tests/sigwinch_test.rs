use agent_terminal::buffer::OutputBuffer;
use base64::engine::general_purpose::STANDARD;
use base64::Engine;

#[test]
fn test_buffer_resize_basic() {
    let mut buf = OutputBuffer::new(24, 80);
    buf.push(b"line 1\r\nline 2\r\nline 3");
    buf.resize(30, 100);
    let screen = buf.screen_contents();
    assert!(screen.contains("line 1") || screen.contains("line 2") || screen.contains("line 3"));
}

#[test]
fn test_buffer_resize_preserves_raw() {
    let mut buf = OutputBuffer::new(24, 80);
    let test_data = b"test data with escape \x1b[31mred\x1b[0m codes";
    buf.push(test_data);
    let raw_before = buf.raw_b64();
    buf.resize(10, 40);
    let raw_after = buf.raw_b64();
    assert_eq!(raw_before, raw_after);
    let decoded = STANDARD.decode(&raw_after).unwrap();
    assert!(decoded.windows(test_data.len()).any(|w| w == test_data));
}

#[test]
fn test_buffer_multiple_resizes() {
    let mut buf = OutputBuffer::new(24, 80);
    buf.push(b"content before resize");
    buf.resize(10, 40);
    buf.resize(50, 200);
    buf.resize(5, 20);
    let decoded = STANDARD.decode(buf.raw_b64()).unwrap();
    assert!(decoded.windows(7).any(|w| w == b"content"));
}

#[test]
fn test_buffer_resize_with_ansi() {
    let mut buf = OutputBuffer::new(24, 80);
    buf.push(b"\x1b[2J\x1b[H");
    buf.push(b"\x1b[32mgreen text\x1b[0m");
    buf.resize(30, 100);
    let decoded = STANDARD.decode(buf.raw_b64()).unwrap();
    assert!(decoded.windows(2).any(|w| w == b"\x1b["));
}

#[test]
fn test_buffer_resize_to_smaller() {
    let mut buf = OutputBuffer::new(24, 80);
    buf.push(b"this is a test line that is longer than 20 columns");
    buf.resize(5, 20);
    let _screen = buf.screen_contents();
}

#[test]
fn test_buffer_resize_empty() {
    let mut buf = OutputBuffer::new(24, 80);
    buf.resize(10, 40);
    assert_eq!(buf.screen_contents(), "");
    assert_eq!(buf.raw_b64(), STANDARD.encode(b""));
}

#[test]
fn test_buffer_resize_screen_dimensions() {
    let mut buf = OutputBuffer::new(24, 80);
    for i in 0..50 {
        buf.push(format!("line {}\r\n", i).as_bytes());
    }
    buf.resize(5, 20);
    let screen = buf.screen_contents();
    let lines: Vec<_> = screen.lines().collect();
    assert!(lines.len() <= 5, "Screen should have at most 5 lines after resize, got {}", lines.len());
}

#[test]
fn test_vim_alternate_screen_simulation() {
    let mut buf = OutputBuffer::new(24, 80);
    buf.push(b"\x1b[?1049h");
    buf.push(b"\x1b[H");
    buf.push(b"\x1b[2J");
    buf.push(b"\x1b[H");
    buf.push(b"\x1b[H");
    buf.push(b"  1 Hello from vim test");
    buf.push(b"\x1b[2;1H");
    buf.push(b"  2 Line 2");
    buf.push(b"\x1b[3;1H");
    buf.push(b"  3 Line 3");
    for row in 4..23 {
        buf.push(format!("\x1b[{};1H~", row).as_bytes());
    }
    buf.push(b"\x1b[24;1H\"agent_terminal_vim_test.txt\" 3L, 34B");
    buf.push(b"\x1b[1;25H");
    let screen = buf.screen_contents();
    assert!(screen.contains("Hello from vim test"), "Screen should show file content, got:\n{}", screen);
    assert!(screen.contains("Line 2"), "Screen should show line 2");
    assert!(screen.contains("Line 3"), "Screen should show line 3");
}

#[test]
fn resized_screen_is_a_replay_of_the_raw_bytes() {
    let mut buf = OutputBuffer::new(24, 80);
    let data = b"\x1b[2J\x1b[Hhello\r\nworld \x1b[31mred\x1b[0m";
    buf.push(data);
    buf.resize(10, 40);
    let mut fresh = OutputBuffer::new(10, 40);
    fresh.push(data);
    assert_eq!(buf.screen_contents(), fresh.screen_contents());
    assert_eq!(buf.raw_b64(), fresh.raw_b64());
}

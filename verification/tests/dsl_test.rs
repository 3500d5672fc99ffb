use agent_terminal::dsl::{WaitStep, check_screen_contains, expect_ack, expect_output, OutputLog, ReplyError, StreamOutcome};
use agent_terminal::protocol::Response;
use base64::engine::general_purpose::STANDARD;
use base64::Engine;

#[test]
fn test_output_buffer_accumulation() {
    let mut log = OutputLog::new();
    log.reset_to("hello world".to_string());
    assert!(log.contains("world"));
    assert!(!log.contains("foo"));
}

#[test]
fn test_buffer_clear() {
    let mut log = OutputLog::new();
    log.reset_to("content".to_string());
    log.clear_buffer();
    assert!(log.output_buffer().is_empty());
}

fn chunk(bytes: &[u8]) -> Response {
    Response::OutputChunk { raw_b64: STANDARD.encode(bytes) }
}

#[test]
fn absorb_appends_chunks_until_the_pattern_shows() {
    let mut log = OutputLog::new();
    assert!(matches!(log.absorb(chunk(b"echo hel"), "hello"), StreamOutcome::Continue));
    assert_eq!(log.output_buffer(), "echo hel");
    // The pattern spans two chunks.
    assert!(matches!(log.absorb(chunk(b"lo\r\n"), "hello"), StreamOutcome::Found));
    assert_eq!(log.output_buffer(), "echo hello\r\n");
}

#[test]
fn absorb_skips_undecodable_chunks_and_other_responses() {
    let mut log = OutputLog::new();
    log.reset_to("$ ".to_string());
    let bad = Response::OutputChunk { raw_b64: "not base64!".to_string() };
    assert!(matches!(log.absorb(bad, "x"), StreamOutcome::Continue));
    assert!(matches!(log.absorb(chunk(&[0xff, 0xfe]), "x"), StreamOutcome::Continue));
    assert!(matches!(log.absorb(Response::Success, "x"), StreamOutcome::Continue));
    assert_eq!(log.output_buffer(), "$ ");
}

#[test]
fn absorb_stops_on_an_error() {
    let mut log = OutputLog::new();
    let out = log.absorb(Response::Error { message: "gone".to_string() }, "x");
    match out {
        StreamOutcome::Failed { message } => assert_eq!(message, "gone"),
        other => panic!("expected Failed, got {:?}", other),
    }
    assert_eq!(log.output_buffer(), "");
}

#[test]
fn expect_ack_reads_replies() {
    assert!(expect_ack(Response::Success).is_ok());
    match expect_ack(Response::Error { message: "no".to_string() }) {
        Err(ReplyError::Refused { message }) => assert_eq!(message, "no"),
        other => panic!("unexpected {:?}", other),
    }
    match expect_ack(Response::Output { raw_b64: String::new(), screen: String::new() }) {
        Err(ReplyError::Unexpected { response: Response::Output { .. } }) => {}
        other => panic!("unexpected {:?}", other),
    }
}

#[test]
fn expect_output_reads_replies() {
    let r = expect_output(Response::Output { raw_b64: "aGk=".to_string(), screen: "hi".to_string() });
    assert_eq!(r.unwrap(), ("aGk=".to_string(), "hi".to_string()));
    match expect_output(Response::Error { message: "boom".to_string() }) {
        Err(ReplyError::Refused { message }) => assert_eq!(message, "boom"),
        other => panic!("unexpected {:?}", other),
    }
    match expect_output(Response::Success) {
        Err(ReplyError::Unexpected { response: Response::Success }) => {}
        other => panic!("unexpected {:?}", other),
    }
}

#[test]
fn screen_assertion_names_what_was_missing() {
    assert!(check_screen_contains("$ echo hi\nhi", "hi").is_ok());
    let err = check_screen_contains("$ ", "hello").unwrap_err();
    assert_eq!(err, "assert_screen_contains failed: expected 'hello' not found in screen:\n$ ");
}

#[test]
fn wait_steps_before_streaming() {
    let mut log = OutputLog::new();
    assert_eq!(log.wait_step("$", None), WaitStep::FetchScreen);
    assert_eq!(log.wait_step("$", Some("user@host $ ".to_string())), WaitStep::Done);
    assert_eq!(log.output_buffer(), "user@host $ ");
    assert_eq!(log.wait_step("$", None), WaitStep::Done);
    assert_eq!(log.wait_step("hello", Some("nothing yet".to_string())), WaitStep::Subscribe);
    assert_eq!(log.output_buffer(), "nothing yet");
}

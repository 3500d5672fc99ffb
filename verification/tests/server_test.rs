use agent_terminal::buffer::OutputBuffer;
use agent_terminal::protocol::{Request, Response};
use agent_terminal::server::{
    check_first_request, handle_event, output_reply, poisoned_buffer_reply, write_reply, ClientAction, ClientEvent,
    ClientState, WriteOutcome,
};
use base64::engine::general_purpose::STANDARD;
use base64::Engine;

fn error_message(a: &ClientAction) -> Option<String> {
    match a {
        ClientAction::Reply(Response::Error { message }) => Some(message.clone()),
        _ => None,
    }
}

#[test]
fn subscribe_then_receive_chunks() {
    let (s, a) = handle_event(ClientState::Idle, ClientEvent::Request(Request::Subscribe));
    assert_eq!(s, ClientState::Subscribed);
    assert!(matches!(a, ClientAction::Reply(Response::Success)));
    let (s, a) = handle_event(s, ClientEvent::Chunk(b"hello".to_vec()));
    assert_eq!(s, ClientState::Subscribed);
    match a {
        ClientAction::Reply(Response::OutputChunk { raw_b64 }) => {
            assert_eq!(STANDARD.decode(raw_b64).unwrap(), b"hello")
        }
        other => panic!("unexpected {:?}", other),
    }
}

#[test]
fn idle_clients_get_no_chunks() {
    let (s, a) = handle_event(ClientState::Idle, ClientEvent::Chunk(b"x".to_vec()));
    assert_eq!(s, ClientState::Idle);
    assert!(matches!(a, ClientAction::Nothing));
}

#[test]
fn subscribing_twice_is_an_error() {
    let (s, a) = handle_event(ClientState::Subscribed, ClientEvent::Request(Request::Subscribe));
    assert_eq!(s, ClientState::Subscribed);
    assert_eq!(error_message(&a).unwrap(), "already subscribed");
}

#[test]
fn unsubscribe_stops_the_stream() {
    let (s, a) = handle_event(ClientState::Subscribed, ClientEvent::Request(Request::Unsubscribe));
    assert_eq!(s, ClientState::Idle);
    assert!(matches!(a, ClientAction::Reply(Response::Success)));
    let (_, a) = handle_event(s, ClientEvent::Chunk(b"late".to_vec()));
    assert!(matches!(a, ClientAction::Nothing));
}

#[test]
fn requests_map_to_actions() {
    let (s, a) = handle_event(ClientState::Idle, ClientEvent::Request(Request::WriteInput { data: "ls\n".to_string() }));
    assert_eq!(s, ClientState::Idle);
    assert!(matches!(a, ClientAction::WriteToPty { data } if data == "ls\n"));
    let (_, a) = handle_event(ClientState::Subscribed, ClientEvent::Request(Request::GetOutput));
    assert!(matches!(a, ClientAction::SendOutput));
    let (_, a) = handle_event(ClientState::Idle, ClientEvent::Request(Request::Authenticate { token: "t".to_string() }));
    assert_eq!(error_message(&a).unwrap(), "not supported");
    let (_, a) = handle_event(ClientState::Idle, ClientEvent::ReadFailed);
    assert!(matches!(a, ClientAction::Close));
    let (s, a) = handle_event(ClientState::Subscribed, ClientEvent::StreamLost);
    assert_eq!(s, ClientState::Idle);
    assert!(matches!(a, ClientAction::Nothing));
}

#[test]
fn write_outcomes_are_answered() {
    assert!(matches!(write_reply(WriteOutcome::Written), Response::Success));
    assert!(matches!(write_reply(WriteOutcome::Failed), Response::Error { message } if message == "write to PTY failed"));
    assert!(matches!(write_reply(WriteOutcome::Poisoned), Response::Error { message } if message == "PTY writer lock poisoned"));
    assert!(matches!(poisoned_buffer_reply(), Response::Error { message } if message == "buffer lock poisoned"));
}

#[test]
fn output_reply_carries_raw_and_screen() {
    let mut buf = OutputBuffer::new(24, 80);
    buf.push(b"hello");
    match output_reply(&buf) {
        Response::Output { raw_b64, screen } => {
            assert_eq!(raw_b64, "aGVsbG8=");
            assert_eq!(screen, "hello");
        }
        other => panic!("unexpected {:?}", other),
    }
}

#[test]
fn tcp_clients_must_authenticate_first() {
    let ok = Request::Authenticate { token: "s3cret".to_string() };
    assert!(check_first_request(&ok, "s3cret").is_ok());
    let wrong = Request::Authenticate { token: "guess".to_string() };
    match check_first_request(&wrong, "s3cret") {
        Err(Response::Error { message }) => assert_eq!(message, "invalid token"),
        other => panic!("unexpected {:?}", other),
    }
    match check_first_request(&Request::GetOutput, "s3cret") {
        Err(Response::Error { message }) => assert_eq!(message, "authentication required"),
        other => panic!("unexpected {:?}", other),
    }
}

use agent_terminal::protocol::{encode_frame, frame_length, split_frame, FrameError, Request, Response, MAX_FRAME_LEN};
use serde_json::Value;
type Object = serde_json::Map<String, Value>;

// The wire form of the messages: a JSON object tagged by "type".

fn tagged(tag: &str, fields: &[(&str, &str)]) -> String {
    let mut m = Object::new();
    m.insert("type".to_string(), Value::String(tag.to_string()));
    for (k, v) in fields {
        m.insert(k.to_string(), Value::String(v.to_string()));
    }
    serde_json::to_string(&Value::Object(m)).unwrap()
}

fn field(m: &Object, k: &str) -> String {
    m.get(k).and_then(Value::as_str).unwrap().to_string()
}

fn request_to_json(r: &Request) -> String {
    match r {
        Request::WriteInput { data } => tagged("write_input", &[("data", data)]),
        Request::GetOutput => tagged("get_output", &[]),
        Request::Subscribe => tagged("subscribe", &[]),
        Request::Unsubscribe => tagged("unsubscribe", &[]),
        Request::Authenticate { token } => tagged("authenticate", &[("token", token)]),
    }
}

fn request_from_json(s: &str) -> Request {
    let v: Value = serde_json::from_str(s).unwrap();
    let m = v.as_object().unwrap();
    match m.get("type").and_then(Value::as_str).unwrap() {
        "write_input" => Request::WriteInput { data: field(m, "data") },
        "get_output" => Request::GetOutput,
        "subscribe" => Request::Subscribe,
        "unsubscribe" => Request::Unsubscribe,
        "authenticate" => Request::Authenticate { token: field(m, "token") },
        t => panic!("unknown request type {t}"),
    }
}

fn response_to_json(r: &Response) -> String {
    match r {
        Response::Success => tagged("ok", &[]),
        Response::Output { raw_b64, screen } => tagged("output", &[("raw_b64", raw_b64), ("screen", screen)]),
        Response::OutputChunk { raw_b64 } => tagged("output_chunk", &[("raw_b64", raw_b64)]),
        Response::Error { message } => tagged("error", &[("message", message)]),
    }
}

fn response_from_json(s: &str) -> Response {
    let v: Value = serde_json::from_str(s).unwrap();
    let m = v.as_object().unwrap();
    match m.get("type").and_then(Value::as_str).unwrap() {
        "ok" => Response::Success,
        "output" => Response::Output { raw_b64: field(m, "raw_b64"), screen: field(m, "screen") },
        "output_chunk" => Response::OutputChunk { raw_b64: field(m, "raw_b64") },
        "error" => Response::Error { message: field(m, "message") },
        t => panic!("unknown response type {t}"),
    }
}

#[test]
fn test_request_clone_write_input() {
    let req = Request::WriteInput { data: "test".to_string() };
    let cloned = req.clone();
    match cloned {
        Request::WriteInput { data } => assert_eq!(data, "test"),
        _ => panic!("expected WriteInput"),
    }
}

#[test]
fn test_request_debug_is_not_empty() {
    let s = format!("{:?}", Request::GetOutput);
    assert!(!s.is_empty());
}

#[test]
fn test_response_clone() {
    let resp = Response::Error { message: "oops".to_string() };
    let cloned = resp.clone();
    match cloned {
        Response::Error { message } => assert_eq!(message, "oops"),
        _ => panic!("expected Error"),
    }
}

#[test]
fn test_protocol_all_request_response_pairs() {
    let req = Request::WriteInput { data: "test".to_string() };
    match request_from_json(&request_to_json(&req)) {
        Request::WriteInput { data } => assert_eq!(data, "test"),
        _ => panic!("expected WriteInput"),
    }

    let req = Request::GetOutput;
    assert!(matches!(request_from_json(&request_to_json(&req)), Request::GetOutput));

    let resp = Response::Output { raw_b64: "aGVsbG8=".to_string(), screen: "hello".to_string() };
    match response_from_json(&response_to_json(&resp)) {
        Response::Output { raw_b64, screen } => {
            assert_eq!(raw_b64, "aGVsbG8=");
            assert_eq!(screen, "hello");
        }
        _ => panic!("expected Output"),
    }

    let resp = Response::Error { message: "error message".to_string() };
    match response_from_json(&response_to_json(&resp)) {
        Response::Error { message } => assert_eq!(message, "error message"),
        _ => panic!("expected Error"),
    }

    let resp = Response::Success;
    assert!(matches!(response_from_json(&response_to_json(&resp)), Response::Success));
}

#[test]
fn test_write_read_frame_request_roundtrip() {
    let json = request_to_json(&Request::WriteInput { data: "hello\n".to_string() });
    let frame = encode_frame(json.as_bytes());
    let (body, used) = split_frame(&frame).unwrap();
    assert_eq!(used, frame.len());
    match request_from_json(std::str::from_utf8(&body).unwrap()) {
        Request::WriteInput { data } => assert_eq!(data, "hello\n"),
        _ => panic!("expected WriteInput"),
    }
}

#[test]
fn test_write_frame_length_prefix_matches_json_size() {
    let json = request_to_json(&Request::GetOutput);
    let frame = encode_frame(json.as_bytes());
    let len = u32::from_le_bytes([frame[0], frame[1], frame[2], frame[3]]) as usize;
    assert_eq!(len, json.len());
    assert_eq!(frame.len(), 4 + json.len());
    assert_eq!(&frame[4..], json.as_bytes());
}

#[test]
fn test_read_frame_rejects_oversized_length() {
    let big: u32 = 5 * 1024 * 1024;
    let mut bytes = big.to_le_bytes().to_vec();
    bytes.extend_from_slice(b"{}");
    assert_eq!(split_frame(&bytes), Err(FrameError::TooLarge { len: big }));
    assert_eq!(frame_length(&big.to_le_bytes()), Err(FrameError::TooLarge { len: big }));
    assert_eq!(frame_length(&MAX_FRAME_LEN.to_le_bytes()), Ok(MAX_FRAME_LEN));
}

#[test]
fn test_multiple_frames_in_sequence() {
    let a = response_to_json(&Response::Success);
    let b = response_to_json(&Response::Error { message: "x".to_string() });
    let mut stream = encode_frame(a.as_bytes());
    stream.extend(encode_frame(b.as_bytes()));
    let (first, used) = split_frame(&stream).unwrap();
    assert!(matches!(response_from_json(std::str::from_utf8(&first).unwrap()), Response::Success));
    let (second, used2) = split_frame(&stream[used..]).unwrap();
    assert_eq!(used + used2, stream.len());
    match response_from_json(std::str::from_utf8(&second).unwrap()) {
        Response::Error { message } => assert_eq!(message, "x"),
        _ => panic!("expected Error"),
    }
}

#[test]
fn split_frame_waits_for_the_whole_frame() {
    let frame = encode_frame(b"abcdef");
    assert_eq!(split_frame(&frame[..3]), Err(FrameError::Incomplete));
    assert_eq!(split_frame(&frame[..7]), Err(FrameError::Incomplete));
    assert_eq!(split_frame(&frame).unwrap(), (b"abcdef".to_vec(), 10));
}

#[test]
fn empty_payload_frames_to_four_zero_bytes() {
    let frame = encode_frame(b"");
    assert_eq!(frame, vec![0, 0, 0, 0]);
    assert_eq!(split_frame(&frame).unwrap(), (Vec::new(), 4));
}

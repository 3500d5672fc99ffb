//! The messages between a session and its clients, and their framing on a
//! stream: `[u32 little-endian length][JSON bytes]`.
use vstd::prelude::*;

verus! {

/// Requests sent by IPC clients to the session server.
#[derive(Debug)]
pub enum Request {
    /// Write raw bytes into the PTY master (simulating user input).
    WriteInput { data: String },
    /// Ask the session for its current output buffer.
    GetOutput,
    /// Subscribe to output stream.
    Subscribe,
    /// Unsubscribe from output stream.
    Unsubscribe,
    /// Authenticate with the server (TCP mode).
    Authenticate { token: String },
}

/// A request with its texts as character sequences.
pub enum RequestView {
    WriteInput { data: Seq<char> },
    GetOutput,
    Subscribe,
    Unsubscribe,
    Authenticate { token: Seq<char> },
}

impl View for Request {
    type V = RequestView;

    open spec fn view(&self) -> RequestView {
        match self {
            Request::WriteInput { data } => RequestView::WriteInput { data: data@ },
            Request::GetOutput => RequestView::GetOutput,
            Request::Subscribe => RequestView::Subscribe,
            Request::Unsubscribe => RequestView::Unsubscribe,
            Request::Authenticate { token } => RequestView::Authenticate { token: token@ },
        }
    }
}

impl Clone for Request {
    fn clone(&self) -> (r: Self)
        ensures
            r@ == self@,
    {
        match self {
            Request::WriteInput { data } => Request::WriteInput { data: data.clone() },
            Request::GetOutput => Request::GetOutput,
            Request::Subscribe => Request::Subscribe,
            Request::Unsubscribe => Request::Unsubscribe,
            Request::Authenticate { token } => Request::Authenticate { token: token.clone() },
        }
    }
}

/// Response returned by the session server over the Unix socket.
#[derive(Debug)]
pub enum Response {
    Success,
    Output {
        /// Raw bytes (base64-encoded) of the captured output.
        raw_b64: String,
        /// Rendered screen text (current VT100 state).
        screen: String,
    },
    /// Streaming output chunk (for subscribers).
    OutputChunk {
        /// Raw bytes (base64-encoded) of the new output chunk.
        raw_b64: String,
    },
    Error { message: String },
}

/// A response with its texts as character sequences.
pub enum ResponseView {
    Success,
    Output { raw_b64: Seq<char>, screen: Seq<char> },
    OutputChunk { raw_b64: Seq<char> },
    Error { message: Seq<char> },
}

impl View for Response {
    type V = ResponseView;

    open spec fn view(&self) -> ResponseView {
        match self {
            Response::Success => ResponseView::Success,
            Response::Output { raw_b64, screen } => ResponseView::Output {
                raw_b64: raw_b64@,
                screen: screen@,
            },
            Response::OutputChunk { raw_b64 } => ResponseView::OutputChunk { raw_b64: raw_b64@ },
            Response::Error { message } => ResponseView::Error { message: message@ },
        }
    }
}

impl Clone for Response {
    fn clone(&self) -> (r: Self)
        ensures
            r@ == self@,
    {
        match self {
            Response::Success => Response::Success,
            Response::Output { raw_b64, screen } => Response::Output {
                raw_b64: raw_b64.clone(),
                screen: screen.clone(),
            },
            Response::OutputChunk { raw_b64 } => Response::OutputChunk { raw_b64: raw_b64.clone() },
            Response::Error { message } => Response::Error { message: message.clone() },
        }
    }
}

// ───────────────────────── framing ─────────────────────────

/// The largest frame body a reader accepts: 4 MiB.
pub const MAX_FRAME_LEN: u32 = 4194304;

/// Why a frame could not be taken from the bytes.
#[derive(Debug, Clone, Copy, PartialEq, Eq)]
pub enum FrameError {
    /// The bytes end before the frame does.
    Incomplete,
    /// The length prefix is over `MAX_FRAME_LEN`.
    TooLarge { len: u32 },
}

/// `n` as four little-endian bytes (`u32::to_le_bytes`).
pub open spec fn le_bytes(n: u32) -> Seq<u8> {
    seq![
        (n & 0xff) as u8,
        ((n >> 8u32) & 0xff) as u8,
        ((n >> 16u32) & 0xff) as u8,
        ((n >> 24u32) & 0xff) as u8,
    ]
}

/// The value of four little-endian bytes (`u32::from_le_bytes`).
pub open spec fn le_value(b0: u8, b1: u8, b2: u8, b3: u8) -> u32 {
    (b0 as u32) | ((b1 as u32) << 8u32) | ((b2 as u32) << 16u32) | ((b3 as u32) << 24u32)
}

/// The frame of a payload: its length as a `u32` (cut to 32 bits), little
/// endian, then the payload.
pub open spec fn frame_of(payload: Seq<u8>) -> Seq<u8> {
    le_bytes(payload.len() as u32) + payload
}

/// What `split_frame` gives: the first frame's body and the number of bytes
/// it takes, checking the length before waiting for the body.
pub open spec fn split_frame_spec(buf: Seq<u8>) -> Result<(Seq<u8>, int), FrameError> {
    if buf.len() < 4 {
        Err(FrameError::Incomplete)
    } else {
        let n = le_value(buf[0], buf[1], buf[2], buf[3]);
        if n > MAX_FRAME_LEN {
            Err(FrameError::TooLarge { len: n })
        } else if buf.len() < 4 + n {
            Err(FrameError::Incomplete)
        } else {
            Ok((buf.subrange(4, 4 + n), 4 + n))
        }
    }
}

/// Four bytes hold the value they were made from.
pub proof fn lemma_le_roundtrip(n: u32)
    ensures
        le_value(le_bytes(n)[0], le_bytes(n)[1], le_bytes(n)[2], le_bytes(n)[3]) == n,
{
    let b0 = (n & 0xff) as u8;
    let b1 = ((n >> 8u32) & 0xff) as u8;
    let b2 = ((n >> 16u32) & 0xff) as u8;
    let b3 = ((n >> 24u32) & 0xff) as u8;
    assert((b0 as u32) | ((b1 as u32) << 8u32) | ((b2 as u32) << 16u32) | ((b3 as u32) << 24u32)
        == n) by (bit_vector)
        requires
            b0 == (n & 0xff) as u8,
            b1 == ((n >> 8u32) & 0xff) as u8,
            b2 == ((n >> 16u32) & 0xff) as u8,
            b3 == ((n >> 24u32) & 0xff) as u8,
    ;
}

/// Frames the payload: its length as a little-endian `u32`, then the bytes.
pub fn encode_frame(payload: &[u8]) -> (r: Vec<u8>)
    ensures
        r@ == frame_of(payload@),
{
    let n = payload.len() as u32;
    let mut r: Vec<u8> = Vec::new();
    r.push((n & 0xff) as u8);
    r.push(((n >> 8u32) & 0xff) as u8);
    r.push(((n >> 16u32) & 0xff) as u8);
    r.push(((n >> 24u32) & 0xff) as u8);
    let mut i: usize = 0;
    while i < payload.len()
        invariant
            i <= payload@.len(),
            r@ == le_bytes(n) + payload@.take(i as int),
        decreases payload@.len() - i,
    {
        r.push(payload[i]);
        assert(payload@.take(i + 1) =~= payload@.take(i as int).push(payload@[i as int]));
        i += 1;
    }
    assert(payload@.take(i as int) =~= payload@);
    r
}

/// The body length that a frame header announces, refused when it is over
/// `MAX_FRAME_LEN`.
pub fn frame_length(header: &[u8]) -> (r: Result<u32, FrameError>)
    requires
        header@.len() == 4,
    ensures
        ({
            let n = le_value(header@[0], header@[1], header@[2], header@[3]);
            if n > MAX_FRAME_LEN {
                r == Err::<u32, FrameError>(FrameError::TooLarge { len: n })
            } else {
                r == Ok::<u32, FrameError>(n)
            }
        }),
{
    let n = (header[0] as u32) | ((header[1] as u32) << 8u32) | ((header[2] as u32) << 16u32) | ((
    header[3] as u32) << 24u32);
    if n > MAX_FRAME_LEN {
        Err(FrameError::TooLarge { len: n })
    } else {
        Ok(n)
    }
}

/// Takes the first frame from the bytes: its body and how many bytes it
/// took.
pub fn split_frame(buf: &[u8]) -> (r: Result<(Vec<u8>, usize), FrameError>)
    ensures
        match r {
            Ok((body, used)) => split_frame_spec(buf@) == Ok::<(Seq<u8>, int), FrameError>(
                (body@, used as int),
            ),
            Err(e) => split_frame_spec(buf@) == Err::<(Seq<u8>, int), FrameError>(e),
        },
{
    if buf.len() < 4 {
        return Err(FrameError::Incomplete);
    }
    let header = [buf[0], buf[1], buf[2], buf[3]];
    let n = match frame_length(&header) {
        Ok(n) => n,
        Err(e) => {
            return Err(e);
        },
    };
    let total = 4 + n as usize;
    if buf.len() < total {
        return Err(FrameError::Incomplete);
    }
    let mut body: Vec<u8> = Vec::new();
    let mut i: usize = 4;
    while i < total
        invariant
            4 <= i <= total <= buf@.len(),
            body@ == buf@.subrange(4, i as int),
        decreases total - i,
    {
        body.push(buf[i]);
        assert(buf@.subrange(4, i + 1) =~= buf@.subrange(4, i as int).push(buf@[i as int]));
        i += 1;
    }
    Ok((body, total))
}

/// A payload of at most `MAX_FRAME_LEN` bytes, framed and followed by any
/// bytes, is taken back whole, and the frame's length is what it takes: what
/// one side writes the other reads, frame by frame.
pub proof fn lemma_frame_roundtrip(payload: Seq<u8>, rest: Seq<u8>)
    requires
        payload.len() <= MAX_FRAME_LEN,
    ensures
        split_frame_spec(frame_of(payload) + rest) == Ok::<(Seq<u8>, int), FrameError>(
            (payload, 4 + payload.len() as int),
        ),
{
    let n = payload.len() as u32;
    lemma_le_roundtrip(n);
    let buf = frame_of(payload) + rest;
    assert(buf[0] == le_bytes(n)[0]);
    assert(buf[1] == le_bytes(n)[1]);
    assert(buf[2] == le_bytes(n)[2]);
    assert(buf[3] == le_bytes(n)[3]);
    assert(buf.subrange(4, 4 + payload.len() as int) =~= payload);
}

} // verus!

//! What a session answers its clients: each connection is a small state
//! machine (subscribed to the output stream or not) that turns each event
//! into an action; and the first request a TCP client must send.
use crate::buffer::{screen_text, vt_grid, OutputBuffer};
use crate::encoding::{base64_encode, encode_base64, encoded_len_fits};
use crate::protocol::{Request, RequestView, Response, ResponseView};
use crate::text::{chars_eq, chars_of, string_of};
use vstd::prelude::*;

verus! {

/// Whether a connection receives the output stream.
#[derive(Debug, Clone, Copy, PartialEq, Eq, Structural)]
pub enum ClientState {
    /// Requests only.
    Idle,
    /// Requests, and a chunk for each piece of new output.
    Subscribed,
}

/// What happened on a connection.
#[derive(Debug)]
pub enum ClientEvent {
    /// A request arrived.
    Request(Request),
    /// Reading the next request failed (the client went away or sent a bad
    /// frame).
    ReadFailed,
    /// New output arrived from the session.
    Chunk(Vec<u8>),
    /// The output stream was closed or fell behind.
    StreamLost,
}

/// An event with its contents as sequences.
pub enum ClientEventView {
    Request(RequestView),
    ReadFailed,
    Chunk(Seq<u8>),
    StreamLost,
}

impl View for ClientEvent {
    type V = ClientEventView;

    open spec fn view(&self) -> ClientEventView {
        match self {
            ClientEvent::Request(r) => ClientEventView::Request(r@),
            ClientEvent::ReadFailed => ClientEventView::ReadFailed,
            ClientEvent::Chunk(data) => ClientEventView::Chunk(data@),
            ClientEvent::StreamLost => ClientEventView::StreamLost,
        }
    }
}

/// What the session does next for a connection.
#[derive(Debug)]
pub enum ClientAction {
    /// Send the response.
    Reply(Response),
    /// Write the data into the PTY, then send `write_reply` of the outcome.
    WriteToPty { data: String },
    /// Send `output_reply` of the output buffer (or `poisoned_buffer_reply`).
    SendOutput,
    /// Close the connection.
    Close,
    /// Send nothing; wait for the next event.
    Nothing,
}

/// An action with its contents as sequences.
pub enum ClientActionView {
    Reply(ResponseView),
    WriteToPty { data: Seq<char> },
    SendOutput,
    Close,
    Nothing,
}

impl View for ClientAction {
    type V = ClientActionView;

    open spec fn view(&self) -> ClientActionView {
        match self {
            ClientAction::Reply(r) => ClientActionView::Reply(r@),
            ClientAction::WriteToPty { data } => ClientActionView::WriteToPty { data: data@ },
            ClientAction::SendOutput => ClientActionView::SendOutput,
            ClientAction::Close => ClientActionView::Close,
            ClientAction::Nothing => ClientActionView::Nothing,
        }
    }
}

pub open spec fn msg_already_subscribed() -> Seq<char> {
    seq!['a', 'l', 'r', 'e', 'a', 'd', 'y', ' ', 's', 'u', 'b', 's', 'c', 'r', 'i', 'b', 'e', 'd']
}

pub open spec fn msg_not_supported() -> Seq<char> {
    seq!['n', 'o', 't', ' ', 's', 'u', 'p', 'p', 'o', 'r', 't', 'e', 'd']
}

pub open spec fn msg_write_failed() -> Seq<char> {
    seq![
        'w', 'r', 'i', 't', 'e', ' ', 't', 'o', ' ', 'P', 'T', 'Y', ' ', 'f', 'a', 'i', 'l', 'e',
        'd',
    ]
}

pub open spec fn msg_writer_poisoned() -> Seq<char> {
    seq![
        'P', 'T', 'Y', ' ', 'w', 'r', 'i', 't', 'e', 'r', ' ', 'l', 'o', 'c', 'k', ' ', 'p', 'o',
        'i', 's', 'o', 'n', 'e', 'd',
    ]
}

pub open spec fn msg_buffer_poisoned() -> Seq<char> {
    seq![
        'b', 'u', 'f', 'f', 'e', 'r', ' ', 'l', 'o', 'c', 'k', ' ', 'p', 'o', 'i', 's', 'o', 'n',
        'e', 'd',
    ]
}

pub open spec fn msg_invalid_token() -> Seq<char> {
    seq!['i', 'n', 'v', 'a', 'l', 'i', 'd', ' ', 't', 'o', 'k', 'e', 'n']
}

pub open spec fn msg_authentication_required() -> Seq<char> {
    seq![
        'a', 'u', 't', 'h', 'e', 'n', 't', 'i', 'c', 'a', 't', 'i', 'o', 'n', ' ', 'r', 'e', 'q',
        'u', 'i', 'r', 'e', 'd',
    ]
}

/// The error response with the message.
pub open spec fn error_reply(message: Seq<char>) -> ResponseView {
    ResponseView::Error { message }
}

/// The next state and action of a connection in `state` on the event.
///
/// A failed read closes the connection; a lost stream ends the
/// subscription silently; new output goes to subscribers only, base64
/// encoded; `unsubscribe` always succeeds; `subscribe` fails when already
/// subscribed; input is written to the PTY and output read from the buffer
/// in either state; `authenticate` is not supported on a session socket (a
/// subscribed connection is closed on it).
pub open spec fn client_step(state: ClientState, ev: ClientEventView) -> (
    ClientState,
    ClientActionView,
) {
    match ev {
        ClientEventView::ReadFailed => (state, ClientActionView::Close),
        ClientEventView::StreamLost => (ClientState::Idle, ClientActionView::Nothing),
        ClientEventView::Chunk(data) => if state == ClientState::Subscribed {
            (
                ClientState::Subscribed,
                ClientActionView::Reply(ResponseView::OutputChunk { raw_b64: base64_encode(data) }),
            )
        } else {
            (ClientState::Idle, ClientActionView::Nothing)
        },
        ClientEventView::Request(r) => match r {
            RequestView::Unsubscribe => (
                ClientState::Idle,
                ClientActionView::Reply(ResponseView::Success),
            ),
            RequestView::Subscribe => if state == ClientState::Subscribed {
                (
                    ClientState::Subscribed,
                    ClientActionView::Reply(error_reply(msg_already_subscribed())),
                )
            } else {
                (ClientState::Subscribed, ClientActionView::Reply(ResponseView::Success))
            },
            RequestView::WriteInput { data } => (state, ClientActionView::WriteToPty { data }),
            RequestView::GetOutput => (state, ClientActionView::SendOutput),
            RequestView::Authenticate { .. } => if state == ClientState::Subscribed {
                (state, ClientActionView::Close)
            } else {
                (state, ClientActionView::Reply(error_reply(msg_not_supported())))
            },
        },
    }
}

/// The chunk of an event can be encoded.
pub open spec fn event_encodable(ev: ClientEventView) -> bool {
    ev matches ClientEventView::Chunk(data) ==> encoded_len_fits(data.len())
}

/// The error response with a message made of the characters.
fn error_response(message: &[char]) -> (r: Response)
    ensures
        r@ == error_reply(message@),
{
    Response::Error { message: string_of(message) }
}

/// The next state and action of a connection on an event.
pub fn handle_event(state: ClientState, event: ClientEvent) -> (r: (ClientState, ClientAction))
    requires
        event_encodable(event@),
    ensures
        (r.0, r.1@) == client_step(state, event@),
{
    match event {
        ClientEvent::ReadFailed => (state, ClientAction::Close),
        ClientEvent::StreamLost => (ClientState::Idle, ClientAction::Nothing),
        ClientEvent::Chunk(data) => {
            if state == ClientState::Subscribed {
                let raw_b64 = encode_base64(data.as_slice());
                (ClientState::Subscribed, ClientAction::Reply(Response::OutputChunk { raw_b64 }))
            } else {
                (ClientState::Idle, ClientAction::Nothing)
            }
        },
        ClientEvent::Request(req) => match req {
            Request::Unsubscribe => (ClientState::Idle, ClientAction::Reply(Response::Success)),
            Request::Subscribe => {
                if state == ClientState::Subscribed {
                    (
                        ClientState::Subscribed,
                        ClientAction::Reply(
                            error_response(
                                &[
                                    'a', 'l', 'r', 'e', 'a', 'd', 'y', ' ', 's', 'u', 'b', 's',
                                    'c', 'r', 'i', 'b', 'e', 'd',
                                ],
                            ),
                        ),
                    )
                } else {
                    (ClientState::Subscribed, ClientAction::Reply(Response::Success))
                }
            },
            Request::WriteInput { data } => (state, ClientAction::WriteToPty { data }),
            Request::GetOutput => (state, ClientAction::SendOutput),
            Request::Authenticate { .. } => {
                if state == ClientState::Subscribed {
                    (state, ClientAction::Close)
                } else {
                    (
                        state,
                        ClientAction::Reply(
                            error_response(
                                &['n', 'o', 't', ' ', 's', 'u', 'p', 'p', 'o', 'r', 't', 'e', 'd'],
                            ),
                        ),
                    )
                }
            },
        },
    }
}

/// How writing into the PTY went.
#[derive(Debug, Clone, Copy, PartialEq, Eq)]
pub enum WriteOutcome {
    /// All the data was written.
    Written,
    /// The write failed.
    Failed,
    /// The writer's lock was poisoned.
    Poisoned,
}

/// The reply to a write into the PTY.
pub open spec fn write_reply_spec(outcome: WriteOutcome) -> ResponseView {
    match outcome {
        WriteOutcome::Written => ResponseView::Success,
        WriteOutcome::Failed => error_reply(msg_write_failed()),
        WriteOutcome::Poisoned => error_reply(msg_writer_poisoned()),
    }
}

/// The reply to a write into the PTY.
pub fn write_reply(outcome: WriteOutcome) -> (r: Response)
    ensures
        r@ == write_reply_spec(outcome),
{
    match outcome {
        WriteOutcome::Written => Response::Success,
        WriteOutcome::Failed => error_response(
            &['w', 'r', 'i', 't', 'e', ' ', 't', 'o', ' ', 'P', 'T', 'Y', ' ', 'f', 'a', 'i', 'l', 'e', 'd'],
        ),
        WriteOutcome::Poisoned => error_response(
            &[
                'P', 'T', 'Y', ' ', 'w', 'r', 'i', 't', 'e', 'r', ' ', 'l', 'o', 'c', 'k', ' ', 'p',
                'o', 'i', 's', 'o', 'n', 'e', 'd',
            ],
        ),
    }
}

/// The reply to `get_output`: the raw bytes in base64 and the rendered
/// screen.
pub fn output_reply(buffer: &OutputBuffer) -> (r: Response)
    requires
        buffer.wf(),
    ensures
        r matches Response::Output { raw_b64, screen } && raw_b64@ == base64_encode(buffer@)
            && screen@ == screen_text(
            vt_grid(buffer.screen_size().0, buffer.screen_size().1, buffer.screen_input()),
        ),
{
    let raw_b64 = buffer.raw_b64();
    let screen = buffer.screen_contents();
    Response::Output { raw_b64, screen }
}

/// The reply to `get_output` when the buffer's lock was poisoned.
pub fn poisoned_buffer_reply() -> (r: Response)
    ensures
        r@ == error_reply(msg_buffer_poisoned()),
{
    error_response(
        &[
            'b', 'u', 'f', 'f', 'e', 'r', ' ', 'l', 'o', 'c', 'k', ' ', 'p', 'o', 'i', 's', 'o',
            'n', 'e', 'd',
        ],
    )
}

// ───────────────────────── TCP authentication ─────────────────────────

/// What the first request of a TCP client gives: an `authenticate` with the
/// expected token is let through (and answered `Ok`); another token is
/// refused as invalid; any other request is refused as unauthenticated.
pub open spec fn first_request_check(req: RequestView, expected: Seq<char>) -> Result<
    (),
    ResponseView,
> {
    match req {
        RequestView::Authenticate { token } => if token == expected {
            Ok(())
        } else {
            Err(error_reply(msg_invalid_token()))
        },
        _ => Err(error_reply(msg_authentication_required())),
    }
}

/// Checks the first request of a TCP client against the expected token;
/// the error is the response to send before closing.
pub fn check_first_request(req: &Request, expected_token: &str) -> (r: Result<(), Response>)
    ensures
        match r {
            Ok(()) => first_request_check(req@, expected_token@) == Ok::<(), ResponseView>(()),
            Err(resp) => first_request_check(req@, expected_token@) == Err::<(), ResponseView>(
                resp@,
            ),
        },
{
    match req {
        Request::Authenticate { token } => {
            let given = chars_of(token.as_str());
            let expected = chars_of(expected_token);
            if chars_eq(given.as_slice(), expected.as_slice()) {
                Ok(())
            } else {
                Err(
                    error_response(
                        &['i', 'n', 'v', 'a', 'l', 'i', 'd', ' ', 't', 'o', 'k', 'e', 'n'],
                    ),
                )
            }
        },
        _ => Err(
            error_response(
                &[
                    'a', 'u', 't', 'h', 'e', 'n', 't', 'i', 'c', 'a', 't', 'i', 'o', 'n', ' ', 'r',
                    'e', 'q', 'u', 'i', 'r', 'e', 'd',
                ],
            ),
        ),
    }
}

// ───────────────────────── laws ─────────────────────────

/// A connection that is not subscribed is sent no output.
pub proof fn lemma_idle_gets_no_output(data: Seq<u8>)
    ensures
        client_step(ClientState::Idle, ClientEventView::Chunk(data)).1 == ClientActionView::Nothing,
{
}

/// After subscribing, each piece of new output is sent as a chunk of its
/// base64.
pub proof fn lemma_subscribe_then_output(state: ClientState, data: Seq<u8>)
    ensures
        ({
            let (s1, _) = client_step(state, ClientEventView::Request(RequestView::Subscribe));
            client_step(s1, ClientEventView::Chunk(data)) == (
                ClientState::Subscribed,
                ClientActionView::Reply(ResponseView::OutputChunk { raw_b64: base64_encode(data) }),
            )
        }),
{
}

/// Subscribing twice: the second is refused as already subscribed, and the
/// subscription stays.
pub proof fn lemma_subscribe_twice(state: ClientState)
    ensures
        ({
            let (s1, _) = client_step(state, ClientEventView::Request(RequestView::Subscribe));
            client_step(s1, ClientEventView::Request(RequestView::Subscribe)) == (
                ClientState::Subscribed,
                ClientActionView::Reply(error_reply(msg_already_subscribed())),
            )
        }),
{
}

/// After unsubscribing (which always succeeds), no more output is sent.
pub proof fn lemma_unsubscribe_stops_output(state: ClientState, data: Seq<u8>)
    ensures
        client_step(state, ClientEventView::Request(RequestView::Unsubscribe)) == (
            ClientState::Idle,
            ClientActionView::Reply(ResponseView::Success),
        ),
        ({
            let (s1, _) = client_step(state, ClientEventView::Request(RequestView::Unsubscribe));
            client_step(s1, ClientEventView::Chunk(data)).1 == ClientActionView::Nothing
        }),
{
}

/// Requests for input and output are served the same whether or not the
/// connection is subscribed, and do not change the subscription.
pub proof fn lemma_requests_independent_of_subscription(state: ClientState, data: Seq<char>)
    ensures
        client_step(state, ClientEventView::Request(RequestView::WriteInput { data })) == (
            state,
            ClientActionView::WriteToPty { data },
        ),
        client_step(state, ClientEventView::Request(RequestView::GetOutput)) == (
            state,
            ClientActionView::SendOutput,
        ),
{
}

/// Only the expected token lets a TCP client through.
pub proof fn lemma_only_expected_token_passes(req: RequestView, expected: Seq<char>)
    ensures
        first_request_check(req, expected) is Ok <==> req == (RequestView::Authenticate {
            token: expected,
        }),
{
}

} // verus!

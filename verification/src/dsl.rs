//! The client side of test scripts: the output gathered while waiting for a
//! pattern, and what each response to a request means.
use crate::encoding::{base64_decode, base64_encode, decode_base64, utf8_to_string};
use crate::protocol::{Response, ResponseView};
use crate::text::{chars_of, contains, str_contains, string_of};
use vstd::prelude::*;
use vstd::string::StringExecFns;
use vstd::utf8::{decode_utf8, valid_utf8};

verus! {

/// The text that a streamed chunk carries: its base64 decoded, when that
/// works and gives valid UTF-8.
pub open spec fn chunk_text(raw_b64: Seq<char>) -> Option<Seq<char>> {
    match base64_decode(raw_b64) {
        Some(bytes) => if valid_utf8(bytes) {
            Some(decode_utf8(bytes))
        } else {
            None
        },
        None => None,
    }
}

/// What a response read while waiting for a pattern leads to.
#[derive(Debug)]
pub enum StreamOutcome {
    /// The pattern is now in the gathered output.
    Found,
    /// Keep reading.
    Continue,
    /// The session reported an error.
    Failed { message: String },
}

/// An outcome with its message as characters.
pub enum StreamOutcomeView {
    Found,
    Continue,
    Failed { message: Seq<char> },
}

impl View for StreamOutcome {
    type V = StreamOutcomeView;

    open spec fn view(&self) -> StreamOutcomeView {
        match self {
            StreamOutcome::Found => StreamOutcomeView::Found,
            StreamOutcome::Continue => StreamOutcomeView::Continue,
            StreamOutcome::Failed { message } => StreamOutcomeView::Failed { message: message@ },
        }
    }
}

/// The gathered output after a response and what it leads to: a chunk's
/// text (if it has one) is appended and the pattern looked for; an error
/// stops the wait; anything else is passed over.
pub open spec fn absorb_spec(log: Seq<char>, resp: ResponseView, pattern: Seq<char>) -> (
    Seq<char>,
    StreamOutcomeView,
) {
    match resp {
        ResponseView::OutputChunk { raw_b64 } => match chunk_text(raw_b64) {
            Some(text) => if contains(log + text, pattern) {
                (log + text, StreamOutcomeView::Found)
            } else {
                (log + text, StreamOutcomeView::Continue)
            },
            None => (log, StreamOutcomeView::Continue),
        },
        ResponseView::Error { message } => (log, StreamOutcomeView::Failed { message }),
        _ => (log, StreamOutcomeView::Continue),
    }
}

/// What a wait for a pattern does next, before streaming.
#[derive(Debug, Clone, Copy, PartialEq, Eq, Structural)]
pub enum WaitStep {
    /// The pattern is there: the wait is over.
    Done,
    /// Fetch the screen and hand it back.
    FetchScreen,
    /// Subscribe and read the stream.
    Subscribe,
}

/// Output gathered while waiting for patterns.
pub struct OutputLog {
    text: String,
}

impl View for OutputLog {
    type V = Seq<char>;

    closed spec fn view(&self) -> Seq<char> {
        self.text@
    }
}

impl OutputLog {
    /// An empty log.
    pub fn new() -> (r: Self)
        ensures
            r@ == Seq::<char>::empty(),
    {
        OutputLog { text: String::new() }
    }

    /// The gathered output.
    pub fn output_buffer(&self) -> (r: &str)
        ensures
            r@ == self@,
    {
        self.text.as_str()
    }

    /// Forget the gathered output.
    pub fn clear_buffer(&mut self)
        ensures
            final(self)@ == Seq::<char>::empty(),
    {
        self.text = String::new();
    }

    /// Whether the pattern is in the gathered output.
    pub fn contains(&self, pattern: &str) -> (r: bool)
        ensures
            r == contains(self@, pattern@),
    {
        str_contains(self.text.as_str(), pattern)
    }

    /// Take the screen as the gathered output (the baseline of a wait).
    pub fn reset_to(&mut self, screen: String)
        ensures
            final(self)@ == screen@,
    {
        self.text = screen;
    }

    /// The next step of a wait for the pattern, before any streamed output:
    /// with no screen yet, the wait is over if the gathered output holds the
    /// pattern, and the screen is fetched otherwise; with the screen, it
    /// becomes the gathered output, and the wait is over if it holds the
    /// pattern, and goes on by subscribing otherwise.
    pub fn wait_step(&mut self, pattern: &str, screen: Option<String>) -> (r: WaitStep)
        ensures
            match screen {
                None => final(self)@ == old(self)@ && r == (if contains(old(self)@, pattern@) {
                    WaitStep::Done
                } else {
                    WaitStep::FetchScreen
                }),
                Some(sc) => final(self)@ == sc@ && r == (if contains(sc@, pattern@) {
                    WaitStep::Done
                } else {
                    WaitStep::Subscribe
                }),
            },
    {
        match screen {
            None => {
                if self.contains(pattern) {
                    WaitStep::Done
                } else {
                    WaitStep::FetchScreen
                }
            },
            Some(sc) => {
                self.reset_to(sc);
                if self.contains(pattern) {
                    WaitStep::Done
                } else {
                    WaitStep::Subscribe
                }
            },
        }
    }

    /// Take in a response read while waiting for the pattern.
    pub fn absorb(&mut self, resp: Response, pattern: &str) -> (r: StreamOutcome)
        ensures
            (final(self)@, r@) == absorb_spec(old(self)@, resp@, pattern@),
            forall|data: Seq<u8>|
                resp@ == (ResponseView::OutputChunk { raw_b64: base64_encode(data) }) ==> final(self)@
                    == (if valid_utf8(data) {
                    old(self)@ + decode_utf8(data)
                } else {
                    old(self)@
                }),
    {
        match resp {
            Response::OutputChunk { raw_b64 } => {
                match decode_base64(raw_b64.as_str()) {
                    Some(bytes) => {
                        match utf8_to_string(bytes) {
                            Some(text) => {
                                self.text.append(text.as_str());
                                if str_contains(self.text.as_str(), pattern) {
                                    StreamOutcome::Found
                                } else {
                                    StreamOutcome::Continue
                                }
                            },
                            None => StreamOutcome::Continue,
                        }
                    },
                    None => StreamOutcome::Continue,
                }
            },
            Response::Error { message } => StreamOutcome::Failed { message },
            _ => StreamOutcome::Continue,
        }
    }
}

// ───────────────────────── replies to requests ─────────────────────────

/// A reply that is not what a request called for.
#[derive(Debug)]
pub enum ReplyError {
    /// The session answered with an error.
    Refused { message: String },
    /// The session answered with another kind of response.
    Unexpected { response: Response },
}

/// A reply error with its contents as views.
pub enum ReplyErrorView {
    Refused { message: Seq<char> },
    Unexpected { response: ResponseView },
}

impl View for ReplyError {
    type V = ReplyErrorView;

    open spec fn view(&self) -> ReplyErrorView {
        match self {
            ReplyError::Refused { message } => ReplyErrorView::Refused { message: message@ },
            ReplyError::Unexpected { response } => ReplyErrorView::Unexpected {
                response: response@,
            },
        }
    }
}

/// What a reply to a request that calls for `Ok` means.
pub open spec fn ack_result(resp: ResponseView) -> Result<(), ReplyErrorView> {
    match resp {
        ResponseView::Success => Ok(()),
        ResponseView::Error { message } => Err(ReplyErrorView::Refused { message }),
        _ => Err(ReplyErrorView::Unexpected { response: resp }),
    }
}

/// What a reply to `get_output` means: the raw bytes (base64) and screen.
pub open spec fn output_result(resp: ResponseView) -> Result<
    (Seq<char>, Seq<char>),
    ReplyErrorView,
> {
    match resp {
        ResponseView::Output { raw_b64, screen } => Ok((raw_b64, screen)),
        ResponseView::Error { message } => Err(ReplyErrorView::Refused { message }),
        _ => Err(ReplyErrorView::Unexpected { response: resp }),
    }
}

/// Reads a reply to `write_input`, `subscribe`, `unsubscribe` or
/// `authenticate`.
pub fn expect_ack(resp: Response) -> (r: Result<(), ReplyError>)
    ensures
        match r {
            Ok(()) => ack_result(resp@) == Ok::<(), ReplyErrorView>(()),
            Err(e) => ack_result(resp@) == Err::<(), ReplyErrorView>(e@),
        },
{
    match resp {
        Response::Success => Ok(()),
        Response::Error { message } => Err(ReplyError::Refused { message }),
        other => Err(ReplyError::Unexpected { response: other }),
    }
}

/// Reads a reply to `get_output`: the raw bytes (base64) and the screen.
pub fn expect_output(resp: Response) -> (r: Result<(String, String), ReplyError>)
    ensures
        match r {
            Ok((raw_b64, screen)) => output_result(resp@) == Ok::<
                (Seq<char>, Seq<char>),
                ReplyErrorView,
            >((raw_b64@, screen@)),
            Err(e) => output_result(resp@) == Err::<(Seq<char>, Seq<char>), ReplyErrorView>(e@),
        },
{
    match resp {
        Response::Output { raw_b64, screen } => Ok((raw_b64, screen)),
        Response::Error { message } => Err(ReplyError::Refused { message }),
        other => Err(ReplyError::Unexpected { response: other }),
    }
}

/// The message of a failed screen assertion.
pub open spec fn assert_failure_message(expected: Seq<char>, screen: Seq<char>) -> Seq<char> {
    seq![
        'a', 's', 's', 'e', 'r', 't', '_', 's', 'c', 'r', 'e', 'e', 'n', '_', 'c', 'o', 'n', 't',
        'a', 'i', 'n', 's', ' ', 'f', 'a', 'i', 'l', 'e', 'd', ':', ' ', 'e', 'x', 'p', 'e', 'c',
        't', 'e', 'd', ' ', '\'',
    ] + expected + seq![
        '\'', ' ', 'n', 'o', 't', ' ', 'f', 'o', 'u', 'n', 'd', ' ', 'i', 'n', ' ', 's', 'c', 'r',
        'e', 'e', 'n', ':', '\n',
    ] + screen
}

/// Asserts that the screen contains the expected text; the error is the
/// message that says it does not, with the screen.
pub fn check_screen_contains(screen: &str, expected: &str) -> (r: Result<(), String>)
    ensures
        r is Ok <==> contains(screen@, expected@),
        r matches Err(m) ==> m@ == assert_failure_message(expected@, screen@),
{
    if str_contains(screen, expected) {
        return Ok(());
    }
    let mut out: Vec<char> = Vec::new();
    crate::runner::append(
        &mut out,
        &[
            'a', 's', 's', 'e', 'r', 't', '_', 's', 'c', 'r', 'e', 'e', 'n', '_', 'c', 'o', 'n',
            't', 'a', 'i', 'n', 's', ' ', 'f', 'a', 'i', 'l', 'e', 'd', ':', ' ', 'e', 'x', 'p',
            'e', 'c', 't', 'e', 'd', ' ', '\'',
        ],
    );
    let e = chars_of(expected);
    crate::runner::append(&mut out, e.as_slice());
    crate::runner::append(
        &mut out,
        &[
            '\'', ' ', 'n', 'o', 't', ' ', 'f', 'o', 'u', 'n', 'd', ' ', 'i', 'n', ' ', 's', 'c',
            'r', 'e', 'e', 'n', ':', '\n',
        ],
    );
    let s = chars_of(screen);
    crate::runner::append(&mut out, s.as_slice());
    assert(out@ =~= assert_failure_message(expected@, screen@));
    Err(string_of(out.as_slice()))
}

} // verus!

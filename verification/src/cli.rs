//! The actions of the command line's `remote` and `test` commands, and the
//! requests they make.
use crate::protocol::{Request, RequestView};
use vstd::prelude::*;

verus! {

/// What `remote` does on a session reached over TCP.
#[derive(Debug)]
pub enum RemoteAction {
    /// Write input to the remote session.
    Write { data: String },
    /// Get current output from the remote session.
    Dump,
}

/// What `test` checks on a session.
#[derive(Debug)]
pub enum TestAction {
    /// Wait for a pattern to appear in the output.
    WaitFor {
        /// Pattern to wait for.
        pattern: String,
        /// Timeout in seconds (default: 5).
        timeout: Option<u64>,
    },
    /// Assert that the screen contains the given text.
    AssertContains {
        /// Text that should be present on screen.
        text: String,
    },
    /// Write input to the session.
    Write {
        /// Data to send (e.g. "ls\n").
        data: String,
    },
}

/// The request that a remote action sends after authenticating.
pub open spec fn remote_request_spec(data: Option<Seq<char>>) -> RequestView {
    match data {
        Some(d) => RequestView::WriteInput { data: d },
        None => RequestView::GetOutput,
    }
}

/// The data a remote action writes (`None` for a dump).
pub open spec fn remote_data(a: RemoteAction) -> Option<Seq<char>> {
    match a {
        RemoteAction::Write { data } => Some(data@),
        RemoteAction::Dump => None,
    }
}

/// The request that a remote action sends after authenticating.
pub fn remote_request(action: RemoteAction) -> (r: Request)
    ensures
        r@ == remote_request_spec(remote_data(action)),
{
    match action {
        RemoteAction::Write { data } => Request::WriteInput { data },
        RemoteAction::Dump => Request::GetOutput,
    }
}

/// The first request of a remote session: the token.
pub fn auth_request(token: &str) -> (r: Request)
    ensures
        r@ == (RequestView::Authenticate { token: token@ }),
{
    Request::Authenticate { token: token.to_owned() }
}

/// How long `test wait-for` waits, in seconds: 5 unless given.
pub fn wait_timeout_secs(timeout: Option<u64>) -> (secs: u64)
    ensures
        secs == match timeout {
            Some(t) => t,
            None => 5,
        },
{
    match timeout {
        Some(t) => t,
        None => 5,
    }
}

} // verus!

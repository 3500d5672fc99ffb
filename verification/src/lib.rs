//! Terminal session testing: a session's captured output and screen, its
//! lock file and socket protocol, and the DSL of test scripts run against it.
use vstd::prelude::*;

pub mod bench;
pub mod buffer;
pub mod cli;
pub mod debug;
pub mod debugger;
pub mod dsl;
pub mod encoding;
pub mod lock;
pub mod number;
pub mod protocol;
pub mod runner;
pub mod script;
pub mod server;
pub mod text;

verus! {

/// The default shell on the operating system named `os` (as
/// `std::env::consts::OS` names it).
pub open spec fn shell_for(os: Seq<char>) -> Seq<char> {
    if os == seq!['m', 'a', 'c', 'o', 's'] {
        seq!['/', 'b', 'i', 'n', '/', 'z', 's', 'h']
    } else if os == seq!['l', 'i', 'n', 'u', 'x'] {
        seq!['/', 'b', 'i', 'n', '/', 'b', 'a', 's', 'h']
    } else {
        seq!['/', 'b', 'i', 'n', '/', 's', 'h']
    }
}

/// Returns the default shell path for a platform:
///
/// - macOS: `/bin/zsh` (zsh is the default shell since macOS Catalina)
/// - Linux: `/bin/bash` (most widely available)
/// - any other: `/bin/sh`
pub fn default_shell_for(os: &str) -> (r: String)
    ensures
        r@ == shell_for(os@),
{
    let v = text::chars_of(os);
    let mut out: Vec<char> = Vec::new();
    if text::chars_eq(v.as_slice(), &['m', 'a', 'c', 'o', 's']) {
        runner::append(&mut out, &['/', 'b', 'i', 'n', '/', 'z', 's', 'h']);
    } else if text::chars_eq(v.as_slice(), &['l', 'i', 'n', 'u', 'x']) {
        runner::append(&mut out, &['/', 'b', 'i', 'n', '/', 'b', 'a', 's', 'h']);
    } else {
        runner::append(&mut out, &['/', 'b', 'i', 'n', '/', 's', 'h']);
    }
    assert(out@ =~= shell_for(os@));
    text::string_of(out.as_slice())
}

} // verus!

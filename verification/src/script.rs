//! The text DSL of test scripts (`.atdsl`): one command per line, blank
//! lines and `#` comments skipped.
//!
//! ```text
//! wait_for "$" 5s
//! write "vim test.txt\n"
//! assert_screen "Hello World"
//! key esc
//! wait 1s
//! ```
use crate::number::{
    all_digits_in, decimal, hex_val, parse_hex_u8, parse_hex_u8_chars, parse_u64, parse_u64_chars,
    radix_value, unsigned_digits,
};
use crate::text::{
    chars_eq, chars_of, is_ws, join_spaced, join_words, lemma_word_len_bound, line_len, lines,
    split_lines, strip_cr,
    split_words, string_of, trim, trim_chars, trim_end, trim_start, vec_of_range, views, word_len,
    words,
};
use std::time::Duration;
use vstd::prelude::*;

verus! {

// ───────────────────────── durations ─────────────────────────

/// The length of a `Duration` in nanoseconds (what `Duration::as_nanos`
/// returns): the model of a `Duration`, which it determines.
pub uninterp spec fn duration_nanos(d: Duration) -> int;

/// `Duration::from_millis`: `ms` milliseconds.
#[verifier::external_body]
pub(crate) fn duration_from_millis(ms: u64) -> (d: Duration)
    ensures
        duration_nanos(d) == ms * 1_000_000,
{
    Duration::from_millis(ms)
}

/// `Duration::from_secs`: `secs` seconds.
#[verifier::external_body]
pub(crate) fn duration_from_secs(secs: u64) -> (d: Duration)
    ensures
        duration_nanos(d) == secs * 1_000_000_000,
{
    Duration::from_secs(secs)
}

/// `Duration::as_millis`: the whole milliseconds.
#[verifier::external_body]
pub(crate) fn duration_as_millis(d: &Duration) -> (ms: u128)
    ensures
        ms == duration_nanos(*d) / 1_000_000,
{
    d.as_millis()
}

/// `Duration::as_secs`: the whole seconds.
#[verifier::external_body]
pub(crate) fn duration_as_secs(d: &Duration) -> (secs: u64)
    ensures
        secs == duration_nanos(*d) / 1_000_000_000,
{
    d.as_secs()
}

/// `Duration` is `Copy`: its `clone` returns the same value.
pub assume_specification[ <Duration as Clone>::clone ](d: &Duration) -> (r: Duration)
    ensures
        r == *d,
;

/// What `str::to_lowercase` returns (full Unicode case mapping).
pub uninterp spec fn lowercase(s: Seq<char>) -> Seq<char>;

/// `str::to_lowercase`: the result is named by `lowercase`.
#[verifier::external_body]
pub(crate) fn to_lowercase(s: &str) -> (r: String)
    ensures
        r@ == lowercase(s@),
{
    s.to_lowercase()
}

/// Why a duration did not parse.
#[derive(Debug, Clone, Copy, PartialEq, Eq)]
pub enum DurationError {
    /// `<n>ms` with a bad number.
    InvalidMillis,
    /// `<n>s` with a bad number.
    InvalidSeconds,
    /// `<n>m` with a bad number.
    InvalidMinutes,
    /// No unit and not a number.
    InvalidFormat,
}

/// The text ends with `ms`.
pub open spec fn ends_ms(t: Seq<char>) -> bool {
    t.len() >= 2 && t[t.len() - 2] == 'm' && t[t.len() - 1] == 's'
}

/// The text ends with the character `c`.
pub open spec fn ends_with_char(t: Seq<char>, c: char) -> bool {
    t.len() >= 1 && t[t.len() - 1] == c
}

/// What `parse_duration` gives for `s`, in nanoseconds: `<n>ms`, `<n>s`,
/// `<n>m` or a bare number of milliseconds, after trimming; the units are
/// tried in that order.
pub open spec fn duration_result(s: Seq<char>) -> Result<int, DurationError> {
    let t = trim(s);
    if ends_ms(t) {
        match parse_u64(t.take(t.len() - 2)) {
            Some(n) => Ok(n * 1_000_000),
            None => Err(DurationError::InvalidMillis),
        }
    } else if ends_with_char(t, 's') {
        match parse_u64(t.drop_last()) {
            Some(n) => Ok(n * 1_000_000_000),
            None => Err(DurationError::InvalidSeconds),
        }
    } else if ends_with_char(t, 'm') {
        match parse_u64(t.drop_last()) {
            Some(n) => Ok(n * 60 * 1_000_000_000),
            None => Err(DurationError::InvalidMinutes),
        }
    } else {
        match parse_u64(t) {
            Some(n) => Ok(n * 1_000_000),
            None => Err(DurationError::InvalidFormat),
        }
    }
}

/// A duration result with the duration in nanoseconds.
pub open spec fn duration_view(r: Result<Duration, DurationError>) -> Result<int, DurationError> {
    match r {
        Ok(d) => Ok(duration_nanos(d)),
        Err(e) => Err(e),
    }
}

/// `s` is a number of minutes whose seconds do not fit in a `u64`; the
/// conversion overflows there.
pub open spec fn duration_overflows(s: Seq<char>) -> bool {
    let t = trim(s);
    &&& !ends_ms(t)
    &&& !ends_with_char(t, 's')
    &&& ends_with_char(t, 'm')
    &&& parse_u64(t.drop_last()) matches Some(n)
    &&& n * 60 > u64::MAX
}

/// Parses a duration such as `5s`, `500ms` or `1m` (a bare number is
/// milliseconds).
pub fn parse_duration(s: &str) -> (r: Result<Duration, DurationError>)
    requires
        !duration_overflows(s@),
    ensures
        duration_view(r) == duration_result(s@),
{
    let v = chars_of(s);
    parse_duration_chars(v.as_slice())
}

/// `parse_duration` over characters.
pub fn parse_duration_chars(s: &[char]) -> (r: Result<Duration, DurationError>)
    requires
        !duration_overflows(s@),
    ensures
        duration_view(r) == duration_result(s@),
{
    let t = trim_chars(s);
    let n = t.len();
    if n >= 2 && t[n - 2] == 'm' && t[n - 1] == 's' {
        let num = vec_of_range(t.as_slice(), 0, n - 2);
        assert(num@ =~= t@.take(n - 2));
        match parse_u64_chars(num.as_slice()) {
            Some(ms) => Ok(duration_from_millis(ms)),
            None => Err(DurationError::InvalidMillis),
        }
    } else if n >= 1 && t[n - 1] == 's' {
        let num = vec_of_range(t.as_slice(), 0, n - 1);
        assert(num@ =~= t@.drop_last());
        match parse_u64_chars(num.as_slice()) {
            Some(secs) => Ok(duration_from_secs(secs)),
            None => Err(DurationError::InvalidSeconds),
        }
    } else if n >= 1 && t[n - 1] == 'm' {
        let num = vec_of_range(t.as_slice(), 0, n - 1);
        assert(num@ =~= t@.drop_last());
        match parse_u64_chars(num.as_slice()) {
            Some(mins) => Ok(duration_from_secs(mins * 60)),
            None => Err(DurationError::InvalidMinutes),
        }
    } else {
        match parse_u64_chars(t.as_slice()) {
            Some(ms) => Ok(duration_from_millis(ms)),
            None => Err(DurationError::InvalidFormat),
        }
    }
}

// ───────────────────────── quoting and escapes ─────────────────────────

/// What `parse_quoted_string` gives: the trimmed text, without its
/// enclosing pair of double or single quotes if it has one.
pub open spec fn unquote(s: Seq<char>) -> Seq<char> {
    let t = trim(s);
    if t.len() > 1 && t[0] == '"' && t.last() == '"' {
        t.subrange(1, t.len() - 1)
    } else if t.len() > 1 && t[0] == '\'' && t.last() == '\'' {
        t.subrange(1, t.len() - 1)
    } else {
        t
    }
}

/// The characters that a backslash escape `\c` stands for, other than `\x`.
pub open spec fn simple_escape(c: char) -> Seq<char> {
    if c == 'n' {
        seq!['\n']
    } else if c == 'r' {
        seq!['\r']
    } else if c == 't' {
        seq!['\t']
    } else if c == '\\' {
        seq!['\\']
    } else if c == '"' {
        seq!['"']
    } else if c == '\'' {
        seq!['\'']
    } else {
        seq!['\\', c]
    }
}

/// How many characters a `\x` escape at the start of `s` takes as its hex
/// digits: up to two.
pub open spec fn hex_len(s: Seq<char>) -> int {
    if s.len() >= 4 {
        2
    } else {
        s.len() - 2
    }
}

/// How many characters the escape or plain character at the start of
/// nonempty `s` takes.
pub open spec fn head_len(s: Seq<char>) -> int {
    if s[0] != '\\' || s.len() == 1 {
        1
    } else if s[1] == 'x' {
        2 + hex_len(s)
    } else {
        2
    }
}

/// What the escape or plain character at the start of nonempty `s`
/// produces. `\xNN` gives the character whose code is the hex byte `NN`,
/// and nothing when the digits are not hex; an unknown escape stays as it
/// is; a final lone backslash stays.
pub open spec fn head_chars(s: Seq<char>) -> Seq<char> {
    if s[0] != '\\' {
        seq![s[0]]
    } else if s.len() == 1 {
        seq!['\\']
    } else if s[1] == 'x' {
        match parse_hex_u8(s.subrange(2, 2 + hex_len(s))) {
            Some(b) => seq![(b as u8) as char],
            None => seq![],
        }
    } else {
        simple_escape(s[1])
    }
}

/// What `unescape` gives for `s`.
pub open spec fn unescape_spec(s: Seq<char>) -> Seq<char>
    decreases s.len(),
{
    if s.len() == 0 {
        seq![]
    } else {
        head_chars(s) + unescape_spec(s.skip(head_len(s)))
    }
}

/// Parses a quoted or unquoted string argument.
pub fn parse_quoted_string(s: &str) -> (r: Result<String, ParseError>)
    ensures
        r matches Ok(q) && q@ == unquote(s@),
{
    let v = chars_of(s);
    let q = unquote_chars(v.as_slice());
    Ok(string_of(q.as_slice()))
}

/// `unquote` over characters.
pub fn unquote_chars(s: &[char]) -> (r: Vec<char>)
    ensures
        r@ == unquote(s@),
{
    let t = trim_chars(s);
    let n = t.len();
    if n > 1 && ((t[0] == '"' && t[n - 1] == '"') || (t[0] == '\'' && t[n - 1] == '\'')) {
        vec_of_range(t.as_slice(), 1, n - 1)
    } else {
        t
    }
}

/// A byte as the character of the same code.
pub fn char_of_byte(b: u8) -> (c: char)
    ensures
        c == (b as char),
{
    b as char
}

/// Replaces the escapes `\n \r \t \\ \" \'` and `\xNN` by what they stand
/// for.
pub fn unescape(s: &str) -> (r: String)
    ensures
        r@ == unescape_spec(s@),
{
    let v = chars_of(s);
    let out = unescape_chars(v.as_slice());
    string_of(out.as_slice())
}

/// `unescape` over characters.
pub fn unescape_chars(v: &[char]) -> (r: Vec<char>)
    ensures
        r@ == unescape_spec(v@),
{
    let mut out: Vec<char> = Vec::new();
    let mut i: usize = 0;
    assert(v@.skip(0) =~= v@);
    while i < v.len()
        invariant
            i <= v@.len(),
            out@ + unescape_spec(v@.skip(i as int)) == unescape_spec(v@),
        decreases v@.len() - i,
    {
        let ghost s = v@.skip(i as int);
        let ghost old_out = out@;
        let c = v[i];
        let consumed: usize;
        if c != '\\' {
            out.push(c);
            consumed = 1;
        } else if i + 1 == v.len() {
            out.push('\\');
            consumed = 1;
        } else {
            let e = v[i + 1];
            if e == 'x' {
                let h = if v.len() - i >= 4 {
                    2
                } else {
                    v.len() - i - 2
                };
                let digits = vec_of_range(v, i + 2, i + 2 + h);
                assert(digits@ =~= s.subrange(2, 2 + hex_len(s)));
                match parse_hex_u8_chars(digits.as_slice()) {
                    Some(b) => {
                        out.push(char_of_byte(b));
                    },
                    None => {},
                }
                consumed = 2 + h;
            } else {
                if e == 'n' {
                    out.push('\n');
                } else if e == 'r' {
                    out.push('\r');
                } else if e == 't' {
                    out.push('\t');
                } else if e == '\\' {
                    out.push('\\');
                } else if e == '"' {
                    out.push('"');
                } else if e == '\'' {
                    out.push('\'');
                } else {
                    out.push('\\');
                    out.push(e);
                }
                consumed = 2;
            }
        }
        assert(consumed == head_len(s));
        assert(out@ =~= old_out + head_chars(s));
        assert(s.skip(head_len(s)) =~= v@.skip(i + consumed));
        assert(old_out + unescape_spec(s) =~= out@ + unescape_spec(v@.skip(i + consumed)));
        i = i + consumed;
    }
    assert(unescape_spec(v@.skip(i as int)) =~= Seq::<char>::empty());
    assert(out@ + Seq::<char>::empty() =~= out@);
    out
}

// ───────────────────────── commands ─────────────────────────

/// Special keys that a script can press.
#[derive(Debug, Clone, Copy, PartialEq, Eq)]
pub enum SpecialKey {
    Enter,
    Escape,
    Tab,
    Backspace,
    CtrlC,
    CtrlD,
}

/// One step of a test script.
#[derive(Debug, Clone)]
pub enum Command {
    /// Wait for a specific duration
    Wait { duration: Duration },
    /// Write input to the session
    Write { content: String },
    /// Wait for a pattern to appear in output
    WaitFor { pattern: String, timeout: Duration },
    /// Assert that screen contains expected content
    AssertScreen { expected: String },
    /// Clear the output buffer
    ClearBuffer,
    /// Press a special key
    Key { key: SpecialKey },
}

/// A command with its texts as character sequences and its durations in
/// nanoseconds.
pub enum CommandView {
    Wait { nanos: int },
    Write { content: Seq<char> },
    WaitFor { pattern: Seq<char>, timeout_nanos: int },
    AssertScreen { expected: Seq<char> },
    ClearBuffer,
    Key { key: SpecialKey },
}

impl View for Command {
    type V = CommandView;

    open spec fn view(&self) -> CommandView {
        match self {
            Command::Wait { duration } => CommandView::Wait { nanos: duration_nanos(*duration) },
            Command::Write { content } => CommandView::Write { content: content@ },
            Command::WaitFor { pattern, timeout } => CommandView::WaitFor {
                pattern: pattern@,
                timeout_nanos: duration_nanos(*timeout),
            },
            Command::AssertScreen { expected } => CommandView::AssertScreen {
                expected: expected@,
            },
            Command::ClearBuffer => CommandView::ClearBuffer,
            Command::Key { key } => CommandView::Key { key: *key },
        }
    }
}

/// The views of a sequence of commands.
pub open spec fn command_views(cs: Seq<Command>) -> Seq<CommandView> {
    cs.map_values(|c: Command| c@)
}

/// A parsed DSL script: its commands, in order.
#[derive(Debug, Clone)]
pub struct Script {
    pub commands: Vec<Command>,
}

impl View for Script {
    type V = Seq<CommandView>;

    open spec fn view(&self) -> Seq<CommandView> {
        command_views(self.commands@)
    }
}

/// The commands whose argument can be missing.
#[derive(Debug, Clone, Copy, PartialEq, Eq)]
pub enum Keyword {
    Wait,
    Write,
    WaitFor,
    AssertScreen,
    Key,
}

/// Why a line did not parse.
#[derive(Debug, Clone)]
pub enum ParseError {
    /// The line has no word.
    EmptyCommand,
    /// The command needs an argument and has none.
    MissingArgument { command: Keyword },
    /// The duration of `wait` did not parse.
    InvalidDuration { error: DurationError },
    /// `key` names no known key.
    UnknownKey { name: String },
    /// The first word is no command.
    UnknownCommand { name: String },
}

/// A parse error with its texts as character sequences.
pub enum ParseErrorView {
    EmptyCommand,
    MissingArgument { command: Keyword },
    InvalidDuration { error: DurationError },
    UnknownKey { name: Seq<char> },
    UnknownCommand { name: Seq<char> },
}

impl View for ParseError {
    type V = ParseErrorView;

    open spec fn view(&self) -> ParseErrorView {
        match self {
            ParseError::EmptyCommand => ParseErrorView::EmptyCommand,
            ParseError::MissingArgument { command } => ParseErrorView::MissingArgument {
                command: *command,
            },
            ParseError::InvalidDuration { error } => ParseErrorView::InvalidDuration {
                error: *error,
            },
            ParseError::UnknownKey { name } => ParseErrorView::UnknownKey { name: name@ },
            ParseError::UnknownCommand { name } => ParseErrorView::UnknownCommand {
                name: name@,
            },
        }
    }
}

/// A parse error at a line of a script.
#[derive(Debug, Clone)]
pub struct ScriptError {
    /// The line's number, counting from 1.
    pub line_number: usize,
    /// The line, trimmed.
    pub line: String,
    /// What went wrong on it.
    pub error: ParseError,
}

/// A script error with its texts as character sequences.
pub struct ScriptErrorView {
    pub line_number: nat,
    pub line: Seq<char>,
    pub error: ParseErrorView,
}

impl View for ScriptError {
    type V = ScriptErrorView;

    open spec fn view(&self) -> ScriptErrorView {
        ScriptErrorView {
            line_number: self.line_number as nat,
            line: self.line@,
            error: self.error@,
        }
    }
}

// ───────────────────────── lines ─────────────────────────

pub open spec fn kw_wait() -> Seq<char> {
    seq!['w', 'a', 'i', 't']
}

pub open spec fn kw_write() -> Seq<char> {
    seq!['w', 'r', 'i', 't', 'e']
}

pub open spec fn kw_wait_for() -> Seq<char> {
    seq!['w', 'a', 'i', 't', '_', 'f', 'o', 'r']
}

pub open spec fn kw_assert_screen() -> Seq<char> {
    seq!['a', 's', 's', 'e', 'r', 't', '_', 's', 'c', 'r', 'e', 'e', 'n']
}

pub open spec fn kw_clear_buffer() -> Seq<char> {
    seq!['c', 'l', 'e', 'a', 'r', '_', 'b', 'u', 'f', 'f', 'e', 'r']
}

pub open spec fn kw_key() -> Seq<char> {
    seq!['k', 'e', 'y']
}

/// The key that a lowercased key name stands for.
pub open spec fn key_named(name: Seq<char>) -> Option<SpecialKey> {
    if name == seq!['e', 'n', 't', 'e', 'r'] || name == seq!['r', 'e', 't', 'u', 'r', 'n'] {
        Some(SpecialKey::Enter)
    } else if name == seq!['e', 's', 'c'] || name == seq!['e', 's', 'c', 'a', 'p', 'e'] {
        Some(SpecialKey::Escape)
    } else if name == seq!['t', 'a', 'b'] {
        Some(SpecialKey::Tab)
    } else if name == seq!['b', 'a', 'c', 'k', 's', 'p', 'a', 'c', 'e'] || name == seq!['b', 's'] {
        Some(SpecialKey::Backspace)
    } else if name == seq!['c', 't', 'r', 'l', '-', 'c'] || name == seq!['c', 't', 'r', 'l', 'c'] {
        Some(SpecialKey::CtrlC)
    } else if name == seq!['c', 't', 'r', 'l', '-', 'd'] || name == seq!['c', 't', 'r', 'l', 'd'] {
        Some(SpecialKey::CtrlD)
    } else {
        None
    }
}

/// A word that ends as a duration does (`s`, `ms` or `m`).
pub open spec fn has_time_suffix(p: Seq<char>) -> bool {
    ends_with_char(p, 's') || ends_with_char(p, 'm')
}

/// The word at `i` is taken as the timeout of `wait_for`.
pub open spec fn is_timeout_at(parts: Seq<Seq<char>>, i: int) -> bool {
    has_time_suffix(parts[i]) && duration_result(parts[i]) is Ok
}

/// The first index from `i` on whose word is a timeout.
pub open spec fn find_timeout_from(parts: Seq<Seq<char>>, i: int) -> Option<int>
    decreases parts.len() - i,
{
    if i < 0 || i >= parts.len() {
        None
    } else if is_timeout_at(parts, i) {
        Some(i)
    } else {
        find_timeout_from(parts, i + 1)
    }
}

/// The search for a timeout from `i` on meets an overflowing duration
/// before it finds one.
pub open spec fn timeout_scan_overflows(parts: Seq<Seq<char>>, i: int) -> bool
    decreases parts.len() - i,
{
    if i < 0 || i >= parts.len() {
        false
    } else if has_time_suffix(parts[i]) && duration_overflows(parts[i]) {
        true
    } else if is_timeout_at(parts, i) {
        false
    } else {
        timeout_scan_overflows(parts, i + 1)
    }
}

/// What a `wait` line gives.
pub open spec fn wait_result(parts: Seq<Seq<char>>) -> Result<CommandView, ParseErrorView> {
    if parts.len() < 2 {
        Err(ParseErrorView::MissingArgument { command: Keyword::Wait })
    } else {
        match duration_result(parts[1]) {
            Ok(d) => Ok(CommandView::Wait { nanos: d }),
            Err(e) => Err(ParseErrorView::InvalidDuration { error: e }),
        }
    }
}

/// What a `write` line gives: the rest of the line after the keyword,
/// trimmed, unquoted and unescaped.
pub open spec fn write_result(line: Seq<char>, parts: Seq<Seq<char>>) -> Result<
    CommandView,
    ParseErrorView,
> {
    if parts.len() < 2 {
        Err(ParseErrorView::MissingArgument { command: Keyword::Write })
    } else {
        Ok(CommandView::Write { content: unescape_spec(unquote(trim(line.skip(5)))) })
    }
}

/// What a `wait_for` line gives: the words up to the first timeout from the
/// third word on (or all of them, with a timeout of 5 s), joined by spaces,
/// unquoted and unescaped.
pub open spec fn wait_for_result(parts: Seq<Seq<char>>) -> Result<CommandView, ParseErrorView> {
    if parts.len() < 2 {
        Err(ParseErrorView::MissingArgument { command: Keyword::WaitFor })
    } else {
        match find_timeout_from(parts, 2) {
            Some(i) => Ok(
                CommandView::WaitFor {
                    pattern: unescape_spec(unquote(join_spaced(parts.subrange(1, i)))),
                    timeout_nanos: duration_result(parts[i])->Ok_0,
                },
            ),
            None => Ok(
                CommandView::WaitFor {
                    pattern: unescape_spec(unquote(join_spaced(parts.skip(1)))),
                    timeout_nanos: 5_000_000_000,
                },
            ),
        }
    }
}

/// What an `assert_screen` line gives, as `write` does.
pub open spec fn assert_screen_result(line: Seq<char>, parts: Seq<Seq<char>>) -> Result<
    CommandView,
    ParseErrorView,
> {
    if parts.len() < 2 {
        Err(ParseErrorView::MissingArgument { command: Keyword::AssertScreen })
    } else {
        Ok(CommandView::AssertScreen { expected: unescape_spec(unquote(trim(line.skip(13)))) })
    }
}

/// What a `key` line gives: the key its lowercased name stands for.
pub open spec fn key_result(parts: Seq<Seq<char>>) -> Result<CommandView, ParseErrorView> {
    if parts.len() < 2 {
        Err(ParseErrorView::MissingArgument { command: Keyword::Key })
    } else {
        match key_named(lowercase(parts[1])) {
            Some(k) => Ok(CommandView::Key { key: k }),
            None => Err(ParseErrorView::UnknownKey { name: parts[1] }),
        }
    }
}

/// What `parse_line` gives for a line that starts with no whitespace.
pub open spec fn line_result(line: Seq<char>) -> Result<CommandView, ParseErrorView> {
    let parts = words(line);
    if parts.len() == 0 {
        Err(ParseErrorView::EmptyCommand)
    } else if parts[0] == kw_wait() {
        wait_result(parts)
    } else if parts[0] == kw_write() {
        write_result(line, parts)
    } else if parts[0] == kw_wait_for() {
        wait_for_result(parts)
    } else if parts[0] == kw_assert_screen() {
        assert_screen_result(line, parts)
    } else if parts[0] == kw_clear_buffer() {
        Ok(CommandView::ClearBuffer)
    } else if parts[0] == kw_key() {
        key_result(parts)
    } else {
        Err(ParseErrorView::UnknownCommand { name: parts[0] })
    }
}

/// Parsing the line converts a number of minutes that overflows.
pub open spec fn line_overflows(line: Seq<char>) -> bool {
    let parts = words(line);
    &&& parts.len() >= 2
    &&& {
        ||| parts[0] == kw_wait() && duration_overflows(parts[1])
        ||| parts[0] == kw_wait_for() && timeout_scan_overflows(parts, 2)
    }
}

/// A line with no leading whitespace.
pub open spec fn starts_unspaced(line: Seq<char>) -> bool {
    line.len() == 0 || !is_ws(line[0])
}

/// The view of a line's parse result.
pub open spec fn line_result_view(r: Result<Command, ParseError>) -> Result<
    CommandView,
    ParseErrorView,
> {
    match r {
        Ok(c) => Ok(c@),
        Err(e) => Err(e@),
    }
}

/// The first word of a text that starts with no whitespace starts it.
pub proof fn lemma_first_word(s: Seq<char>)
    requires
        s.len() > 0,
        !is_ws(s[0]),
    ensures
        words(s).len() > 0,
        words(s)[0] == s.take(word_len(s) as int),
        word_len(s) <= s.len(),
{
    lemma_word_len_bound(s);
}

/// Whether the word is the given keyword.
fn is_keyword(w: &Vec<char>, kw: &[char]) -> (r: bool)
    ensures
        r == (w@ == kw@),
{
    chars_eq(w.as_slice(), kw)
}

/// The first index from `from` on whose word is a timeout.
pub fn find_timeout(parts: &[Vec<char>], from: usize) -> (r: Option<usize>)
    requires
        !timeout_scan_overflows(views(parts@), from as int),
    ensures
        r matches Some(i) ==> from <= i < parts@.len() && find_timeout_from(views(parts@), from as int)
            == Some(i as int),
        r is None ==> find_timeout_from(views(parts@), from as int) is None,
{
    let ghost ps = views(parts@);
    let mut i = from;
    while i < parts.len()
        invariant
            from <= i,
            ps == views(parts@),
            find_timeout_from(ps, from as int) == find_timeout_from(ps, i as int),
            !timeout_scan_overflows(ps, i as int),
        decreases parts@.len() - i,
    {
        let p = &parts[i];
        assert(ps[i as int] == p@);
        let n = p.len();
        if n >= 1 && (p[n - 1] == 's' || p[n - 1] == 'm') {
            match parse_duration_chars(p.as_slice()) {
                Ok(_) => {
                    return Some(i);
                },
                Err(_) => {},
            }
        }
        i += 1;
    }
    None
}

/// The timeout that the search finds is one, and does not overflow.
pub proof fn lemma_found_timeout(parts: Seq<Seq<char>>, from: int, i: int)
    requires
        find_timeout_from(parts, from) == Some(i),
        !timeout_scan_overflows(parts, from),
    ensures
        from <= i < parts.len(),
        is_timeout_at(parts, i),
        !duration_overflows(parts[i]),
    decreases parts.len() - from,
{
    if !is_timeout_at(parts, from) {
        lemma_found_timeout(parts, from + 1, i);
    }
}

fn parse_wait(parts: &Vec<Vec<char>>) -> (r: Result<Command, ParseError>)
    requires
        parts@.len() >= 1,
        !(parts@.len() >= 2 && duration_overflows(parts@[1]@)),
    ensures
        line_result_view(r) == wait_result(views(parts@)),
{
    if parts.len() < 2 {
        return Err(ParseError::MissingArgument { command: Keyword::Wait });
    }
    match parse_duration_chars(parts[1].as_slice()) {
        Ok(d) => Ok(Command::Wait { duration: d }),
        Err(e) => Err(ParseError::InvalidDuration { error: e }),
    }
}

/// The rest of the line from `skip` on, trimmed, unquoted and unescaped.
fn rest_argument(v: &[char], skip: usize) -> (r: String)
    requires
        skip <= v@.len(),
    ensures
        r@ == unescape_spec(unquote(trim(v@.skip(skip as int)))),
{
    let rest = vec_of_range(v, skip, v.len());
    assert(rest@ =~= v@.skip(skip as int));
    let t = trim_chars(rest.as_slice());
    let q = unquote_chars(t.as_slice());
    let out = unescape_chars(q.as_slice());
    string_of(out.as_slice())
}

fn parse_wait_for(parts: &Vec<Vec<char>>) -> (r: Result<Command, ParseError>)
    requires
        parts@.len() >= 1,
        !(parts@.len() >= 2 && timeout_scan_overflows(views(parts@), 2)),
    ensures
        line_result_view(r) == wait_for_result(views(parts@)),
{
    let ghost ps = views(parts@);
    if parts.len() < 2 {
        return Err(ParseError::MissingArgument { command: Keyword::WaitFor });
    }
    match find_timeout(parts.as_slice(), 2) {
        Some(i) => {
            proof {
                lemma_found_timeout(ps, 2, i as int);
            }
            let joined = join_words(parts.as_slice(), 1, i);
            let q = unquote_chars(joined.as_slice());
            let pattern = unescape_chars(q.as_slice());
            assert(parts@[i as int]@ == ps[i as int]);
            match parse_duration_chars(parts[i].as_slice()) {
                Ok(d) => Ok(Command::WaitFor { pattern: string_of(pattern.as_slice()), timeout: d }),
                Err(e) => {
                    assert(false);
                    Err(ParseError::InvalidDuration { error: e })
                },
            }
        },
        None => {
            let joined = join_words(parts.as_slice(), 1, parts.len());
            assert(ps.subrange(1, parts@.len() as int) =~= ps.skip(1));
            let q = unquote_chars(joined.as_slice());
            let pattern = unescape_chars(q.as_slice());
            Ok(
                Command::WaitFor {
                    pattern: string_of(pattern.as_slice()),
                    timeout: duration_from_secs(5),
                },
            )
        },
    }
}

/// The key that a key name stands for, ignoring case.
pub fn key_named_exec(name: &str) -> (r: Option<SpecialKey>)
    ensures
        r == key_named(lowercase(name@)),
{
    let lower = to_lowercase(name);
    let l = chars_of(lower.as_str());
    let ls = l.as_slice();
    if chars_eq(ls, &['e', 'n', 't', 'e', 'r']) || chars_eq(ls, &['r', 'e', 't', 'u', 'r', 'n']) {
        Some(SpecialKey::Enter)
    } else if chars_eq(ls, &['e', 's', 'c']) || chars_eq(ls, &['e', 's', 'c', 'a', 'p', 'e']) {
        Some(SpecialKey::Escape)
    } else if chars_eq(ls, &['t', 'a', 'b']) {
        Some(SpecialKey::Tab)
    } else if chars_eq(ls, &['b', 'a', 'c', 'k', 's', 'p', 'a', 'c', 'e']) || chars_eq(
        ls,
        &['b', 's'],
    ) {
        Some(SpecialKey::Backspace)
    } else if chars_eq(ls, &['c', 't', 'r', 'l', '-', 'c']) || chars_eq(
        ls,
        &['c', 't', 'r', 'l', 'c'],
    ) {
        Some(SpecialKey::CtrlC)
    } else if chars_eq(ls, &['c', 't', 'r', 'l', '-', 'd']) || chars_eq(
        ls,
        &['c', 't', 'r', 'l', 'd'],
    ) {
        Some(SpecialKey::CtrlD)
    } else {
        None
    }
}

fn parse_key(parts: &Vec<Vec<char>>) -> (r: Result<Command, ParseError>)
    requires
        parts@.len() >= 1,
    ensures
        line_result_view(r) == key_result(views(parts@)),
{
    if parts.len() < 2 {
        return Err(ParseError::MissingArgument { command: Keyword::Key });
    }
    let name = string_of(parts[1].as_slice());
    match key_named_exec(name.as_str()) {
        Some(key) => Ok(Command::Key { key }),
        None => Err(ParseError::UnknownKey { name }),
    }
}

/// Parses a line of a script (one that starts with no whitespace, as the
/// lines of `Script::parse` are trimmed).
pub fn parse_line_chars(v: &[char]) -> (r: Result<Command, ParseError>)
    requires
        starts_unspaced(v@),
        !line_overflows(v@),
    ensures
        line_result_view(r) == line_result(v@),
{
    let parts = split_words(v);
    let ghost ps = words(v@);
    assert(views(parts@) == ps);
    if parts.len() == 0 {
        return Err(ParseError::EmptyCommand);
    }
    proof {
        lemma_first_word(v@);
    }
    let head = &parts[0];
    assert(head@ == ps[0]);
    if is_keyword(head, &['w', 'a', 'i', 't']) {
        parse_wait(&parts)
    } else if is_keyword(head, &['w', 'r', 'i', 't', 'e']) {
        if parts.len() < 2 {
            return Err(ParseError::MissingArgument { command: Keyword::Write });
        }
        Ok(Command::Write { content: rest_argument(v, 5) })
    } else if is_keyword(head, &['w', 'a', 'i', 't', '_', 'f', 'o', 'r']) {
        parse_wait_for(&parts)
    } else if is_keyword(
        head,
        &['a', 's', 's', 'e', 'r', 't', '_', 's', 'c', 'r', 'e', 'e', 'n'],
    ) {
        if parts.len() < 2 {
            return Err(ParseError::MissingArgument { command: Keyword::AssertScreen });
        }
        Ok(Command::AssertScreen { expected: rest_argument(v, 13) })
    } else if is_keyword(head, &['c', 'l', 'e', 'a', 'r', '_', 'b', 'u', 'f', 'f', 'e', 'r']) {
        Ok(Command::ClearBuffer)
    } else if is_keyword(head, &['k', 'e', 'y']) {
        parse_key(&parts)
    } else {
        Err(ParseError::UnknownCommand { name: string_of(head.as_slice()) })
    }
}

// ───────────────────────── scripts ─────────────────────────

/// A trimmed line that holds no command: blank, or a `#` comment.
pub open spec fn is_skipped(t: Seq<char>) -> bool {
    t.len() == 0 || t[0] == '#'
}

/// The script's lines from `ls` on, the first numbered `first + 1`: the
/// commands of the lines that are neither blank nor comments, or the error
/// of the first line that does not parse.
pub open spec fn parse_lines(ls: Seq<Seq<char>>, first: nat) -> Result<
    Seq<CommandView>,
    ScriptErrorView,
>
    decreases ls.len(),
{
    if ls.len() == 0 {
        Ok(seq![])
    } else {
        let t = trim(ls[0]);
        if is_skipped(t) {
            parse_lines(ls.drop_first(), first + 1)
        } else {
            match line_result(t) {
                Err(e) => Err(ScriptErrorView { line_number: first + 1, line: t, error: e }),
                Ok(c) => match parse_lines(ls.drop_first(), first + 1) {
                    Ok(cs) => Ok(seq![c] + cs),
                    Err(e) => Err(e),
                },
            }
        }
    }
}

/// Parsing the lines reaches a line whose minutes overflow.
pub open spec fn lines_overflow(ls: Seq<Seq<char>>) -> bool
    decreases ls.len(),
{
    if ls.len() == 0 {
        false
    } else {
        let t = trim(ls[0]);
        if is_skipped(t) {
            lines_overflow(ls.drop_first())
        } else if line_overflows(t) {
            true
        } else if line_result(t) is Err {
            false
        } else {
            lines_overflow(ls.drop_first())
        }
    }
}

/// What `Script::parse` gives for the text `input`.
pub open spec fn script_result(input: Seq<char>) -> Result<Seq<CommandView>, ScriptErrorView> {
    parse_lines(lines(input), 0)
}

/// Parsing `input` converts a number of minutes that overflows.
pub open spec fn script_overflows(input: Seq<char>) -> bool {
    lines_overflow(lines(input))
}

/// The view of a script's parse result.
pub open spec fn script_result_view(r: Result<Script, ScriptError>) -> Result<
    Seq<CommandView>,
    ScriptErrorView,
> {
    match r {
        Ok(s) => Ok(s@),
        Err(e) => Err(e@),
    }
}

/// Commands parsed so far, put before the parse of the rest.
pub open spec fn prepend_commands(
    acc: Seq<CommandView>,
    r: Result<Seq<CommandView>, ScriptErrorView>,
) -> Result<Seq<CommandView>, ScriptErrorView> {
    match r {
        Ok(cs) => Ok(acc + cs),
        Err(e) => Err(e),
    }
}

/// A trimmed text starts with no whitespace.
pub proof fn lemma_trim_unspaced(s: Seq<char>)
    ensures
        starts_unspaced(trim(s)),
{
    lemma_trim_start_unspaced(s);
    lemma_trim_end_prefix(trim_start(s));
}

/// After its leading whitespace, a text starts with none.
pub proof fn lemma_trim_start_unspaced(s: Seq<char>)
    ensures
        starts_unspaced(trim_start(s)),
    decreases s.len(),
{
    if s.len() > 0 && is_ws(s[0]) {
        lemma_trim_start_unspaced(s.drop_first());
    }
}

/// Trimming the end keeps a prefix.
pub proof fn lemma_trim_end_prefix(s: Seq<char>)
    ensures
        trim_end(s).len() <= s.len(),
        trim_end(s) == s.take(trim_end(s).len() as int),
    decreases s.len(),
{
    if s.len() > 0 && is_ws(s.last()) {
        lemma_trim_end_prefix(s.drop_last());
        assert(s.drop_last().take(trim_end(s).len() as int) =~= s.take(trim_end(s).len() as int));
    } else {
        assert(s.take(s.len() as int) =~= s);
    }
}

/// Whether converting the duration would overflow.
pub fn duration_overflows_chars(s: &[char]) -> (r: bool)
    ensures
        r == duration_overflows(s@),
{
    let t = trim_chars(s);
    let n = t.len();
    if n >= 2 && t[n - 2] == 'm' && t[n - 1] == 's' {
        return false;
    }
    if n >= 1 && t[n - 1] == 's' {
        return false;
    }
    if !(n >= 1 && t[n - 1] == 'm') {
        return false;
    }
    let num = vec_of_range(t.as_slice(), 0, n - 1);
    assert(num@ =~= t@.drop_last());
    match parse_u64_chars(num.as_slice()) {
        Some(mins) => mins.checked_mul(60).is_none(),
        None => false,
    }
}

/// Whether the search for a timeout from `i` on meets an overflowing
/// duration first.
fn timeout_scan_overflows_exec(parts: &[Vec<char>], from: usize) -> (r: bool)
    ensures
        r == timeout_scan_overflows(views(parts@), from as int),
{
    let ghost ps = views(parts@);
    let mut i = from;
    while i < parts.len()
        invariant
            from <= i,
            ps == views(parts@),
            timeout_scan_overflows(ps, from as int) == timeout_scan_overflows(ps, i as int),
        decreases parts@.len() - i,
    {
        let p = &parts[i];
        assert(ps[i as int] == p@);
        let n = p.len();
        if n >= 1 && (p[n - 1] == 's' || p[n - 1] == 'm') {
            if duration_overflows_chars(p.as_slice()) {
                return true;
            }
            match parse_duration_chars(p.as_slice()) {
                Ok(_) => {
                    return false;
                },
                Err(_) => {},
            }
        }
        i += 1;
    }
    false
}

/// Whether parsing the line would overflow a number of minutes.
pub fn line_overflows_chars(v: &[char]) -> (r: bool)
    ensures
        r == line_overflows(v@),
{
    let parts = split_words(v);
    let ghost ps = words(v@);
    assert(views(parts@) == ps);
    if parts.len() < 2 {
        return false;
    }
    assert(parts@[0]@ == ps[0]);
    assert(parts@[1]@ == ps[1]);
    if is_keyword(&parts[0], &['w', 'a', 'i', 't']) {
        duration_overflows_chars(parts[1].as_slice())
    } else if is_keyword(&parts[0], &['w', 'a', 'i', 't', '_', 'f', 'o', 'r']) {
        timeout_scan_overflows_exec(parts.as_slice(), 2)
    } else {
        false
    }
}

impl Script {
    /// Parses a line of a script. The lines of `Script::parse` are trimmed;
    /// the line must start with no whitespace, as those do.
    pub fn parse_line(line: &str) -> (r: Result<Command, ParseError>)
        requires
            starts_unspaced(line@),
            !line_overflows(line@),
        ensures
            line_result_view(r) == line_result(line@),
    {
        let v = chars_of(line);
        parse_line_chars(v.as_slice())
    }

    /// Parses a script as `parse` does, or says (`None`) that parsing it
    /// would overflow a number of minutes.
    pub fn parse_checked(input: &str) -> (r: Option<Result<Script, ScriptError>>)
        ensures
            r is None <==> script_overflows(input@),
            r matches Some(res) ==> script_result_view(res) == script_result(input@),
    {
        let v = chars_of(input);
        let ls = split_lines(v.as_slice());
        let ghost all = views(ls@);
        assert(all == lines(input@));
        let mut i: usize = 0;
        assert(all.skip(0) =~= all);
        while i < ls.len()
            invariant
                i <= ls@.len(),
                all == views(ls@),
                all == lines(input@),
                lines_overflow(all) == lines_overflow(all.skip(i as int)),
            decreases ls@.len() - i,
        {
            let ghost rest = all.skip(i as int);
            assert(rest[0] == ls@[i as int]@);
            assert(rest.drop_first() =~= all.skip(i + 1));
            let t = trim_chars(ls[i].as_slice());
            if t.len() == 0 || t[0] == '#' {
                i += 1;
            } else {
                if line_overflows_chars(t.as_slice()) {
                    return None;
                }
                proof {
                    lemma_trim_unspaced(ls@[i as int]@);
                }
                match parse_line_chars(t.as_slice()) {
                    Err(_) => {
                        return Some(Script::parse(input));
                    },
                    Ok(_) => {
                        i += 1;
                    },
                }
            }
        }
        assert(all.skip(i as int) =~= Seq::<Seq<char>>::empty());
        Some(Script::parse(input))
    }

    /// Parses a script: one command per line; blank lines and lines that
    /// start with `#` are skipped; the first line that does not parse gives
    /// the error, with its number.
    pub fn parse(input: &str) -> (r: Result<Script, ScriptError>)
        requires
            !script_overflows(input@),
        ensures
            script_result_view(r) == script_result(input@),
    {
        let v = chars_of(input);
        let ls = split_lines(v.as_slice());
        let ghost all = views(ls@);
        assert(all == lines(input@));
        let mut commands: Vec<Command> = Vec::new();
        let mut i: usize = 0;
        assert(all.skip(0) =~= all);
        assert(command_views(commands@) =~= Seq::<CommandView>::empty());
        assert(prepend_commands(Seq::<CommandView>::empty(), parse_lines(all, 0)) =~= parse_lines(all, 0)) by {
            match parse_lines(all, 0) {
                Ok(cs) => {
                    assert(Seq::<CommandView>::empty() + cs =~= cs);
                },
                Err(_) => {},
            }
        }
        while i < ls.len()
            invariant
                i <= ls@.len(),
                all == views(ls@),
                all == lines(input@),
                parse_lines(all, 0) == prepend_commands(
                    command_views(commands@),
                    parse_lines(all.skip(i as int), i as nat),
                ),
                !lines_overflow(all.skip(i as int)),
            decreases ls@.len() - i,
        {
            let ghost rest = all.skip(i as int);
            assert(rest[0] == ls@[i as int]@);
            assert(rest.drop_first() =~= all.skip(i + 1));
            let t = trim_chars(ls[i].as_slice());
            if t.len() == 0 || t[0] == '#' {
                i += 1;
            } else {
                proof {
                    lemma_trim_unspaced(ls@[i as int]@);
                }
                match parse_line_chars(t.as_slice()) {
                    Err(e) => {
                        let err = ScriptError {
                            line_number: i + 1,
                            line: string_of(t.as_slice()),
                            error: e,
                        };
                        assert(parse_lines(rest, i as nat) == Err::<Seq<CommandView>, ScriptErrorView>(err@));
                        return Err(err);
                    },
                    Ok(c) => {
                        let ghost before = command_views(commands@);
                        commands.push(c);
                        assert(command_views(commands@) =~= before.push(c@));
                        proof {
                            match parse_lines(all.skip(i + 1), (i + 1) as nat) {
                                Ok(cs) => {
                                    assert(before + (seq![c@] + cs) =~= command_views(commands@) + cs);
                                },
                                Err(_) => {},
                            }
                        }
                        i += 1;
                    },
                }
            }
        }
        assert(parse_lines(all.skip(i as int), i as nat) == Ok::<Seq<CommandView>, ScriptErrorView>(seq![]));
        assert(command_views(commands@) + Seq::<CommandView>::empty() =~= command_views(commands@));
        Ok(Script { commands })
    }
}

// ───────────────────────── error messages ─────────────────────────

/// The message of a duration error.
pub open spec fn duration_error_text(e: DurationError) -> Seq<char> {
    match e {
        DurationError::InvalidMillis => seq!['I', 'n', 'v', 'a', 'l', 'i', 'd', ' ', 'm', 'i', 'l', 'l', 'i', 's', 'e', 'c', 'o', 'n', 'd', 's'],
        DurationError::InvalidSeconds => seq!['I', 'n', 'v', 'a', 'l', 'i', 'd', ' ', 's', 'e', 'c', 'o', 'n', 'd', 's'],
        DurationError::InvalidMinutes => seq!['I', 'n', 'v', 'a', 'l', 'i', 'd', ' ', 'm', 'i', 'n', 'u', 't', 'e', 's'],
        DurationError::InvalidFormat => seq!['I', 'n', 'v', 'a', 'l', 'i', 'd', ' ', 'd', 'u', 'r', 'a', 't', 'i', 'o', 'n', ' ', 'f', 'o', 'r', 'm', 'a', 't', ',', ' ', 'e', 'x', 'p', 'e', 'c', 't', 'e', 'd', ':', ' ', '<', 'n', 'u', 'm', 'b', 'e', 'r', '>', '[', 's', '|', 'm', 's', '|', 'm', ']'],
    }
}

/// The message of a missing argument.
pub open spec fn missing_argument_text(k: Keyword) -> Seq<char> {
    match k {
        Keyword::Wait => seq!['w', 'a', 'i', 't', ' ', 'r', 'e', 'q', 'u', 'i', 'r', 'e', 's', ' ', 'a', ' ', 'd', 'u', 'r', 'a', 't', 'i', 'o', 'n', ' ', 'a', 'r', 'g', 'u', 'm', 'e', 'n', 't'],
        Keyword::Write => seq!['w', 'r', 'i', 't', 'e', ' ', 'r', 'e', 'q', 'u', 'i', 'r', 'e', 's', ' ', 'a', ' ', 'c', 'o', 'n', 't', 'e', 'n', 't', ' ', 'a', 'r', 'g', 'u', 'm', 'e', 'n', 't'],
        Keyword::WaitFor => seq!['w', 'a', 'i', 't', '_', 'f', 'o', 'r', ' ', 'r', 'e', 'q', 'u', 'i', 'r', 'e', 's', ' ', 'a', ' ', 'p', 'a', 't', 't', 'e', 'r', 'n', ' ', 'a', 'r', 'g', 'u', 'm', 'e', 'n', 't'],
        Keyword::AssertScreen => seq!['a', 's', 's', 'e', 'r', 't', '_', 's', 'c', 'r', 'e', 'e', 'n', ' ', 'r', 'e', 'q', 'u', 'i', 'r', 'e', 's', ' ', 'a', 'n', ' ', 'e', 'x', 'p', 'e', 'c', 't', 'e', 'd', ' ', 'c', 'o', 'n', 't', 'e', 'n', 't', ' ', 'a', 'r', 'g', 'u', 'm', 'e', 'n', 't'],
        Keyword::Key => seq!['k', 'e', 'y', ' ', 'r', 'e', 'q', 'u', 'i', 'r', 'e', 's', ' ', 'a', ' ', 'k', 'e', 'y', ' ', 'n', 'a', 'm', 'e', ' ', 'a', 'r', 'g', 'u', 'm', 'e', 'n', 't'],
    }
}

/// The message of a parse error.
pub open spec fn parse_error_text(e: ParseErrorView) -> Seq<char> {
    match e {
        ParseErrorView::EmptyCommand => seq!['E', 'm', 'p', 't', 'y', ' ', 'c', 'o', 'm', 'm', 'a', 'n', 'd'],
        ParseErrorView::MissingArgument { command } => missing_argument_text(command),
        ParseErrorView::InvalidDuration { error } => duration_error_text(error),
        ParseErrorView::UnknownKey { name } => seq!['U', 'n', 'k', 'n', 'o', 'w', 'n', ' ', 'k', 'e', 'y', ':', ' '] + name,
        ParseErrorView::UnknownCommand { name } => seq!['U', 'n', 'k', 'n', 'o', 'w', 'n', ' ', 'c', 'o', 'm', 'm', 'a', 'n', 'd', ':', ' '] + name,
    }
}

/// The message of a script error: where it is (the error itself is its
/// cause).
pub open spec fn script_error_text(e: ScriptErrorView) -> Seq<char> {
    seq!['P', 'a', 'r', 's', 'e', ' ', 'e', 'r', 'r', 'o', 'r', ' ', 'a', 't', ' ', 'l', 'i', 'n', 'e', ' '] + decimal(e.line_number) + seq![':', ' '] + e.line
}

impl DurationError {
    /// The message of the error.
    pub fn message(&self) -> (r: String)
        ensures
            r@ == duration_error_text(*self),
    {
        let mut out: Vec<char> = Vec::new();
        match self {
            DurationError::InvalidMillis => crate::runner::append(&mut out, &['I', 'n', 'v', 'a', 'l', 'i', 'd', ' ', 'm', 'i', 'l', 'l', 'i', 's', 'e', 'c', 'o', 'n', 'd', 's']),
            DurationError::InvalidSeconds => crate::runner::append(&mut out, &['I', 'n', 'v', 'a', 'l', 'i', 'd', ' ', 's', 'e', 'c', 'o', 'n', 'd', 's']),
            DurationError::InvalidMinutes => crate::runner::append(&mut out, &['I', 'n', 'v', 'a', 'l', 'i', 'd', ' ', 'm', 'i', 'n', 'u', 't', 'e', 's']),
            DurationError::InvalidFormat => crate::runner::append(&mut out, &['I', 'n', 'v', 'a', 'l', 'i', 'd', ' ', 'd', 'u', 'r', 'a', 't', 'i', 'o', 'n', ' ', 'f', 'o', 'r', 'm', 'a', 't', ',', ' ', 'e', 'x', 'p', 'e', 'c', 't', 'e', 'd', ':', ' ', '<', 'n', 'u', 'm', 'b', 'e', 'r', '>', '[', 's', '|', 'm', 's', '|', 'm', ']']),
        }
        assert(out@ =~= duration_error_text(*self));
        string_of(out.as_slice())
    }
}

impl ParseError {
    /// The message of the error.
    pub fn message(&self) -> (r: String)
        ensures
            r@ == parse_error_text(self@),
    {
        let mut out: Vec<char> = Vec::new();
        match self {
            ParseError::EmptyCommand => crate::runner::append(&mut out, &['E', 'm', 'p', 't', 'y', ' ', 'c', 'o', 'm', 'm', 'a', 'n', 'd']),
            ParseError::MissingArgument { command } => match command {
                Keyword::Wait => crate::runner::append(&mut out, &['w', 'a', 'i', 't', ' ', 'r', 'e', 'q', 'u', 'i', 'r', 'e', 's', ' ', 'a', ' ', 'd', 'u', 'r', 'a', 't', 'i', 'o', 'n', ' ', 'a', 'r', 'g', 'u', 'm', 'e', 'n', 't']),
                Keyword::Write => crate::runner::append(&mut out, &['w', 'r', 'i', 't', 'e', ' ', 'r', 'e', 'q', 'u', 'i', 'r', 'e', 's', ' ', 'a', ' ', 'c', 'o', 'n', 't', 'e', 'n', 't', ' ', 'a', 'r', 'g', 'u', 'm', 'e', 'n', 't']),
                Keyword::WaitFor => crate::runner::append(&mut out, &['w', 'a', 'i', 't', '_', 'f', 'o', 'r', ' ', 'r', 'e', 'q', 'u', 'i', 'r', 'e', 's', ' ', 'a', ' ', 'p', 'a', 't', 't', 'e', 'r', 'n', ' ', 'a', 'r', 'g', 'u', 'm', 'e', 'n', 't']),
                Keyword::AssertScreen => crate::runner::append(&mut out, &['a', 's', 's', 'e', 'r', 't', '_', 's', 'c', 'r', 'e', 'e', 'n', ' ', 'r', 'e', 'q', 'u', 'i', 'r', 'e', 's', ' ', 'a', 'n', ' ', 'e', 'x', 'p', 'e', 'c', 't', 'e', 'd', ' ', 'c', 'o', 'n', 't', 'e', 'n', 't', ' ', 'a', 'r', 'g', 'u', 'm', 'e', 'n', 't']),
                Keyword::Key => crate::runner::append(&mut out, &['k', 'e', 'y', ' ', 'r', 'e', 'q', 'u', 'i', 'r', 'e', 's', ' ', 'a', ' ', 'k', 'e', 'y', ' ', 'n', 'a', 'm', 'e', ' ', 'a', 'r', 'g', 'u', 'm', 'e', 'n', 't']),
            },
            ParseError::InvalidDuration { error } => {
                let m = chars_of(error.message().as_str());
                crate::runner::append(&mut out, m.as_slice());
            },
            ParseError::UnknownKey { name } => {
                crate::runner::append(&mut out, &['U', 'n', 'k', 'n', 'o', 'w', 'n', ' ', 'k', 'e', 'y', ':', ' ']);
                let n = chars_of(name.as_str());
                crate::runner::append(&mut out, n.as_slice());
            },
            ParseError::UnknownCommand { name } => {
                crate::runner::append(&mut out, &['U', 'n', 'k', 'n', 'o', 'w', 'n', ' ', 'c', 'o', 'm', 'm', 'a', 'n', 'd', ':', ' ']);
                let n = chars_of(name.as_str());
                crate::runner::append(&mut out, n.as_slice());
            },
        }
        assert(out@ =~= parse_error_text(self@));
        string_of(out.as_slice())
    }
}

impl ScriptError {
    /// Where the error is: `Parse error at line N: LINE`.
    pub fn message(&self) -> (r: String)
        ensures
            r@ == script_error_text(self@),
    {
        let mut out: Vec<char> = Vec::new();
        crate::runner::append(&mut out, &['P', 'a', 'r', 's', 'e', ' ', 'e', 'r', 'r', 'o', 'r', ' ', 'a', 't', ' ', 'l', 'i', 'n', 'e', ' ']);
        let n = crate::number::decimal_chars(self.line_number as u128);
        crate::runner::append(&mut out, n.as_slice());
        crate::runner::append(&mut out, &[':', ' ']);
        let l = chars_of(self.line.as_str());
        crate::runner::append(&mut out, l.as_slice());
        assert(out@ =~= script_error_text(self@));
        string_of(out.as_slice())
    }
}

// ───────────────────────── laws of scripts ─────────────────────────

/// Unescaping never makes text longer, and leaves text without a backslash
/// as it is.
pub proof fn lemma_unescape_shape(s: Seq<char>)
    ensures
        unescape_spec(s).len() <= s.len(),
        !s.contains('\\') ==> unescape_spec(s) == s,
    decreases s.len(),
{
    if s.len() > 0 {
        let h = head_len(s);
        assert(1 <= h <= s.len());
        lemma_unescape_shape(s.skip(h));
        assert(head_chars(s).len() <= h);
        if !s.contains('\\') {
            assert(s[0] != '\\') by {
                if s[0] == '\\' {
                    assert(s.contains('\\'));
                }
            }
            assert(!s.skip(1).contains('\\')) by {
                if s.skip(1).contains('\\') {
                    let i = choose|i: int| 0 <= i < s.skip(1).len() && s.skip(1)[i] == '\\';
                    assert(s[i + 1] == '\\');
                }
            }
            assert(seq![s[0]] + s.skip(1) =~= s);
        }
    }
}

/// The commands of lines do not depend on the number the first line has.
proof fn lemma_parse_lines_renumber(ls: Seq<Seq<char>>, f: nat, g: nat)
    requires
        parse_lines(ls, f) is Ok,
    ensures
        parse_lines(ls, g) == parse_lines(ls, f),
    decreases ls.len(),
{
    if ls.len() > 0 {
        lemma_parse_lines_renumber(ls.drop_first(), f + 1, g + 1);
    }
}

/// Trimmed, a line is the same with or without a final carriage return.
proof fn lemma_trim_strip_cr(s: Seq<char>)
    ensures
        trim(strip_cr(s)) == trim(s),
{
    if s.len() > 0 && s.last() == '\r' {
        let p = s.drop_last();
        assert(p + seq!['\r'] =~= s);
        lemma_trim_start_append(p, seq!['\r']);
        if trim_start(p).len() > 0 {
            assert((trim_start(p) + seq!['\r']).drop_last() =~= trim_start(p));
        } else {
            assert(seq!['\r'].drop_first() =~= Seq::<char>::empty());
            assert(trim_start(seq!['\r']) == trim_start(Seq::<char>::empty()));
        }
    }
}

/// Trimming the start of joined text trims the first part, or the second
/// when the first is all whitespace.
proof fn lemma_trim_start_append(p: Seq<char>, q: Seq<char>)
    ensures
        trim_start(p).len() > 0 ==> trim_start(p + q) == trim_start(p) + q,
        trim_start(p).len() == 0 ==> trim_start(p + q) == trim_start(q),
    decreases p.len(),
{
    if p.len() == 0 {
        assert(p + q =~= q);
    } else {
        assert((p + q)[0] == p[0]);
        if is_ws(p[0]) {
            assert((p + q).drop_first() =~= p.drop_first() + q);
            lemma_trim_start_append(p.drop_first(), q);
        }
    }
}

/// Where `a` has a line break, text after `a` does not move its first one;
/// where it has none, a line break right after it ends its only line.
proof fn lemma_line_len_append(a: Seq<char>, r: Seq<char>)
    ensures
        line_len(a) <= a.len(),
        line_len(a) < a.len() ==> line_len(a + r) == line_len(a),
        line_len(a) == a.len() && r.len() > 0 && r[0] == '\n' ==> line_len(a + r) == a.len(),
    decreases a.len(),
{
    if a.len() > 0 {
        assert((a + r)[0] == a[0]);
        if a[0] != '\n' {
            assert((a + r).drop_first() =~= a.drop_first() + r);
            lemma_line_len_append(a.drop_first(), r);
        }
    } else {
        assert(a + r =~= r);
    }
}

/// The lines of text joined to `b` by a line break: an empty `a` adds an
/// empty first line; otherwise `a`'s first line comes first, and the rest
/// follows (joined to `b` still, or `b` itself when `a` has one line only,
/// then without its final carriage return).
proof fn lemma_lines_joined(a: Seq<char>, b: Seq<char>)
    ensures
        a.len() == 0 ==> lines(a + seq!['\n'] + b) == seq![Seq::<char>::empty()] + lines(b),
        a.len() > 0 && line_len(a) < a.len() ==> lines(a) == seq![strip_cr(a.take(line_len(a) as int))]
            + lines(a.skip((line_len(a) + 1) as int)) && lines(a + seq!['\n'] + b) == seq![
            strip_cr(a.take(line_len(a) as int)),
        ] + lines(a.skip((line_len(a) + 1) as int) + seq!['\n'] + b),
        a.len() > 0 && line_len(a) >= a.len() ==> lines(a) == seq![a] && lines(a + seq!['\n'] + b)
            == seq![strip_cr(a)] + lines(b),
{
    let x = a + seq!['\n'] + b;
    lemma_line_len_append(a, seq!['\n'] + b);
    assert(x =~= a + (seq!['\n'] + b));
    if a.len() == 0 {
        assert(x =~= seq!['\n'] + b);
        assert(line_len(x) == 0);
        assert(x.skip(1) =~= b);
        assert(x.take(0) =~= Seq::<char>::empty());
        assert(strip_cr(Seq::<char>::empty()) =~= Seq::<char>::empty());
    } else {
        let n = line_len(a);
        if n < a.len() {
            assert(x.take(n as int) =~= a.take(n as int));
            assert(x.skip((n + 1) as int) =~= a.skip((n + 1) as int) + seq!['\n'] + b);
        } else {
            assert(x.take(n as int) =~= a);
            assert(x.skip((n + 1) as int) =~= b);
        }
    }
}

/// How parsing goes on a first line and the lines after it.
proof fn lemma_parse_cons(l: Seq<char>, ls: Seq<Seq<char>>, f: nat)
    ensures
        is_skipped(trim(l)) ==> parse_lines(seq![l] + ls, f) == parse_lines(ls, f + 1),
        !is_skipped(trim(l)) && line_result(trim(l)) is Ok && parse_lines(ls, f + 1) is Ok
            ==> parse_lines(seq![l] + ls, f) == Ok::<Seq<CommandView>, ScriptErrorView>(
            seq![line_result(trim(l))->Ok_0] + parse_lines(ls, f + 1)->Ok_0,
        ),
        !is_skipped(trim(l)) && parse_lines(seq![l] + ls, f) is Ok ==> line_result(trim(l)) is Ok
            && parse_lines(ls, f + 1) is Ok,
{
    assert((seq![l] + ls).drop_first() =~= ls);
    assert((seq![l] + ls)[0] == l);
}

/// Lines parsed from `first` on, followed by the lines of `b`.
#[verifier::rlimit(40)]
proof fn lemma_parse_concat_from(a: Seq<char>, b: Seq<char>, f: nat, ca: Seq<CommandView>, cb: Seq<CommandView>)
    requires
        parse_lines(lines(a), f) == Ok::<Seq<CommandView>, ScriptErrorView>(ca),
        parse_lines(lines(b), 0) == Ok::<Seq<CommandView>, ScriptErrorView>(cb),
    ensures
        parse_lines(lines(a + seq!['\n'] + b), f) == Ok::<Seq<CommandView>, ScriptErrorView>(ca + cb),
    decreases a.len(),
{
    lemma_lines_joined(a, b);
    lemma_parse_lines_renumber(lines(b), 0, f + 1);
    if a.len() == 0 {
        lemma_parse_cons(Seq::<char>::empty(), lines(b), f);
        assert(trim(Seq::<char>::empty()) =~= Seq::<char>::empty());
        assert(ca =~= Seq::<CommandView>::empty());
        assert(ca + cb =~= cb);
    } else {
        let n = line_len(a);
        lemma_line_len_append(a, seq!['\n'] + b);
        if n < a.len() {
            let a2 = a.skip((n + 1) as int);
            let first = strip_cr(a.take(n as int));
            lemma_parse_cons(first, lines(a2), f);
            lemma_parse_cons(first, lines(a2 + seq!['\n'] + b), f);
            if is_skipped(trim(first)) {
                lemma_parse_concat_from(a2, b, f + 1, ca, cb);
            } else {
                let c = line_result(trim(first))->Ok_0;
                let ca2 = parse_lines(lines(a2), f + 1)->Ok_0;
                assert(ca == seq![c] + ca2);
                lemma_parse_concat_from(a2, b, f + 1, ca2, cb);
                assert(seq![c] + (ca2 + cb) =~= ca + cb);
            }
        } else {
            lemma_trim_strip_cr(a);
            lemma_parse_cons(a, Seq::<Seq<char>>::empty(), f);
            lemma_parse_cons(strip_cr(a), lines(b), f);
            assert(seq![a] =~= seq![a] + Seq::<Seq<char>>::empty());
            if is_skipped(trim(a)) {
                assert(ca =~= Seq::<CommandView>::empty());
                assert(ca + cb =~= cb);
            } else {
                let c = line_result(trim(a))->Ok_0;
                assert(seq![c] + Seq::<CommandView>::empty() =~= seq![c]);
                assert(ca == seq![c]);
            }
        }
    }
}

/// A script joined to another by a line break parses to the commands of
/// the first followed by those of the second, when both parse: blank and
/// `#` lines, wherever they are, add nothing.
pub proof fn lemma_script_concat(a: Seq<char>, b: Seq<char>)
    requires
        script_result(a) is Ok,
        script_result(b) is Ok,
    ensures
        script_result(a + seq!['\n'] + b) == Ok::<Seq<CommandView>, ScriptErrorView>(
            script_result(a)->Ok_0 + script_result(b)->Ok_0,
        ),
{
    lemma_parse_concat_from(a, b, 0, script_result(a)->Ok_0, script_result(b)->Ok_0);
}


/// The hex digit of value `k` (below 16): `0`-`9`, then `A`-`F` in upper
/// case or `a`-`f` in lower case.
pub open spec fn hex_digit_char(k: int, upper: bool) -> char {
    if k < 10 {
        (48 + k) as char
    } else if upper {
        (55 + k) as char
    } else {
        (87 + k) as char
    }
}

/// A `\x` escape with two hex digits, in either case, stands for the one
/// character whose code is the byte the digits write: `\x1B` and `\x1b`
/// are both ESC.
pub proof fn lemma_unescape_hex_escape(k1: int, k2: int, upper1: bool, upper2: bool)
    requires
        0 <= k1 < 16,
        0 <= k2 < 16,
    ensures
        parse_hex_u8(seq![hex_digit_char(k1, upper1), hex_digit_char(k2, upper2)]) == Some(
            16 * k1 + k2,
        ),
        unescape_spec(seq!['\\', 'x', hex_digit_char(k1, upper1), hex_digit_char(k2, upper2)])
            == seq![((16 * k1 + k2) as u8) as char],
{
    let d1 = hex_digit_char(k1, upper1);
    let d2 = hex_digit_char(k2, upper2);
    assert(hex_val(d1) == k1);
    assert(hex_val(d2) == k2);
    let s = seq!['\\', 'x', d1, d2];
    let ds = seq![d1, d2];
    assert(s.subrange(2, 4) =~= ds);
    assert(unsigned_digits(ds) =~= ds);
    assert(ds.drop_last() =~= seq![d1]);
    assert(seq![d1].drop_last() =~= Seq::<char>::empty());
    assert(radix_value(Seq::<char>::empty(), 16) == 0);
    assert(seq![d1].last() == d1);
    assert(radix_value(seq![d1], 16) == k1);
    assert(ds.last() == d2);
    assert(radix_value(ds, 16) == k1 * 16 + k2);
    assert(all_digits_in(ds, 16));
    assert(parse_hex_u8(ds) == Some(16 * k1 + k2));
    assert(head_len(s) == 4);
    assert(head_chars(s) == seq![((16 * k1 + k2) as u8) as char]);
    assert(s.skip(4) =~= Seq::<char>::empty());
    assert(unescape_spec(s.skip(4)) =~= Seq::<char>::empty());
    assert(seq![((16 * k1 + k2) as u8) as char] + Seq::<char>::empty() =~= seq![((16 * k1 + k2) as u8) as char]);
}

} // verus!

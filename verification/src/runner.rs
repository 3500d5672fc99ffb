//! Building command sequences fluently, describing them for a progress
//! report, and what running each one asks of a session.
use crate::number::{
    all_digits_in, decimal, decimal_chars, hex_val, is_digit_in, parse_hex_u8, radix_value,
    unsigned_digits,
};
use crate::script::{
    command_views, unescape_spec, duration_as_millis, duration_as_secs, duration_from_secs, duration_nanos,
    Command, CommandView, SpecialKey,
};
use crate::text::{push_char, string_of};
use std::time::Duration;
use vstd::prelude::*;

verus! {

/// Builder for constructing DSL command sequences fluently.
pub struct DslBuilder {
    commands: Vec<Command>,
}

impl View for DslBuilder {
    type V = Seq<CommandView>;

    closed spec fn view(&self) -> Seq<CommandView> {
        command_views(self.commands@)
    }
}

impl DslBuilder {
    /// Create a new DSL builder.
    pub fn new() -> (r: Self)
        ensures
            r@ == Seq::<CommandView>::empty(),
    {
        let r = DslBuilder { commands: Vec::new() };
        assert(r@ =~= Seq::<CommandView>::empty());
        r
    }

    /// Appends a command.
    fn push(self, c: Command) -> (r: Self)
        ensures
            r@ == self@.push(c@),
    {
        let mut commands = self.commands;
        let ghost before = commands@;
        commands.push(c);
        let r = DslBuilder { commands };
        assert(command_views(r.commands@) =~= command_views(before).push(c@));
        r
    }

    /// Add a wait command.
    pub fn wait(self, duration: Duration) -> (r: Self)
        ensures
            r@ == self@.push(CommandView::Wait { nanos: duration_nanos(duration) }),
    {
        self.push(Command::Wait { duration })
    }

    /// Add a write command.
    pub fn write(self, content: &str) -> (r: Self)
        ensures
            r@ == self@.push(CommandView::Write { content: content@ }),
    {
        self.push(Command::Write { content: content.to_owned() })
    }

    /// Add a wait_for command.
    pub fn wait_for(self, pattern: &str, timeout: Duration) -> (r: Self)
        ensures
            r@ == self@.push(
                CommandView::WaitFor { pattern: pattern@, timeout_nanos: duration_nanos(timeout) },
            ),
    {
        self.push(Command::WaitFor { pattern: pattern.to_owned(), timeout })
    }

    /// Add an assert_screen command.
    pub fn assert_screen_contains(self, expected: &str) -> (r: Self)
        ensures
            r@ == self@.push(CommandView::AssertScreen { expected: expected@ }),
    {
        self.push(Command::AssertScreen { expected: expected.to_owned() })
    }

    /// Add a clear_buffer command.
    pub fn clear_buffer(self) -> (r: Self)
        ensures
            r@ == self@.push(CommandView::ClearBuffer),
    {
        self.push(Command::ClearBuffer)
    }

    /// Add a key press command.
    pub fn key(self, key: SpecialKey) -> (r: Self)
        ensures
            r@ == self@.push(CommandView::Key { key }),
    {
        self.push(Command::Key { key })
    }

    /// Convenience method to press Enter.
    pub fn enter(self) -> (r: Self)
        ensures
            r@ == self@.push(CommandView::Key { key: SpecialKey::Enter }),
    {
        self.key(SpecialKey::Enter)
    }

    /// Convenience method to press Escape.
    pub fn esc(self) -> (r: Self)
        ensures
            r@ == self@.push(CommandView::Key { key: SpecialKey::Escape }),
    {
        self.key(SpecialKey::Escape)
    }

    /// Convenience method to wait for shell prompt: `$` within 5 s.
    pub fn wait_for_shell(self) -> (r: Self)
        ensures
            r@ == self@.push(
                CommandView::WaitFor { pattern: seq!['$'], timeout_nanos: 5_000_000_000 },
            ),
    {
        let mut pattern = String::new();
        push_char(&mut pattern, '$');
        let timeout = duration_from_secs(5);
        self.push(Command::WaitFor { pattern, timeout })
    }

    /// Get the collected commands.
    pub fn into_commands(self) -> (r: Vec<Command>)
        ensures
            command_views(r@) == self@,
    {
        self.commands
    }
}

impl Default for DslBuilder {
    fn default() -> (r: Self)
        ensures
            r@ == Seq::<CommandView>::empty(),
    {
        Self::new()
    }
}

// ───────────────────────── display of contents ─────────────────────────

/// How a character of written content is shown: line breaks, tabs and the
/// control characters the keys send are spelled as escapes.
pub open spec fn escape_char(c: char) -> Seq<char> {
    if c == '\n' {
        seq!['\\', 'n']
    } else if c == '\r' {
        seq!['\\', 'r']
    } else if c == '\t' {
        seq!['\\', 't']
    } else if c == '\u{1b}' {
        seq!['\\', 'x', '1', 'b']
    } else if c == '\u{7f}' {
        seq!['\\', 'x', '7', 'f']
    } else if c == '\u{03}' {
        seq!['\\', 'x', '0', '3']
    } else if c == '\u{04}' {
        seq!['\\', 'x', '0', '4']
    } else {
        seq![c]
    }
}

/// The content with every character shown by `escape_char`.
pub open spec fn escape_display(s: Seq<char>) -> Seq<char>
    decreases s.len(),
{
    if s.len() == 0 {
        seq![]
    } else {
        escape_char(s[0]) + escape_display(s.drop_first())
    }
}

/// The number of bytes of `c` in UTF-8.
pub open spec fn utf8_width(c: char) -> nat {
    if (c as u32) < 0x80 {
        1
    } else if (c as u32) < 0x800 {
        2
    } else if (c as u32) < 0x10000 {
        3
    } else {
        4
    }
}

/// The number of bytes of `s` in UTF-8 (`str::len`).
pub open spec fn utf8_len(s: Seq<char>) -> nat
    decreases s.len(),
{
    if s.len() == 0 {
        0
    } else {
        utf8_width(s[0]) + utf8_len(s.drop_first())
    }
}

/// How many leading characters of `s` fit in `budget` bytes of UTF-8.
pub open spec fn chars_within(s: Seq<char>, budget: int) -> nat
    decreases s.len(),
{
    if s.len() == 0 || utf8_width(s[0]) > budget {
        0
    } else {
        1 + chars_within(s.drop_first(), budget - utf8_width(s[0]))
    }
}

/// The longest shown content before it is cut, in bytes.
pub open spec fn display_limit() -> int {
    40
}

/// What `format_content` gives: the escaped content in single quotes, cut
/// after its first 40 bytes (and marked by `...`) when it is longer.
pub open spec fn format_content_spec(s: Seq<char>) -> Seq<char> {
    let e = escape_display(s);
    if utf8_len(e) > display_limit() {
        seq!['\''] + e.take(chars_within(e, display_limit()) as int) + seq!['.', '.', '.', '\'']
    } else {
        seq!['\''] + e + seq!['\'']
    }
}

/// Cutting the escaped content after 40 bytes would split a character.
pub open spec fn cut_splits_char(s: Seq<char>) -> bool {
    let e = escape_display(s);
    &&& utf8_len(e) > display_limit()
    &&& utf8_len(e.take(chars_within(e, display_limit()) as int)) != display_limit()
}

/// UTF-8 length adds up over concatenation.
pub proof fn lemma_utf8_len_concat(a: Seq<char>, b: Seq<char>)
    ensures
        utf8_len(a + b) == utf8_len(a) + utf8_len(b),
    decreases a.len(),
{
    if a.len() > 0 {
        lemma_utf8_len_concat(a.drop_first(), b);
        assert((a + b).drop_first() =~= a.drop_first() + b);
    } else {
        assert(a + b =~= b);
    }
}

/// The UTF-8 width of a character, computed.
pub fn utf8_width_exec(c: char) -> (w: usize)
    ensures
        w == utf8_width(c),
{
    let u = c as u32;
    if u < 0x80 {
        1
    } else if u < 0x800 {
        2
    } else if u < 0x10000 {
        3
    } else {
        4
    }
}

/// Shows a character of content, escaped.
fn push_escaped(out: &mut Vec<char>, c: char)
    ensures
        final(out)@ == old(out)@ + escape_char(c),
{
    let ghost before = out@;
    if c == '\n' {
        out.push('\\');
        out.push('n');
    } else if c == '\r' {
        out.push('\\');
        out.push('r');
    } else if c == '\t' {
        out.push('\\');
        out.push('t');
    } else if c == '\u{1b}' {
        out.push('\\');
        out.push('x');
        out.push('1');
        out.push('b');
    } else if c == '\u{7f}' {
        out.push('\\');
        out.push('x');
        out.push('7');
        out.push('f');
    } else if c == '\u{03}' {
        out.push('\\');
        out.push('x');
        out.push('0');
        out.push('3');
    } else if c == '\u{04}' {
        out.push('\\');
        out.push('x');
        out.push('0');
        out.push('4');
    } else {
        out.push(c);
    }
    assert(out@ =~= before + escape_char(c));
}

/// The content with its special characters escaped.
pub fn escape_display_chars(s: &[char]) -> (r: Vec<char>)
    ensures
        r@ == escape_display(s@),
{
    let mut out: Vec<char> = Vec::new();
    let mut i: usize = 0;
    assert(s@.skip(0) =~= s@);
    while i < s.len()
        invariant
            i <= s@.len(),
            out@ + escape_display(s@.skip(i as int)) == escape_display(s@),
        decreases s@.len() - i,
    {
        let ghost before = out@;
        assert(s@.skip(i as int).drop_first() =~= s@.skip(i + 1));
        push_escaped(&mut out, s[i]);
        assert(before + escape_display(s@.skip(i as int)) =~= out@ + escape_display(
            s@.skip(i + 1),
        ));
        i += 1;
    }
    assert(escape_display(s@.skip(i as int)) =~= Seq::<char>::empty());
    assert(out@ + Seq::<char>::empty() =~= out@);
    out
}

/// The number of leading characters of `e` that fit in `budget` bytes.
pub(crate) fn chars_within_exec(e: &[char], budget: usize) -> (k: usize)
    ensures
        k == chars_within(e@, budget as int),
        k <= e@.len(),
        utf8_len(e@.take(k as int)) <= budget,
        k < e@.len() ==> utf8_len(e@.take(k as int)) + utf8_width(e@[k as int]) > budget,
{
    measure_within(e, budget).0
}

/// The number of leading characters of `e` that fit in `budget` bytes, and
/// how many bytes they take.
pub(crate) fn measure_within(e: &[char], budget: usize) -> (r: (usize, usize))
    ensures
        r.0 == chars_within(e@, budget as int),
        r.0 <= e@.len(),
        r.1 == utf8_len(e@.take(r.0 as int)),
        r.1 <= budget,
        r.0 < e@.len() ==> r.1 + utf8_width(e@[r.0 as int]) > budget,
{
    let mut i: usize = 0;
    let mut used: usize = 0;
    assert(e@.skip(0) =~= e@);
    assert(e@.take(0) =~= Seq::<char>::empty());
    while i < e.len() && utf8_width_exec(e[i]) <= budget - used
        invariant
            i <= e@.len(),
            used <= budget,
            used == utf8_len(e@.take(i as int)),
            chars_within(e@, budget as int) == i + chars_within(e@.skip(i as int), budget - used),
        decreases e@.len() - i,
    {
        let w = utf8_width_exec(e[i]);
        proof {
            assert(e@.skip(i as int).drop_first() =~= e@.skip(i + 1));
            assert(e@.take(i + 1) =~= e@.take(i as int) + seq![e@[i as int]]);
            lemma_utf8_len_concat(e@.take(i as int), seq![e@[i as int]]);
            assert(utf8_len(seq![e@[i as int]]) == w) by {
                reveal_with_fuel(utf8_len, 2);
                assert(seq![e@[i as int]].drop_first() =~= Seq::<char>::empty());
            }
        }
        used = used + w;
        i += 1;
    }
    (i, used)
}

/// Whether the characters take more than `budget` bytes.
pub(crate) fn longer_than(e: &[char], budget: usize) -> (b: bool)
    ensures
        b == (utf8_len(e@) > budget),
{
    let (k, _) = measure_within(e, budget);
    if k < e.len() {
        proof {
            assert(e@ =~= e@.take(k as int) + e@.skip(k as int));
            lemma_utf8_len_concat(e@.take(k as int), e@.skip(k as int));
            assert(utf8_len(e@.skip(k as int)) >= utf8_width(e@[k as int])) by {
                assert(e@.skip(k as int)[0] == e@[k as int]);
            }
        }
        true
    } else {
        assert(e@.take(k as int) =~= e@);
        false
    }
}

/// Whether the leading characters that fit in `budget` bytes take exactly
/// `budget` bytes (cutting there splits no character).
pub(crate) fn fills_budget(e: &[char], budget: usize) -> (b: bool)
    ensures
        b == (utf8_len(e@.take(chars_within(e@, budget as int) as int)) == budget),
{
    let (_, used) = measure_within(e, budget);
    used == budget
}

/// Whether the content can be shown: cutting its escaped form after 40
/// bytes does not split a character.
pub fn content_cuts_cleanly(s: &str) -> (b: bool)
    ensures
        b == !cut_splits_char(s@),
{
    let v = crate::text::chars_of(s);
    let e = escape_display_chars(v.as_slice());
    let (k, used) = measure_within(e.as_slice(), 40);
    if k < e.len() {
        proof {
            assert(e@ =~= e@.take(k as int) + e@.skip(k as int));
            lemma_utf8_len_concat(e@.take(k as int), e@.skip(k as int));
            assert(utf8_len(e@.skip(k as int)) >= utf8_width(e@[k as int])) by {
                assert(e@.skip(k as int)[0] == e@[k as int]);
            }
        }
        used == 40
    } else {
        assert(e@.take(k as int) =~= e@);
        true
    }
}

/// Format content for display, truncating if too long and showing special
/// chars.
pub fn format_content(s: &str) -> (r: String)
    requires
        !cut_splits_char(s@),
    ensures
        r@ == format_content_spec(s@),
{
    let v = crate::text::chars_of(s);
    let e = escape_display_chars(v.as_slice());
    let k = chars_within_exec(e.as_slice(), 40);
    let mut out: Vec<char> = Vec::new();
    out.push('\'');
    if k < e.len() {
        proof {
            assert(e@ =~= e@.take(k as int) + e@.skip(k as int));
            lemma_utf8_len_concat(e@.take(k as int), e@.skip(k as int));
            assert(utf8_len(e@.skip(k as int)) >= utf8_width(e@[k as int])) by {
                assert(e@.skip(k as int)[0] == e@[k as int]);
            }
        }
        crate::text::extend_range(&mut out, e.as_slice(), 0, k);
        out.push('.');
        out.push('.');
        out.push('.');
        out.push('\'');
        assert(out@ =~= seq!['\''] + e@.take(k as int) + seq!['.', '.', '.', '\'']);
    } else {
        assert(e@.take(k as int) =~= e@);
        crate::text::extend_range(&mut out, e.as_slice(), 0, e.len());
        out.push('\'');
        assert(out@ =~= seq!['\''] + e@ + seq!['\'']);
    }
    string_of(out.as_slice())
}

// ───────────────────────── progress lines ─────────────────────────

/// The name a key is shown by.
pub open spec fn key_name(k: SpecialKey) -> Seq<char> {
    match k {
        SpecialKey::Enter => seq!['E', 'n', 't', 'e', 'r'],
        SpecialKey::Escape => seq!['E', 's', 'c', 'a', 'p', 'e'],
        SpecialKey::Tab => seq!['T', 'a', 'b'],
        SpecialKey::Backspace => seq!['B', 'a', 'c', 'k', 's', 'p', 'a', 'c', 'e'],
        SpecialKey::CtrlC => seq!['C', 't', 'r', 'l', '+', 'C'],
        SpecialKey::CtrlD => seq!['C', 't', 'r', 'l', '+', 'D'],
    }
}

/// `[current/total] `, the start of a progress line.
pub open spec fn progress_prefix(current: nat, total: nat) -> Seq<char> {
    seq!['['] + decimal(current) + seq!['/'] + decimal(total) + seq![']', ' ']
}

/// The progress line of the command numbered `current` of `total`: its
/// kind and argument, a wait of a second or more in whole seconds and a
/// shorter one in milliseconds, texts as `format_content` shows them.
pub open spec fn command_line(current: nat, total: nat, c: CommandView) -> Seq<char> {
    progress_prefix(current, total) + match c {
        CommandView::Wait { nanos } => if nanos / 1_000_000 >= 1000 {
            seq!['w', 'a', 'i', 't', ' '] + decimal((nanos / 1_000_000_000) as nat) + seq!['s']
        } else {
            seq!['w', 'a', 'i', 't', ' '] + decimal((nanos / 1_000_000) as nat) + seq!['m', 's']
        },
        CommandView::Write { content } => seq!['w', 'r', 'i', 't', 'e', ' '] + format_content_spec(
            content,
        ),
        CommandView::WaitFor { pattern, timeout_nanos } => seq![
            'w',
            'a',
            'i',
            't',
            ' ',
            'f',
            'o',
            'r',
            ' ',
            '\'',
        ] + format_content_spec(pattern) + seq![
            '\'',
            ' ',
            '(',
            't',
            'i',
            'm',
            'e',
            'o',
            'u',
            't',
            ':',
            ' ',
        ] + decimal((timeout_nanos / 1_000_000_000) as nat) + seq!['s', ')'],
        CommandView::AssertScreen { expected } => seq![
            'a',
            's',
            's',
            'e',
            'r',
            't',
            ' ',
            's',
            'c',
            'r',
            'e',
            'e',
            'n',
            ' ',
            'c',
            'o',
            'n',
            't',
            'a',
            'i',
            'n',
            's',
            ' ',
            '\'',
        ] + format_content_spec(expected) + seq!['\''],
        CommandView::ClearBuffer => seq!['c', 'l', 'e', 'a', 'r', ' ', 'b', 'u', 'f', 'f', 'e', 'r'],
        CommandView::Key { key } => seq!['k', 'e', 'y', ' '] + key_name(key),
    }
}

/// Showing the command's text would cut it inside a character.
pub open spec fn command_line_splits(c: CommandView) -> bool {
    match c {
        CommandView::Write { content } => cut_splits_char(content),
        CommandView::WaitFor { pattern, .. } => cut_splits_char(pattern),
        CommandView::AssertScreen { expected } => cut_splits_char(expected),
        _ => false,
    }
}

/// Appends the characters `s`.
pub fn append(out: &mut Vec<char>, s: &[char])
    ensures
        final(out)@ == old(out)@ + s@,
{
    crate::text::extend_range(out, s, 0, s.len());
    assert(s@.subrange(0, s@.len() as int) =~= s@);
}

/// Whether the command's progress line can be made: its text can be shown.
pub fn command_cuts_cleanly(cmd: &Command) -> (b: bool)
    ensures
        b == !command_line_splits(cmd@),
{
    match cmd {
        Command::Write { content } => content_cuts_cleanly(content.as_str()),
        Command::WaitFor { pattern, .. } => content_cuts_cleanly(pattern.as_str()),
        Command::AssertScreen { expected } => content_cuts_cleanly(expected.as_str()),
        _ => true,
    }
}

/// The line that reports the command numbered `current` of `total`.
pub fn describe_command(current: usize, total: usize, cmd: &Command) -> (r: String)
    requires
        !command_line_splits(cmd@),
    ensures
        r@ == command_line(current as nat, total as nat, cmd@),
{
    let mut out: Vec<char> = Vec::new();
    out.push('[');
    let cur = decimal_chars(current as u128);
    append(&mut out, cur.as_slice());
    out.push('/');
    let tot = decimal_chars(total as u128);
    append(&mut out, tot.as_slice());
    out.push(']');
    out.push(' ');
    assert(out@ =~= progress_prefix(current as nat, total as nat));
    let ghost prefix = out@;
    match cmd {
        Command::Wait { duration } => {
            let millis = duration_as_millis(duration);
            append(&mut out, &['w', 'a', 'i', 't', ' ']);
            if millis >= 1000 {
                let secs = duration_as_secs(duration);
                let d = decimal_chars(secs as u128);
                append(&mut out, d.as_slice());
                out.push('s');
            } else {
                let d = decimal_chars(millis);
                append(&mut out, d.as_slice());
                out.push('m');
                out.push('s');
            }
        },
        Command::Write { content } => {
            append(&mut out, &['w', 'r', 'i', 't', 'e', ' ']);
            let f = crate::text::chars_of(format_content(content.as_str()).as_str());
            append(&mut out, f.as_slice());
        },
        Command::WaitFor { pattern, timeout } => {
            append(&mut out, &['w', 'a', 'i', 't', ' ', 'f', 'o', 'r', ' ', '\'']);
            let f = crate::text::chars_of(format_content(pattern.as_str()).as_str());
            append(&mut out, f.as_slice());
            append(
                &mut out,
                &['\'', ' ', '(', 't', 'i', 'm', 'e', 'o', 'u', 't', ':', ' '],
            );
            let secs = duration_as_secs(timeout);
            let d = decimal_chars(secs as u128);
            append(&mut out, d.as_slice());
            out.push('s');
            out.push(')');
        },
        Command::AssertScreen { expected } => {
            append(
                &mut out,
                &[
                    'a',
                    's',
                    's',
                    'e',
                    'r',
                    't',
                    ' ',
                    's',
                    'c',
                    'r',
                    'e',
                    'e',
                    'n',
                    ' ',
                    'c',
                    'o',
                    'n',
                    't',
                    'a',
                    'i',
                    'n',
                    's',
                    ' ',
                    '\'',
                ],
            );
            let f = crate::text::chars_of(format_content(expected.as_str()).as_str());
            append(&mut out, f.as_slice());
            out.push('\'');
        },
        Command::ClearBuffer => {
            append(&mut out, &['c', 'l', 'e', 'a', 'r', ' ', 'b', 'u', 'f', 'f', 'e', 'r']);
        },
        Command::Key { key } => {
            append(&mut out, &['k', 'e', 'y', ' ']);
            match key {
                SpecialKey::Enter => append(&mut out, &['E', 'n', 't', 'e', 'r']),
                SpecialKey::Escape => append(&mut out, &['E', 's', 'c', 'a', 'p', 'e']),
                SpecialKey::Tab => append(&mut out, &['T', 'a', 'b']),
                SpecialKey::Backspace => append(
                    &mut out,
                    &['B', 'a', 'c', 'k', 's', 'p', 'a', 'c', 'e'],
                ),
                SpecialKey::CtrlC => append(&mut out, &['C', 't', 'r', 'l', '+', 'C']),
                SpecialKey::CtrlD => append(&mut out, &['C', 't', 'r', 'l', '+', 'D']),
            }
        },
    }
    assert(out@ =~= command_line(current as nat, total as nat, cmd@));
    string_of(out.as_slice())
}

// ───────────────────────── running commands ─────────────────────────

/// The character that a special key sends.
pub open spec fn key_char(k: SpecialKey) -> char {
    match k {
        SpecialKey::Enter => '\n',
        SpecialKey::Escape => '\u{1b}',
        SpecialKey::Tab => '\t',
        SpecialKey::Backspace => '\u{7f}',
        SpecialKey::CtrlC => '\u{03}',
        SpecialKey::CtrlD => '\u{04}',
    }
}

/// The input that pressing a special key writes.
pub fn key_sequence(k: SpecialKey) -> (r: String)
    ensures
        r@ == seq![key_char(k)],
{
    let c = match k {
        SpecialKey::Enter => '\n',
        SpecialKey::Escape => '\u{1b}',
        SpecialKey::Tab => '\t',
        SpecialKey::Backspace => '\u{7f}',
        SpecialKey::CtrlC => '\u{03}',
        SpecialKey::CtrlD => '\u{04}',
    };
    let mut s = String::new();
    push_char(&mut s, c);
    s
}

/// What running a command asks of a session.
#[derive(Debug)]
pub enum Step {
    /// Sleep for the duration.
    Sleep { duration: Duration },
    /// Write the data as input.
    WriteInput { data: String },
    /// Wait until the pattern shows in the output, up to the timeout.
    WaitFor { pattern: String, timeout: Duration },
    /// Check that the screen holds the text.
    AssertScreenContains { expected: String },
    /// Forget the output gathered so far.
    ClearBuffer,
}

/// A step with its texts as character sequences and durations in
/// nanoseconds.
pub enum StepView {
    Sleep { nanos: int },
    WriteInput { data: Seq<char> },
    WaitFor { pattern: Seq<char>, timeout_nanos: int },
    AssertScreenContains { expected: Seq<char> },
    ClearBuffer,
}

impl View for Step {
    type V = StepView;

    open spec fn view(&self) -> StepView {
        match self {
            Step::Sleep { duration } => StepView::Sleep { nanos: duration_nanos(*duration) },
            Step::WriteInput { data } => StepView::WriteInput { data: data@ },
            Step::WaitFor { pattern, timeout } => StepView::WaitFor {
                pattern: pattern@,
                timeout_nanos: duration_nanos(*timeout),
            },
            Step::AssertScreenContains { expected } => StepView::AssertScreenContains {
                expected: expected@,
            },
            Step::ClearBuffer => StepView::ClearBuffer,
        }
    }
}

/// The step that runs a command: a key press writes the key's character,
/// the other commands ask for what they name.
pub open spec fn step_of(c: CommandView) -> StepView {
    match c {
        CommandView::Wait { nanos } => StepView::Sleep { nanos },
        CommandView::Write { content } => StepView::WriteInput { data: content },
        CommandView::WaitFor { pattern, timeout_nanos } => StepView::WaitFor {
            pattern,
            timeout_nanos,
        },
        CommandView::AssertScreen { expected } => StepView::AssertScreenContains { expected },
        CommandView::ClearBuffer => StepView::ClearBuffer,
        CommandView::Key { key } => StepView::WriteInput { data: seq![key_char(key)] },
    }
}

/// What running the command asks of a session.
pub fn plan_command(cmd: &Command) -> (r: Step)
    ensures
        r@ == step_of(cmd@),
{
    match cmd {
        Command::Wait { duration } => Step::Sleep { duration: *duration },
        Command::Write { content } => Step::WriteInput { data: content.clone() },
        Command::WaitFor { pattern, timeout } => Step::WaitFor {
            pattern: pattern.clone(),
            timeout: *timeout,
        },
        Command::AssertScreen { expected } => Step::AssertScreenContains {
            expected: expected.clone(),
        },
        Command::ClearBuffer => Step::ClearBuffer,
        Command::Key { key } => Step::WriteInput { data: key_sequence(*key) },
    }
}

// ───────────────────────── laws ─────────────────────────

/// The hex value of two digits.
proof fn lemma_hex_pair(a: char, b: char)
    requires
        is_digit_in(a, 16),
        is_digit_in(b, 16),
    ensures
        parse_hex_u8(seq![a, b]) == Some(hex_val(a) * 16 + hex_val(b)),
{
    let s = seq![a, b];
    assert(unsigned_digits(s) =~= s);
    assert(s.drop_last() =~= seq![a]);
    assert(seq![a].drop_last() =~= Seq::<char>::empty());
    assert(radix_value(Seq::<char>::empty(), 16) == 0);
    assert(seq![a].last() == a);
    assert(radix_value(seq![a], 16) == hex_val(a));
    assert(s.last() == b);
    assert(all_digits_in(s, 16));
}

/// One shown character reads back as itself.
proof fn lemma_unescape_escape_char(c: char, rest: Seq<char>)
    requires
        c != '\\',
    ensures
        unescape_spec(escape_char(c) + rest) == seq![c] + unescape_spec(rest),
{
    let e = escape_char(c) + rest;
    if c == '\u{1b}' {
        lemma_hex_pair('1', 'b');
        assert(e.subrange(2, 4) =~= seq!['1', 'b']);
        assert(e.skip(4) =~= rest);
    } else if c == '\u{7f}' {
        lemma_hex_pair('7', 'f');
        assert(e.subrange(2, 4) =~= seq!['7', 'f']);
        assert(e.skip(4) =~= rest);
    } else if c == '\u{03}' {
        lemma_hex_pair('0', '3');
        assert(e.subrange(2, 4) =~= seq!['0', '3']);
        assert(e.skip(4) =~= rest);
    } else if c == '\u{04}' {
        lemma_hex_pair('0', '4');
        assert(e.subrange(2, 4) =~= seq!['0', '4']);
        assert(e.skip(4) =~= rest);
    } else if c == '\n' || c == '\r' || c == '\t' {
        assert(e.skip(2) =~= rest);
    } else {
        assert(e.skip(1) =~= rest);
    }
}

/// Content that holds no backslash, shown with its special characters
/// escaped (as progress lines show written content), reads back as the same
/// content when a script line's argument is unescaped.
pub proof fn lemma_unescape_escape_display(s: Seq<char>)
    requires
        !s.contains('\\'),
    ensures
        unescape_spec(escape_display(s)) == s,
    decreases s.len(),
{
    if s.len() > 0 {
        assert(s.drop_first().contains('\\') ==> s.contains('\\')) by {
            if s.drop_first().contains('\\') {
                let i = choose|i: int| 0 <= i < s.drop_first().len() && s.drop_first()[i] == '\\';
                assert(s[i + 1] == '\\');
            }
        }
        lemma_unescape_escape_display(s.drop_first());
        assert(s[0] != '\\') by {
            if s[0] == '\\' {
                assert(s.contains('\\'));
            }
        }
        lemma_unescape_escape_char(s[0], escape_display(s.drop_first()));
        assert(seq![s[0]] + s.drop_first() =~= s);
    } else {
        assert(escape_display(s) =~= Seq::<char>::empty());
    }
}


/// The progress line of a key press names the key pressed: `Enter`,
/// `Escape`, `Tab`, `Backspace`, `Ctrl+C`, `Ctrl+D`; two different keys
/// never give the same line.
pub proof fn lemma_key_lines_name_the_key(cur: nat, tot: nat, k1: SpecialKey, k2: SpecialKey)
    ensures
        command_line(cur, tot, CommandView::Key { key: SpecialKey::Enter }) == progress_prefix(cur, tot) + seq!['k', 'e', 'y', ' ', 'E', 'n', 't', 'e', 'r'],
        command_line(cur, tot, CommandView::Key { key: SpecialKey::Escape }) == progress_prefix(cur, tot) + seq!['k', 'e', 'y', ' ', 'E', 's', 'c', 'a', 'p', 'e'],
        command_line(cur, tot, CommandView::Key { key: SpecialKey::Tab }) == progress_prefix(cur, tot) + seq!['k', 'e', 'y', ' ', 'T', 'a', 'b'],
        command_line(cur, tot, CommandView::Key { key: SpecialKey::Backspace }) == progress_prefix(cur, tot) + seq!['k', 'e', 'y', ' ', 'B', 'a', 'c', 'k', 's', 'p', 'a', 'c', 'e'],
        command_line(cur, tot, CommandView::Key { key: SpecialKey::CtrlC }) == progress_prefix(cur, tot) + seq!['k', 'e', 'y', ' ', 'C', 't', 'r', 'l', '+', 'C'],
        command_line(cur, tot, CommandView::Key { key: SpecialKey::CtrlD }) == progress_prefix(cur, tot) + seq!['k', 'e', 'y', ' ', 'C', 't', 'r', 'l', '+', 'D'],
        command_line(cur, tot, CommandView::Key { key: k1 }) == command_line(
            cur,
            tot,
            CommandView::Key { key: k2 },
        ) ==> k1 == k2,
{
    let pre = progress_prefix(cur, tot) + seq!['k', 'e', 'y', ' '];
    let l1 = command_line(cur, tot, CommandView::Key { key: k1 });
    let l2 = command_line(cur, tot, CommandView::Key { key: k2 });
    assert(l1 == pre + key_name(k1));
    assert(l2 == pre + key_name(k2));
    if l1 == l2 {
        assert(key_name(k1) =~= l1.skip(pre.len() as int));
        assert(key_name(k2) =~= l2.skip(pre.len() as int));
        let n1 = key_name(k1);
        let n2 = key_name(k2);
        assert(n1 == n2);
        if k1 != k2 {
            assert(n1.len() != n2.len() || n1[0] != n2[0] || n1[5] != n2[5]);
        }
    }
}

} // verus!

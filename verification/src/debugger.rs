//! The interactive step debugger: what a typed line asks for, and how the
//! screen is drawn in a box.
use crate::number::{parse_unsigned, parse_unsigned_chars};
use crate::runner::{chars_within, utf8_len};
use crate::text::{
    chars_eq, chars_of, lines, split_lines, string_of, trim, trim_chars, trim_end, trim_start, vec_of_range,
    views,
};
use vstd::prelude::*;

verus! {

/// What a line typed at the debugger prompt asks for.
#[derive(Debug)]
pub enum DebuggerInput {
    /// Nothing was typed.
    Empty,
    /// `q` or `quit`.
    Quit,
    /// `s` or `screen`: show the screen.
    Screen,
    /// `w` or `write`: write the text (with a line break) into the session;
    /// without text, show the usage.
    Write { text: Option<String> },
    /// `r` or `raw`: show the raw bytes.
    Raw,
    /// `h` or `history`: show that many snapshots.
    History { count: usize },
    /// `d` or `delay`: wait that many milliseconds.
    Delay { ms: u64 },
    /// `a` or `analyze`: analyze the screen.
    Analyze,
    /// `help`.
    Help,
    /// Any other command word.
    Unknown { command: String },
}

/// An input with its texts as character sequences.
pub enum DebuggerInputView {
    Empty,
    Quit,
    Screen,
    Write { text: Option<Seq<char>> },
    Raw,
    History { count: int },
    Delay { ms: int },
    Analyze,
    Help,
    Unknown { command: Seq<char> },
}

impl View for DebuggerInput {
    type V = DebuggerInputView;

    open spec fn view(&self) -> DebuggerInputView {
        match self {
            DebuggerInput::Empty => DebuggerInputView::Empty,
            DebuggerInput::Quit => DebuggerInputView::Quit,
            DebuggerInput::Screen => DebuggerInputView::Screen,
            DebuggerInput::Write { text } => DebuggerInputView::Write {
                text: match text {
                    Some(t) => Some(t@),
                    None => None,
                },
            },
            DebuggerInput::Raw => DebuggerInputView::Raw,
            DebuggerInput::History { count } => DebuggerInputView::History { count: *count as int },
            DebuggerInput::Delay { ms } => DebuggerInputView::Delay { ms: *ms as int },
            DebuggerInput::Analyze => DebuggerInputView::Analyze,
            DebuggerInput::Help => DebuggerInputView::Help,
            DebuggerInput::Unknown { command } => DebuggerInputView::Unknown { command: command@ },
        }
    }
}

/// Where the first space of `t` is (its length when it has none).
pub open spec fn first_space(t: Seq<char>) -> nat
    decreases t.len(),
{
    if t.len() == 0 || t[0] == ' ' {
        0
    } else {
        1 + first_space(t.drop_first())
    }
}

/// The command word: what comes before the first space.
pub open spec fn command_word(t: Seq<char>) -> Seq<char> {
    t.take(first_space(t) as int)
}

/// The argument: what comes after the first space, if there is one.
pub open spec fn command_arg(t: Seq<char>) -> Option<Seq<char>> {
    let k = first_space(t);
    if k < t.len() {
        Some(t.skip((k + 1) as int))
    } else {
        None
    }
}

/// A number argument, or the default when it is missing or not a number.
pub open spec fn number_or(arg: Option<Seq<char>>, max: int, default: int) -> int {
    match arg {
        Some(a) => match parse_unsigned(a, 10, max) {
            Some(n) => n,
            None => default,
        },
        None => default,
    }
}

/// What the typed line asks for: it is trimmed and split at its first
/// space into a command word and an argument; `h` takes a count (5 by
/// default) and `d` milliseconds (1000 by default).
pub open spec fn debugger_input(line: Seq<char>) -> DebuggerInputView {
    let t = trim(line);
    let cmd = command_word(t);
    let arg = command_arg(t);
    if t.len() == 0 {
        DebuggerInputView::Empty
    } else if cmd == seq!['q'] || cmd == seq!['q', 'u', 'i', 't'] {
        DebuggerInputView::Quit
    } else if cmd == seq!['s'] || cmd == seq!['s', 'c', 'r', 'e', 'e', 'n'] {
        DebuggerInputView::Screen
    } else if cmd == seq!['w'] || cmd == seq!['w', 'r', 'i', 't', 'e'] {
        DebuggerInputView::Write { text: arg }
    } else if cmd == seq!['r'] || cmd == seq!['r', 'a', 'w'] {
        DebuggerInputView::Raw
    } else if cmd == seq!['h'] || cmd == seq!['h', 'i', 's', 't', 'o', 'r', 'y'] {
        DebuggerInputView::History { count: number_or(arg, usize::MAX as int, 5) }
    } else if cmd == seq!['d'] || cmd == seq!['d', 'e', 'l', 'a', 'y'] {
        DebuggerInputView::Delay { ms: number_or(arg, u64::MAX as int, 1000) }
    } else if cmd == seq!['a'] || cmd == seq!['a', 'n', 'a', 'l', 'y', 'z', 'e'] {
        DebuggerInputView::Analyze
    } else if cmd == seq!['h', 'e', 'l', 'p'] {
        DebuggerInputView::Help
    } else {
        DebuggerInputView::Unknown { command: cmd }
    }
}

/// A position before which there is no space, and at which the text ends
/// or has a space, is the first space.
proof fn lemma_first_space(t: Seq<char>, i: int)
    requires
        0 <= i <= t.len(),
        forall|j: int| 0 <= j < i ==> t[j] != ' ',
        i == t.len() || t[i] == ' ',
    ensures
        first_space(t) == i,
    decreases i,
{
    if i > 0 {
        lemma_first_space(t.drop_first(), i - 1);
    }
}

/// Whether the characters are the one-character word `c`.
fn is_letter(cmd: &[char], c: char) -> (r: bool)
    ensures
        r == (cmd@ == seq![c]),
{
    if cmd.len() == 1 && cmd[0] == c {
        assert(cmd@ =~= seq![c]);
        true
    } else {
        false
    }
}

/// A number argument, or the default.
fn number_arg(arg: &Option<Vec<char>>, max: u64, default: u64) -> (r: u64)
    requires
        default <= max,
    ensures
        r as int == number_or(
            match arg {
                Some(a) => Some(a@),
                None => None,
            },
            max as int,
            default as int,
        ),
        r <= max,
{
    match arg {
        Some(a) => match parse_unsigned_chars(a.as_slice(), 10, max) {
            Some(n) => n,
            None => default,
        },
        None => default,
    }
}

/// Reads a line typed at the debugger prompt.
pub fn parse_debugger_input(line: &str) -> (r: DebuggerInput)
    ensures
        r@ == debugger_input(line@),
{
    let v = chars_of(line);
    let t = trim_chars(v.as_slice());
    if t.len() == 0 {
        return DebuggerInput::Empty;
    }
    let mut k: usize = 0;
    while k < t.len() && t[k] != ' '
        invariant
            k <= t@.len(),
            forall|j: int| 0 <= j < k ==> t@[j] != ' ',
        decreases t@.len() - k,
    {
        k += 1;
    }
    proof {
        lemma_first_space(t@, k as int);
    }
    let cmd = vec_of_range(t.as_slice(), 0, k);
    assert(cmd@ =~= command_word(t@));
    let arg: Option<Vec<char>> = if k < t.len() {
        let a = vec_of_range(t.as_slice(), k + 1, t.len());
        assert(a@ =~= t@.skip(k + 1));
        Some(a)
    } else {
        None
    };
    let ghost argv = match &arg {
        Some(a) => Some(a@),
        None => None::<Seq<char>>,
    };
    assert(argv == command_arg(t@));
    let c = cmd.as_slice();
    if is_letter(c, 'q') || chars_eq(c, &['q', 'u', 'i', 't']) {
        DebuggerInput::Quit
    } else if is_letter(c, 's') || chars_eq(c, &['s', 'c', 'r', 'e', 'e', 'n']) {
        DebuggerInput::Screen
    } else if is_letter(c, 'w') || chars_eq(c, &['w', 'r', 'i', 't', 'e']) {
        let text = match arg {
            Some(a) => Some(string_of(a.as_slice())),
            None => None,
        };
        DebuggerInput::Write { text }
    } else if is_letter(c, 'r') || chars_eq(c, &['r', 'a', 'w']) {
        DebuggerInput::Raw
    } else if is_letter(c, 'h') || chars_eq(c, &['h', 'i', 's', 't', 'o', 'r', 'y']) {
        let n = number_arg(&arg, usize::MAX as u64, 5);
        DebuggerInput::History { count: n as usize }
    } else if is_letter(c, 'd') || chars_eq(c, &['d', 'e', 'l', 'a', 'y']) {
        DebuggerInput::Delay { ms: number_arg(&arg, u64::MAX, 1000) }
    } else if is_letter(c, 'a') || chars_eq(c, &['a', 'n', 'a', 'l', 'y', 'z', 'e']) {
        DebuggerInput::Analyze
    } else if chars_eq(c, &['h', 'e', 'l', 'p']) {
        DebuggerInput::Help
    } else {
        DebuggerInput::Unknown { command: string_of(c) }
    }
}

// ───────────────────────── the screen box ─────────────────────────

/// The text of a screen row inside the box: over 58 bytes, its first 55
/// bytes and `...`; then spaces up to 58 characters.
pub open spec fn boxed_text(line: Seq<char>) -> Seq<char> {
    let cut = if utf8_len(line) > 58 {
        line.take(chars_within(line, 55) as int) + seq!['.', '.', '.']
    } else {
        line
    };
    cut + Seq::new((if cut.len() < 58 { 58 - cut.len() } else { 0 }) as nat, |i: int| ' ')
}

/// Cutting the row after 55 bytes would split a character.
pub open spec fn box_cut_splits(line: Seq<char>) -> bool {
    utf8_len(line) > 58 && utf8_len(line.take(chars_within(line, 55) as int)) != 55
}

/// A row of the box: the text between two bars, coloured cyan.
pub open spec fn box_row(line: Seq<char>) -> Seq<char> {
    seq!['\u{1b}', '[', '3', '6', 'm', '\u{2502}'] + boxed_text(line) + seq![
        '\u{2502}',
        '\u{1b}',
        '[',
        '0',
        'm',
    ]
}

/// No line of the screen would be cut inside a character.
pub open spec fn screen_boxes_cleanly(screen: Seq<char>) -> bool {
    forall|i: int| 0 <= i < lines(screen).len() ==> !box_cut_splits(#[trigger] lines(screen)[i])
}

/// A text has no more characters than bytes.
proof fn lemma_len_le_utf8_len(s: Seq<char>)
    ensures
        s.len() <= utf8_len(s),
    decreases s.len(),
{
    if s.len() > 0 {
        lemma_len_le_utf8_len(s.drop_first());
    }
}

/// Whether every line of the screen can be boxed without cutting a
/// character.
pub fn screen_boxes_cleanly_exec(screen: &str) -> (b: bool)
    ensures
        b == screen_boxes_cleanly(screen@),
{
    let v = chars_of(screen);
    let ls = split_lines(v.as_slice());
    let ghost all = views(ls@);
    assert(all == lines(screen@));
    let mut i: usize = 0;
    while i < ls.len()
        invariant
            i <= ls@.len(),
            all == views(ls@),
            all == lines(screen@),
            forall|j: int| 0 <= j < i ==> !box_cut_splits(#[trigger] all[j]),
        decreases ls@.len() - i,
    {
        assert(all[i as int] == ls@[i as int]@);
        let l = ls[i].as_slice();
        if crate::runner::longer_than(l, 58) && !crate::runner::fills_budget(l, 55) {
            assert(box_cut_splits(all[i as int]));
            return false;
        }
        i += 1;
    }
    true
}

/// The row of the box that shows one line.
fn box_row_exec(line: &[char]) -> (r: Vec<char>)
    requires
        !box_cut_splits(line@),
    ensures
        r@ == box_row(line@),
{
    let mut out: Vec<char> = Vec::new();
    crate::runner::append(&mut out, &['\u{1b}', '[', '3', '6', 'm', '\u{2502}']);
    let ghost start = out@;
    let k = crate::runner::chars_within_exec(line, 58);
    let ghost cut: Seq<char>;
    if k < line.len() {
        proof {
            assert(line@ =~= line@.take(k as int) + line@.skip(k as int));
            crate::runner::lemma_utf8_len_concat(line@.take(k as int), line@.skip(k as int));
            assert(crate::runner::utf8_len(line@.skip(k as int)) >= crate::runner::utf8_width(line@[k as int])) by {
                assert(line@.skip(k as int)[0] == line@[k as int]);
            }
        }
        let j = crate::runner::chars_within_exec(line, 55);
        crate::text::extend_range(&mut out, line, 0, j);
        out.push('.');
        out.push('.');
        out.push('.');
        proof {
            cut = line@.take(j as int) + seq!['.', '.', '.'];
            assert(out@ =~= start + cut);
            lemma_len_le_utf8_len(line@.take(j as int));
        }
    } else {
        proof {
            assert(line@.take(k as int) =~= line@);
        }
        crate::text::extend_range(&mut out, line, 0, line.len());
        proof {
            cut = line@;
            assert(out@ =~= start + cut);
            lemma_len_le_utf8_len(line@);
        }
    }
    assert(cut.len() == out@.len() - 6);
    assert(cut.len() <= 58);
    let ghost pad_len: nat = (if cut.len() < 58 { 58 - cut.len() } else { 0 }) as nat;
    while out.len() < 64
        invariant
            out@.len() >= 6,
            out@.take(6) == start,
            out@.skip(6).len() >= cut.len(),
            out@.skip(6).take(cut.len() as int) == cut,
            out@.skip(6).len() <= cut.len() + pad_len,
            forall|i: int| cut.len() <= i < out@.skip(6).len() ==> out@.skip(6)[i] == ' ',
            start.len() == 6,
            pad_len == (if cut.len() < 58 { 58 - cut.len() } else { 0 }),
        decreases 64 - out@.len(),
    {
        let ghost before = out@;
        out.push(' ');
        assert(out@.skip(6) =~= before.skip(6).push(' '));
        assert(out@.take(6) =~= before.take(6));
        assert(out@.skip(6).take(cut.len() as int) =~= before.skip(6).take(cut.len() as int));
    }
    assert(out@.skip(6) =~= boxed_text(line@));
    assert(out@ =~= start + out@.skip(6));
    crate::runner::append(&mut out, &['\u{2502}', '\u{1b}', '[', '0', 'm']);
    out
}

/// The rows of the box that shows the screen, one for each of its lines.
pub fn boxed_screen(screen: &str) -> (r: Vec<String>)
    requires
        screen_boxes_cleanly(screen@),
    ensures
        r@.len() == lines(screen@).len(),
        forall|i: int| 0 <= i < r@.len() ==> #[trigger] r@[i]@ == box_row(lines(screen@)[i]),
{
    let v = chars_of(screen);
    let ls = split_lines(v.as_slice());
    let ghost all = views(ls@);
    let mut rows: Vec<String> = Vec::new();
    let mut i: usize = 0;
    while i < ls.len()
        invariant
            i <= ls@.len(),
            all == views(ls@),
            all == lines(screen@),
            screen_boxes_cleanly(screen@),
            rows@.len() == i,
            forall|k: int| 0 <= k < i ==> #[trigger] rows@[k]@ == box_row(all[k]),
        decreases ls@.len() - i,
    {
        assert(all[i as int] == ls@[i as int]@);
        let row = box_row_exec(ls[i].as_slice());
        rows.push(string_of(row.as_slice()));
        i += 1;
    }
    rows
}

/// The start of the raw bytes that the debugger shows: their first 200
/// bytes.
pub open spec fn raw_preview_spec(raw_b64: Seq<char>) -> Seq<char> {
    if utf8_len(raw_b64) > 200 {
        raw_b64.take(chars_within(raw_b64, 200) as int)
    } else {
        raw_b64
    }
}

/// Whether the first 200 bytes of the text end on a character boundary.
pub fn preview_cuts_cleanly(raw_b64: &str) -> (b: bool)
    ensures
        b == (utf8_len(raw_b64@) > 200 ==> utf8_len(
            raw_b64@.take(chars_within(raw_b64@, 200) as int),
        ) == 200),
{
    let v = chars_of(raw_b64);
    !crate::runner::longer_than(v.as_slice(), 200) || crate::runner::fills_budget(v.as_slice(), 200)
}

/// The first 200 bytes of the raw bytes in base64.
pub fn raw_preview(raw_b64: &str) -> (r: String)
    requires
        utf8_len(raw_b64@) > 200 ==> utf8_len(raw_b64@.take(chars_within(raw_b64@, 200) as int))
            == 200,
    ensures
        r@ == raw_preview_spec(raw_b64@),
{
    let v = chars_of(raw_b64);
    let k = crate::runner::chars_within_exec(v.as_slice(), 200);
    if k < v.len() {
        proof {
            assert(v@ =~= v@.take(k as int) + v@.skip(k as int));
            crate::runner::lemma_utf8_len_concat(v@.take(k as int), v@.skip(k as int));
            assert(crate::runner::utf8_len(v@.skip(k as int)) >= crate::runner::utf8_width(v@[k as int])) by {
                assert(v@.skip(k as int)[0] == v@[k as int]);
            }
        }
        crate::text::string_of_range(v.as_slice(), 0, k)
    } else {
        assert(v@.take(k as int) =~= v@);
        assert(v@.subrange(0, k as int) =~= v@);
        crate::text::string_of_range(v.as_slice(), 0, k)
    }
}


// ───────────────────────── laws ─────────────────────────

/// Trailing whitespace trimmed off a text leaves a prefix of it.
proof fn lemma_trim_end_prefix(s: Seq<char>)
    ensures
        trim_end(s).len() <= s.len(),
        trim_end(s) == s.take(trim_end(s).len() as int),
    decreases s.len(),
{
    if s.len() > 0 && crate::text::is_ws(s.last()) {
        lemma_trim_end_prefix(s.drop_last());
        assert(s.drop_last().take(trim_end(s).len() as int) =~= s.take(trim_end(s).len() as int));
    } else {
        assert(s.take(s.len() as int) =~= s);
    }
}

/// A word with no whitespace, then text: trimming keeps the word and trims
/// the end of the text.
proof fn lemma_trim_end_after_word(w: Seq<char>, s: Seq<char>)
    requires
        w.len() > 0,
        forall|i: int| 0 <= i < w.len() ==> !crate::text::is_ws(#[trigger] w[i]),
    ensures
        trim_end(w + s) == w + trim_end(s),
    decreases s.len(),
{
    if s.len() == 0 {
        assert(w + s =~= w);
        assert(w.last() == w[w.len() - 1]);
    } else if crate::text::is_ws(s.last()) {
        assert((w + s).drop_last() =~= w + s.drop_last());
        lemma_trim_end_after_word(w, s.drop_last());
    } else {
        assert((w + s).last() == s.last());
    }
}

/// The first space of a word (with none) followed by text that is empty or
/// starts with a space is where the word ends.
proof fn lemma_first_space_after_word(w: Seq<char>, t: Seq<char>)
    requires
        forall|i: int| 0 <= i < w.len() ==> w[i] != ' ',
        t.len() == 0 || t[0] == ' ',
    ensures
        first_space(w + t) == w.len(),
    decreases w.len(),
{
    if w.len() > 0 {
        assert((w + t)[0] == w[0]);
        assert((w + t).drop_first() =~= w.drop_first() + t);
        lemma_first_space_after_word(w.drop_first(), t);
    } else {
        assert(w + t =~= t);
    }
}

/// A command word typed first, then a space and its argument (or nothing):
/// the word is the command, and the argument is the rest with its end
/// trimmed, whatever the word.
proof fn lemma_word_then_rest(w: Seq<char>, s: Seq<char>)
    requires
        w.len() > 0,
        forall|i: int| 0 <= i < w.len() ==> 'a' <= #[trigger] w[i] <= 'z',
        s.len() == 0 || s[0] == ' ',
    ensures
        trim(w + s).len() > 0,
        command_word(trim(w + s)) == w,
        command_arg(trim(w + s)) == (if trim_end(s).len() > 0 {
            Some(trim_end(s).skip(1))
        } else {
            None
        }),
{
    assert(!crate::text::is_ws(w[0]));
    assert((w + s)[0] == w[0]);
    assert(trim_start(w + s) == w + s);
    lemma_trim_end_after_word(w, s);
    let te = trim_end(s);
    lemma_trim_end_prefix(s);
    assert(te.len() == 0 || te[0] == ' ') by {
        if te.len() > 0 {
            assert(te[0] == s.take(te.len() as int)[0]);
        }
    }
    let t = w + te;
    lemma_first_space_after_word(w, te);
    assert(t.take(w.len() as int) =~= w);
    if te.len() > 0 {
        assert(t.skip((w.len() + 1) as int) =~= te.skip(1));
    }
}

/// Each command has a short and a long word, and they mean the same, with
/// or without an argument: `q`/`quit`, `s`/`screen`, `w`/`write`, `r`/`raw`,
/// `h`/`history`, `d`/`delay`, `a`/`analyze`.
pub proof fn lemma_long_words_mean_the_short(s: Seq<char>)
    requires
        s.len() == 0 || s[0] == ' ',
    ensures
        debugger_input(seq!['q'] + s) == debugger_input(seq!['q', 'u', 'i', 't'] + s),
        debugger_input(seq!['s'] + s) == debugger_input(seq!['s', 'c', 'r', 'e', 'e', 'n'] + s),
        debugger_input(seq!['w'] + s) == debugger_input(seq!['w', 'r', 'i', 't', 'e'] + s),
        debugger_input(seq!['r'] + s) == debugger_input(seq!['r', 'a', 'w'] + s),
        debugger_input(seq!['h'] + s) == debugger_input(seq!['h', 'i', 's', 't', 'o', 'r', 'y'] + s),
        debugger_input(seq!['d'] + s) == debugger_input(seq!['d', 'e', 'l', 'a', 'y'] + s),
        debugger_input(seq!['a'] + s) == debugger_input(seq!['a', 'n', 'a', 'l', 'y', 'z', 'e'] + s),
{
    lemma_word_then_rest(seq!['q'], s);
    lemma_word_then_rest(seq!['q', 'u', 'i', 't'], s);
    lemma_word_then_rest(seq!['s'], s);
    lemma_word_then_rest(seq!['s', 'c', 'r', 'e', 'e', 'n'], s);
    lemma_word_then_rest(seq!['w'], s);
    lemma_word_then_rest(seq!['w', 'r', 'i', 't', 'e'], s);
    lemma_word_then_rest(seq!['r'], s);
    lemma_word_then_rest(seq!['r', 'a', 'w'], s);
    lemma_word_then_rest(seq!['h'], s);
    lemma_word_then_rest(seq!['h', 'i', 's', 't', 'o', 'r', 'y'], s);
    lemma_word_then_rest(seq!['d'], s);
    lemma_word_then_rest(seq!['d', 'e', 'l', 'a', 'y'], s);
    lemma_word_then_rest(seq!['a'], s);
    lemma_word_then_rest(seq!['a', 'n', 'a', 'l', 'y', 'z', 'e'], s);
}

} // verus!

//! Captured PTY output: the raw bytes (the most recent 1 MiB) and a VT100
//! screen kept by the `vt100` crate, rendered as plain text.
use crate::encoding::{base64_encode, encode_base64};
use crate::text::{chars_of, is_ws, join_with, string_of, trim_end};
use vstd::prelude::*;

verus! {

/// Maximum raw bytes to retain before pruning the front of the buffer.
pub const MAX_RAW_BYTES: usize = 1048576;

/// The `vt100` crate's terminal parser (no scrollback). Verus sees nothing
/// inside it; `VtScreen` records what it was made with and fed.
#[verifier::external_body]
pub struct VtParser {
    parser: vt100::Parser,
}

/// A VT100 screen: the parser, with the size it was made with and the bytes
/// fed to it since, as its wrappers below say.
pub struct VtScreen {
    parser: VtParser,
    size: Ghost<(u16, u16)>,
    fed: Ghost<Seq<u8>>,
}

/// What `vt100::Screen::cell(row, col)` of a parser made with `rows` rows
/// and `cols` columns (no scrollback) holds, as `Cell::contents`, after it
/// was fed the bytes `fed`. The parser is a state machine that carries its
/// state from one `process` call to the next, so what it holds depends on
/// the bytes fed, not on how they were cut into calls.
pub uninterp spec fn vt_cell_text(rows: u16, cols: u16, fed: Seq<u8>, row: u16, col: u16) -> Seq<
    char,
>;

/// The cells of a `rows` by `cols` screen fed `fed`, row by row.
pub open spec fn vt_grid(rows: u16, cols: u16, fed: Seq<u8>) -> Seq<Seq<Option<Seq<char>>>> {
    Seq::new(
        rows as nat,
        |r: int| Seq::new(cols as nat, |c: int| Some(vt_cell_text(rows, cols, fed, r as u16, c as u16))),
    )
}

/// `vt100::Parser::new` with the size and no scrollback: fed nothing yet,
/// every cell empty (`Cell::new` holds no text).
#[verifier::external_body]
fn vt_new(rows: u16, cols: u16) -> (s: VtScreen)
    requires
        rows > 0,
        cols > 0,
    ensures
        s.size@ == (rows, cols),
        s.fed@ == Seq::<u8>::empty(),
        forall|r: u16, c: u16|
            r < rows && c < cols ==> #[trigger] vt_cell_text(s.size@.0, s.size@.1, s.fed@, r, c)
                == Seq::<char>::empty(),
{
    VtScreen {
        parser: VtParser {
            parser: vt100::Parser::new(
                core::num::NonZeroU16::new(rows).unwrap(),
                core::num::NonZeroU16::new(cols).unwrap(),
                0,
            ),
        },
        size: Ghost((rows, cols)),
        fed: Ghost(Seq::empty()),
    }
}

/// `vt100::Parser::process`: feeds the bytes; the size stays (only
/// `set_size` changes it).
#[verifier::external_body]
fn vt_process(screen: &mut VtScreen, data: &[u8])
    ensures
        final(screen).size@ == old(screen).size@,
        final(screen).fed@ == old(screen).fed@ + data@,
{
    screen.parser.parser.process(data);
}

/// `vt100::Screen::size` of the parser's screen: the size it was made with.
#[verifier::external_body]
fn vt_size(screen: &VtScreen) -> (size: (u16, u16))
    ensures
        size == screen.size@,
{
    let (rows, cols) = screen.parser.parser.screen().size();
    (rows.get(), cols.get())
}

/// `vt100::Screen::cell` of the parser's screen, as the cell's text
/// (`Cell::contents`): inside the screen there is a cell, and its text is
/// named by `vt_cell_text`.
#[verifier::external_body]
fn vt_cell(screen: &VtScreen, row: u16, col: u16) -> (r: Option<String>)
    ensures
        row < screen.size@.0 && col < screen.size@.1 ==> r is Some,
        row < screen.size@.0 && col < screen.size@.1 ==> r.unwrap()@ == vt_cell_text(
            screen.size@.0,
            screen.size@.1,
            screen.fed@,
            row,
            col,
        ),
{
    screen.parser.parser.screen().cell(row, col).map(|c| c.contents().to_string())
}

/// Holds captured PTY output.
///
/// `raw` stores the byte stream for forensic access; trimmed when it exceeds
/// 1 MiB. `parser` maintains a VT100 screen state so callers can retrieve the
/// rendered "current screen" at any time.
pub struct OutputBuffer {
    raw: Vec<u8>,
    parser: VtScreen,
}

impl View for OutputBuffer {
    type V = Seq<u8>;

    /// The raw bytes retained.
    closed spec fn view(&self) -> Seq<u8> {
        self.raw@
    }
}

/// The last `max` bytes of `s`, or all of them when there are fewer.
pub open spec fn keep_last(s: Seq<u8>, max: int) -> Seq<u8> {
    if s.len() > max {
        s.skip(s.len() - max)
    } else {
        s
    }
}

/// A cell as text: its contents, or a space when it has none.
pub open spec fn cell_text(c: Option<Seq<char>>) -> Seq<char> {
    match c {
        Some(s) => if s.len() == 0 {
            seq![' ']
        } else {
            s
        },
        None => seq![' '],
    }
}

/// The texts of a row's cells, one after another.
pub open spec fn cells_text(cells: Seq<Option<Seq<char>>>) -> Seq<char>
    decreases cells.len(),
{
    if cells.len() == 0 {
        seq![]
    } else {
        cells_text(cells.drop_last()) + cell_text(cells.last())
    }
}

/// A row as a line: its cells' texts without trailing whitespace.
pub open spec fn row_text(cells: Seq<Option<Seq<char>>>) -> Seq<char> {
    trim_end(cells_text(cells))
}

/// The lines of the rows.
pub open spec fn row_lines(grid: Seq<Seq<Option<Seq<char>>>>) -> Seq<Seq<char>> {
    grid.map_values(|r: Seq<Option<Seq<char>>>| row_text(r))
}

/// The lines without the empty ones at the end.
pub open spec fn drop_trailing_empty(lines: Seq<Seq<char>>) -> Seq<Seq<char>>
    decreases lines.len(),
{
    if lines.len() > 0 && lines.last().len() == 0 {
        drop_trailing_empty(lines.drop_last())
    } else {
        lines
    }
}

/// The plain text of a screen whose cells are `grid` (rows of cells): one
/// line per row, trailing whitespace trimmed, trailing empty lines dropped,
/// joined by line feeds.
pub open spec fn screen_text(grid: Seq<Seq<Option<Seq<char>>>>) -> Seq<char> {
    join_with(drop_trailing_empty(row_lines(grid)), seq!['\n'])
}

/// Trimmed text does not end in whitespace.
proof fn lemma_trim_end_clean(s: Seq<char>)
    ensures
        trim_end(s).len() == 0 || !is_ws(trim_end(s).last()),
    decreases s.len(),
{
    if s.len() > 0 && is_ws(s.last()) {
        lemma_trim_end_clean(s.drop_last());
    }
}

/// Dropping the trailing empty lines keeps a prefix of the lines whose last
/// line (if any) is not empty.
proof fn lemma_drop_trailing_empty_shape(ls: Seq<Seq<char>>)
    ensures
        drop_trailing_empty(ls).len() <= ls.len(),
        drop_trailing_empty(ls) == ls.take(drop_trailing_empty(ls).len() as int),
        drop_trailing_empty(ls).len() == 0 || drop_trailing_empty(ls).last().len() > 0,
    decreases ls.len(),
{
    if ls.len() > 0 && ls.last().len() == 0 {
        lemma_drop_trailing_empty_shape(ls.drop_last());
        let n = drop_trailing_empty(ls.drop_last()).len() as int;
        assert(ls.drop_last().take(n) =~= ls.take(n));
    } else {
        assert(ls.take(ls.len() as int) =~= ls);
    }
}

/// The text of a screen never ends in whitespace or a line break: each
/// row's trailing whitespace is trimmed and the trailing empty rows are
/// dropped.
pub proof fn lemma_screen_text_ends_clean(grid: Seq<Seq<Option<Seq<char>>>>)
    ensures
        screen_text(grid).len() == 0 || !is_ws(screen_text(grid).last()),
{
    let ls = row_lines(grid);
    let d = drop_trailing_empty(ls);
    lemma_drop_trailing_empty_shape(ls);
    if d.len() > 0 {
        let n = d.len() as int;
        assert(d.last() == ls[n - 1]);
        assert(ls[n - 1] == row_text(grid[n - 1]));
        lemma_trim_end_clean(cells_text(grid[n - 1]));
        let t = join_with(d, seq!['\n']);
        if n > 1 {
            assert(t == join_with(d.drop_last(), seq!['\n']) + seq!['\n'] + d.last());
        }
        assert(t.last() == d.last().last());
    }
}

/// The lines of a screen's text, before they are joined by line feeds: at
/// most one per row of cells, none ending in whitespace (so none in a
/// space), and the last (if any) not empty.
pub proof fn lemma_screen_lines(grid: Seq<Seq<Option<Seq<char>>>>)
    ensures
        ({
            let ls = drop_trailing_empty(row_lines(grid));
            &&& screen_text(grid) == join_with(ls, seq!['\n'])
            &&& ls.len() <= grid.len()
            &&& forall|i: int| 0 <= i < ls.len() ==> (#[trigger] ls[i]).len() == 0 || !is_ws(ls[i].last())
            &&& ls.len() == 0 || ls.last().len() > 0
        }),
{
    let all = row_lines(grid);
    let ls = drop_trailing_empty(all);
    lemma_drop_trailing_empty_shape(all);
    assert forall|i: int| 0 <= i < ls.len() implies (#[trigger] ls[i]).len() == 0 || !is_ws(ls[i].last()) by {
        assert(ls[i] == all[i]);
        assert(all[i] == row_text(grid[i]));
        lemma_trim_end_clean(cells_text(grid[i]));
    }
}

/// A screen of `rows` rows has `rows` rows of cells, whatever it was fed.
pub proof fn lemma_vt_grid_rows(rows: u16, cols: u16, fed: Seq<u8>)
    ensures
        vt_grid(rows, cols, fed).len() == rows,
        forall|r: int| 0 <= r < rows ==> (#[trigger] vt_grid(rows, cols, fed)[r]).len() == cols,
{
}

/// The texts of a row of cells.
pub open spec fn cell_views(row: Seq<Option<String>>) -> Seq<Option<Seq<char>>> {
    row.map_values(
        |c: Option<String>|
            match c {
                Some(s) => Some(s@),
                None => None,
            },
    )
}

/// The texts of a grid of cells.
pub open spec fn grid_views(grid: Seq<Vec<Option<String>>>) -> Seq<Seq<Option<Seq<char>>>> {
    grid.map_values(|r: Vec<Option<String>>| cell_views(r@))
}

/// The text of a row of cells.
pub fn render_row(cells: &Vec<Option<String>>) -> (r: Vec<char>)
    ensures
        r@ == row_text(cell_views(cells@)),
{
    let ghost cs = cell_views(cells@);
    let mut line: Vec<char> = Vec::new();
    let mut i: usize = 0;
    assert(cs.take(0) =~= Seq::<Option<Seq<char>>>::empty());
    while i < cells.len()
        invariant
            i <= cells@.len(),
            cs == cell_views(cells@),
            line@ == cells_text(cs.take(i as int)),
        decreases cells@.len() - i,
    {
        assert(cs.take(i + 1).drop_last() =~= cs.take(i as int));
        match &cells[i] {
            Some(s) => {
                let t = chars_of(s.as_str());
                if t.len() == 0 {
                    line.push(' ');
                } else {
                    crate::runner::append(&mut line, t.as_slice());
                }
            },
            None => {
                line.push(' ');
            },
        }
        assert(line@ =~= cells_text(cs.take(i + 1)));
        i += 1;
    }
    assert(cs.take(i as int) =~= cs);
    let ghost whole = line@;
    let mut end = line.len();
    assert(whole.take(end as int) =~= whole);
    while end > 0 && crate::text::is_whitespace(line[end - 1])
        invariant
            end <= line@.len(),
            line@ == whole,
            trim_end(whole.take(end as int)) == trim_end(whole),
        decreases end,
    {
        assert(whole.take(end as int).drop_last() =~= whole.take(end - 1));
        end -= 1;
    }
    assert(trim_end(whole.take(end as int)) == whole.take(end as int));
    crate::text::vec_of_range(line.as_slice(), 0, end)
}

/// The plain text of a screen whose cells are `grid`.
pub fn render_screen(grid: &Vec<Vec<Option<String>>>) -> (r: String)
    ensures
        r@ == screen_text(grid_views(grid@)),
{
    let ghost g = grid_views(grid@);
    let mut lines: Vec<Vec<char>> = Vec::new();
    let mut i: usize = 0;
    while i < grid.len()
        invariant
            i <= grid@.len(),
            g == grid_views(grid@),
            crate::text::views(lines@) == row_lines(g).take(i as int),
        decreases grid@.len() - i,
    {
        let line = render_row(&grid[i]);
        let ghost before = crate::text::views(lines@);
        lines.push(line);
        assert(crate::text::views(lines@) =~= before.push(line@));
        assert(row_lines(g).take(i + 1) =~= row_lines(g).take(i as int).push(row_lines(g)[i as int]));
        i += 1;
    }
    assert(row_lines(g).take(i as int) =~= row_lines(g));
    let ghost all = row_lines(g);
    let mut n = lines.len();
    while n > 0 && lines[n - 1].len() == 0
        invariant
            n <= lines@.len(),
            crate::text::views(lines@) == all,
            drop_trailing_empty(all.take(n as int)) == drop_trailing_empty(all),
        decreases n,
    {
        assert(all.take(n as int).drop_last() =~= all.take(n - 1));
        assert(all.take(n as int).last() == lines@[n - 1]@);
        n -= 1;
    }
    proof {
        if n > 0 {
            assert(all.take(n as int).last() == lines@[n - 1]@);
        }
    }
    assert(drop_trailing_empty(all.take(n as int)) == all.take(n as int));
    let mut out: Vec<char> = Vec::new();
    let mut k: usize = 0;
    while k < n
        invariant
            k <= n <= lines@.len(),
            crate::text::views(lines@) == all,
            out@ == join_with(all.take(k as int), seq!['\n']),
        decreases n - k,
    {
        let ghost prev = all.take(k as int);
        assert(all.take(k + 1).drop_last() =~= prev);
        assert(all.take(k + 1).last() == lines@[k as int]@);
        if k > 0 {
            out.push('\n');
        }
        crate::runner::append(&mut out, lines[k].as_slice());
        proof {
            if k > 0 {
                assert(out@ =~= join_with(prev, seq!['\n']) + seq!['\n'] + lines@[k as int]@);
            } else {
                assert(out@ =~= lines@[k as int]@);
            }
        }
        k += 1;
    }
    string_of(out.as_slice())
}

/// A screen whose cells all hold no text renders as no text at all.
proof fn lemma_blank_screen(rows: u16, cols: u16)
    requires
        forall|r: u16, c: u16|
            r < rows && c < cols ==> #[trigger] vt_cell_text(rows, cols, Seq::<u8>::empty(), r, c)
                == Seq::<char>::empty(),
    ensures
        screen_text(vt_grid(rows, cols, Seq::<u8>::empty())) == Seq::<char>::empty(),
{
    let g = vt_grid(rows, cols, Seq::<u8>::empty());
    let ls = row_lines(g);
    assert forall|i: int| 0 <= i < ls.len() implies #[trigger] ls[i].len() == 0 by {
        let row = g[i];
        assert forall|j: int| 0 <= j <= row.len() implies cells_text(#[trigger] row.take(j)) == Seq::new(
            j as nat,
            |k: int| ' ',
        ) by {
            lemma_blank_cells_text(row, j, rows, cols, i);
        }
        assert(row.take(row.len() as int) =~= row);
        lemma_trim_end_spaces(row.len() as nat);
    }
    lemma_drop_all_empty(ls);
}

/// The cells of a blank row read as spaces.
proof fn lemma_blank_cells_text(row: Seq<Option<Seq<char>>>, j: int, rows: u16, cols: u16, i: int)
    requires
        0 <= i < rows,
        row == vt_grid(rows, cols, Seq::<u8>::empty())[i],
        0 <= j <= row.len(),
        forall|r: u16, c: u16|
            r < rows && c < cols ==> #[trigger] vt_cell_text(rows, cols, Seq::<u8>::empty(), r, c)
                == Seq::<char>::empty(),
    ensures
        cells_text(row.take(j)) == Seq::new(j as nat, |k: int| ' '),
    decreases j,
{
    if j > 0 {
        lemma_blank_cells_text(row, j - 1, rows, cols, i);
        assert(row.take(j).drop_last() =~= row.take(j - 1));
        assert(row[j - 1] == Some(vt_cell_text(rows, cols, Seq::<u8>::empty(), i as u16, (j - 1) as u16)));
        assert(vt_cell_text(rows, cols, Seq::<u8>::empty(), i as u16, (j - 1) as u16) == Seq::<char>::empty());
        assert(Seq::new((j - 1) as nat, |k: int| ' ') + seq![' '] =~= Seq::new(j as nat, |k: int| ' '));
    } else {
        assert(row.take(0) =~= Seq::<Option<Seq<char>>>::empty());
        assert(Seq::new(0, |k: int| ' ') =~= Seq::<char>::empty());
    }
}

/// Spaces trim to nothing.
proof fn lemma_trim_end_spaces(n: nat)
    ensures
        trim_end(Seq::new(n, |k: int| ' ')) == Seq::<char>::empty(),
    decreases n,
{
    if n > 0 {
        assert(Seq::new(n, |k: int| ' ').drop_last() =~= Seq::new((n - 1) as nat, |k: int| ' '));
        lemma_trim_end_spaces((n - 1) as nat);
    } else {
        assert(Seq::new(0, |k: int| ' ') =~= Seq::<char>::empty());
    }
}

/// Lines that are all empty drop to none.
proof fn lemma_drop_all_empty(ls: Seq<Seq<char>>)
    requires
        forall|i: int| 0 <= i < ls.len() ==> #[trigger] ls[i].len() == 0,
    ensures
        drop_trailing_empty(ls) == Seq::<Seq<char>>::empty(),
        join_with(drop_trailing_empty(ls), seq!['\n']) == Seq::<char>::empty(),
    decreases ls.len(),
{
    if ls.len() > 0 {
        assert(ls.last().len() == 0);
        lemma_drop_all_empty(ls.drop_last());
    } else {
        assert(ls =~= Seq::<Seq<char>>::empty());
    }
}

impl OutputBuffer {
    /// The size (rows, columns) that the screen's parser was made with.
    pub closed spec fn screen_size(&self) -> (u16, u16) {
        self.parser.size@
    }

    /// The bytes fed to the screen's parser since it was made (with
    /// `screen_size`).
    pub closed spec fn screen_input(&self) -> Seq<u8> {
        self.parser.fed@
    }

    /// The buffer holds at most `MAX_RAW_BYTES` raw bytes.
    pub open spec fn wf(&self) -> bool {
        self@.len() <= MAX_RAW_BYTES
    }

    /// Whether the raw bytes are within `MAX_RAW_BYTES` (as `new` and
    /// `push` leave them).
    pub fn within_limit(&self) -> (b: bool)
        ensures
            b == self.wf(),
    {
        self.raw.len() <= MAX_RAW_BYTES
    }

    /// An empty buffer whose screen has the given size.
    pub fn new(rows: u16, cols: u16) -> (r: Self)
        requires
            rows > 0,
            cols > 0,
        ensures
            r@ == Seq::<u8>::empty(),
            r.wf(),
            r.screen_size() == (rows, cols),
            r.screen_input() == Seq::<u8>::empty(),
            screen_text(vt_grid(r.screen_size().0, r.screen_size().1, r.screen_input()))
                == Seq::<char>::empty(),
    {
        let parser = vt_new(rows, cols);
        proof {
            assert forall|r: u16, c: u16| r < rows && c < cols implies #[trigger] vt_cell_text(
                rows,
                cols,
                Seq::<u8>::empty(),
                r,
                c,
            ) == Seq::<char>::empty() by {
                assert(vt_cell_text(parser.size@.0, parser.size@.1, parser.fed@, r, c)
                    == Seq::<char>::empty());
            }
            lemma_blank_screen(rows, cols);
        }
        OutputBuffer { raw: Vec::new(), parser }
    }

    /// Push new PTY bytes into both the raw buffer and the VT100 parser; the
    /// raw buffer keeps the most recent `MAX_RAW_BYTES`.
    pub fn push(&mut self, data: &[u8])
        ensures
            final(self)@ == keep_last(old(self)@ + data@, MAX_RAW_BYTES as int),
            final(self).wf(),
            final(self).screen_size() == old(self).screen_size(),
            final(self).screen_input() == old(self).screen_input() + data@,
    {
        let mut raw: Vec<u8> = Vec::new();
        std::mem::swap(&mut raw, &mut self.raw);
        let ghost before = raw@;
        let mut i: usize = 0;
        while i < data.len()
            invariant
                i <= data@.len(),
                raw@ == before + data@.take(i as int),
            decreases data@.len() - i,
        {
            raw.push(data[i]);
            assert(data@.take(i + 1) =~= data@.take(i as int).push(data@[i as int]));
            i += 1;
        }
        assert(data@.take(i as int) =~= data@);
        vt_process(&mut self.parser, data);
        if raw.len() > MAX_RAW_BYTES {
            let excess = raw.len() - MAX_RAW_BYTES;
            let mut kept: Vec<u8> = Vec::new();
            let mut j = excess;
            while j < raw.len()
                invariant
                    excess <= j <= raw@.len(),
                    kept@ == raw@.subrange(excess as int, j as int),
                decreases raw@.len() - j,
            {
                kept.push(raw[j]);
                assert(raw@.subrange(excess as int, j + 1) =~= raw@.subrange(excess as int, j as int).push(raw@[j as int]));
                j += 1;
            }
            assert(kept@ =~= raw@.skip(excess as int));
            self.raw = kept;
        } else {
            self.raw = raw;
        }
    }

    /// Return raw bytes as a base64-encoded string.
    pub fn raw_b64(&self) -> (s: String)
        requires
            self.wf(),
        ensures
            s@ == base64_encode(self@),
    {
        encode_base64(self.raw.as_slice())
    }

    /// Resize the VT100 screen: a new parser of the new size replays the raw
    /// bytes (ANSI state from before them is lost). The raw bytes stay.
    pub fn resize(&mut self, rows: u16, cols: u16)
        requires
            rows > 0,
            cols > 0,
        ensures
            final(self)@ == old(self)@,
            final(self).screen_size() == (rows, cols),
            final(self).screen_input() == old(self)@,
            vt_grid(final(self).screen_size().0, final(self).screen_size().1, final(self).screen_input())
                == vt_grid(rows, cols, old(self)@),
    {
        let mut parser = vt_new(rows, cols);
        vt_process(&mut parser, self.raw.as_slice());
        self.parser = parser;
    }

    /// Return a plain-text rendering of the current VT100 screen state: each
    /// row a line with trailing whitespace trimmed, trailing empty lines
    /// dropped, rows separated by '\n'. The cells are those of a screen of
    /// `screen_size` fed `screen_input`.
    pub fn screen_contents(&self) -> (s: String)
        ensures
            s@ == screen_text(vt_grid(self.screen_size().0, self.screen_size().1, self.screen_input())),
    {
        let (rows, cols) = vt_size(&self.parser);
        let ghost g = vt_grid(rows, cols, self.parser.fed@);
        let mut grid: Vec<Vec<Option<String>>> = Vec::new();
        let mut row: u16 = 0;
        while row < rows
            invariant
                row <= rows,
                (rows, cols) == self.parser.size@,
                g == vt_grid(rows, cols, self.parser.fed@),
                grid_views(grid@) == g.take(row as int),
            decreases rows - row,
        {
            let mut cells: Vec<Option<String>> = Vec::new();
            let mut col: u16 = 0;
            while col < cols
                invariant
                    col <= cols,
                    row < rows,
                    (rows, cols) == self.parser.size@,
                    g == vt_grid(rows, cols, self.parser.fed@),
                    cell_views(cells@) == g[row as int].take(col as int),
                decreases cols - col,
            {
                let c = vt_cell(&self.parser, row, col);
                let ghost before = cell_views(cells@);
                cells.push(c);
                assert(cell_views(cells@) =~= before.push(g[row as int][col as int]));
                assert(g[row as int].take(col + 1) =~= g[row as int].take(col as int).push(
                    g[row as int][col as int],
                ));
                col += 1;
            }
            assert(g[row as int].take(col as int) =~= g[row as int]);
            let ghost before = grid_views(grid@);
            grid.push(cells);
            assert(grid_views(grid@) =~= before.push(g[row as int]));
            assert(g.take(row + 1) =~= g.take(row as int).push(g[row as int]));
            row += 1;
        }
        assert(g.take(row as int) =~= g);
        render_screen(&grid)
    }
}

} // verus!

//! Reading captured output for debugging: the escape sequences in raw
//! bytes, the bytes shown with escapes, and what a screen seems to show.
use crate::encoding::{base64_decode, decode_raw_output};
use crate::runner::{append, chars_within, utf8_len};
use crate::text::{
    chars_eq, chars_of, contains, contains_chars, join_with, lines, split_lines, starts_with, string_of, trim,
    trim_chars, views,
};
use vstd::prelude::*;

verus! {

/// `params` joined by `;`.
pub fn join_chars(items: &[Vec<char>], sep: char) -> (r: Vec<char>)
    ensures
        r@ == join_with(views(items@), seq![sep]),
{
    let mut r: Vec<char> = Vec::new();
    let mut i: usize = 0;
    while i < items.len()
        invariant
            i <= items@.len(),
            r@ == join_with(views(items@).take(i as int), seq![sep]),
        decreases items@.len() - i,
    {
        let ghost prev = views(items@).take(i as int);
        assert(views(items@).take(i + 1).drop_last() =~= prev);
        assert(views(items@).take(i + 1).last() == items@[i as int]@);
        if i > 0 {
            r.push(sep);
        }
        append(&mut r, items[i].as_slice());
        proof {
            if i > 0 {
                assert(r@ =~= join_with(prev, seq![sep]) + seq![sep] + items@[i as int]@);
            } else {
                assert(r@ =~= items@[i as int]@);
            }
        }
        i += 1;
    }
    assert(views(items@).take(i as int) =~= views(items@));
    r
}

/// Whether the text is the one character `c`.
fn is_single(p: &Vec<char>, c: char) -> (r: bool)
    ensures
        r == (p@ == seq![c]),
{
    if p.len() == 1 && p[0] == c {
        assert(p@ =~= seq![c]);
        true
    } else {
        false
    }
}

/// What a CSI sequence with the parameters and final byte does.
pub open spec fn csi_description(params: Seq<Seq<char>>, final_byte: u8) -> Seq<char> {
    let p = join_with(params, seq![';']);
    if final_byte == 0x68 {
        seq!['S', 'e', 't', ' ', 'M', 'o', 'd', 'e', ' '] + p
    } else if final_byte == 0x6c {
        seq!['R', 'e', 's', 'e', 't', ' ', 'M', 'o', 'd', 'e', ' '] + p
    } else if final_byte == 0x6d {
        seq!['S', 'G', 'R', ' ', '(', 'C', 'o', 'l', 'o', 'r', '/', 'S', 't', 'y', 'l', 'e', ')', ' '] + p
    } else if final_byte == 0x48 || final_byte == 0x66 {
        seq!['C', 'u', 'r', 's', 'o', 'r', ' ', 'P', 'o', 's', 'i', 't', 'i', 'o', 'n', ' '] + p
    } else if final_byte == 0x41 {
        seq!['C', 'u', 'r', 's', 'o', 'r', ' ', 'U', 'p', ' '] + p
    } else if final_byte == 0x42 {
        seq!['C', 'u', 'r', 's', 'o', 'r', ' ', 'D', 'o', 'w', 'n', ' '] + p
    } else if final_byte == 0x43 {
        seq!['C', 'u', 'r', 's', 'o', 'r', ' ', 'F', 'o', 'r', 'w', 'a', 'r', 'd', ' '] + p
    } else if final_byte == 0x44 {
        seq!['C', 'u', 'r', 's', 'o', 'r', ' ', 'B', 'a', 'c', 'k', ' '] + p
    } else if final_byte == 0x4a {
        if p == seq!['0'] || p.len() == 0 {
            seq!['C', 'l', 'e', 'a', 'r', ' ', 'F', 'r', 'o', 'm', ' ', 'C', 'u', 'r', 's', 'o', 'r', ' ', 't', 'o', ' ', 'E', 'n', 'd']
        } else if p == seq!['1'] {
            seq!['C', 'l', 'e', 'a', 'r', ' ', 'F', 'r', 'o', 'm', ' ', 'S', 't', 'a', 'r', 't', ' ', 't', 'o', ' ', 'C', 'u', 'r', 's', 'o', 'r']
        } else if p == seq!['2'] {
            seq!['C', 'l', 'e', 'a', 'r', ' ', 'E', 'n', 't', 'i', 'r', 'e', ' ', 'S', 'c', 'r', 'e', 'e', 'n']
        } else if p == seq!['3'] {
            seq!['C', 'l', 'e', 'a', 'r', ' ', 'S', 'c', 'r', 'o', 'l', 'l', 'b', 'a', 'c', 'k']
        } else {
            seq!['E', 'r', 'a', 's', 'e', ' ', 'i', 'n', ' ', 'D', 'i', 's', 'p', 'l', 'a', 'y', ' '] + p
        }
    } else if final_byte == 0x4b {
        if p == seq!['0'] || p.len() == 0 {
            seq!['C', 'l', 'e', 'a', 'r', ' ', 'L', 'i', 'n', 'e', ' ', 'F', 'r', 'o', 'm', ' ', 'C', 'u', 'r', 's', 'o', 'r']
        } else if p == seq!['1'] {
            seq!['C', 'l', 'e', 'a', 'r', ' ', 'L', 'i', 'n', 'e', ' ', 'T', 'o', ' ', 'C', 'u', 'r', 's', 'o', 'r']
        } else if p == seq!['2'] {
            seq!['C', 'l', 'e', 'a', 'r', ' ', 'E', 'n', 't', 'i', 'r', 'e', ' ', 'L', 'i', 'n', 'e']
        } else {
            seq!['E', 'r', 'a', 's', 'e', ' ', 'i', 'n', ' ', 'L', 'i', 'n', 'e', ' '] + p
        }
    } else if final_byte == 0x72 {
        seq!['S', 'e', 't', ' ', 'S', 'c', 'r', 'o', 'l', 'l', 'i', 'n', 'g', ' ', 'R', 'e', 'g', 'i', 'o', 'n', ' '] + p
    } else if final_byte == 0x73 {
        seq!['S', 'a', 'v', 'e', ' ', 'C', 'u', 'r', 's', 'o', 'r', ' ', 'P', 'o', 's', 'i', 't', 'i', 'o', 'n']
    } else if final_byte == 0x75 {
        seq!['R', 'e', 's', 't', 'o', 'r', 'e', ' ', 'C', 'u', 'r', 's', 'o', 'r', ' ', 'P', 'o', 's', 'i', 't', 'i', 'o', 'n']
    } else if final_byte == 0x6e {
        seq!['D', 'e', 'v', 'i', 'c', 'e', ' ', 'S', 't', 'a', 't', 'u', 's', ' ', 'R', 'e', 'p', 'o', 'r', 't', ' '] + p
    } else {
        seq!['C', 'S', 'I', ' '] + p + seq![' ', (final_byte as char)]
    }
}

/// `describe_csi_sequence` over character vectors.
pub fn describe_csi_chars(params: &[Vec<char>], final_byte: u8) -> (r: Vec<char>)
    ensures
        r@ == csi_description(views(params@), final_byte),
{
    let p = join_chars(params, ';');
    let mut out: Vec<char> = Vec::new();
    if final_byte == 0x68 {
        append(&mut out, &['S', 'e', 't', ' ', 'M', 'o', 'd', 'e', ' ']);
        append(&mut out, p.as_slice());
        assert(out@ =~= csi_description(views(params@), final_byte));
    } else if final_byte == 0x6c {
        append(&mut out, &['R', 'e', 's', 'e', 't', ' ', 'M', 'o', 'd', 'e', ' ']);
        append(&mut out, p.as_slice());
        assert(out@ =~= csi_description(views(params@), final_byte));
    } else if final_byte == 0x6d {
        append(&mut out, &['S', 'G', 'R', ' ', '(', 'C', 'o', 'l', 'o', 'r', '/', 'S', 't', 'y', 'l', 'e', ')', ' ']);
        append(&mut out, p.as_slice());
        assert(out@ =~= csi_description(views(params@), final_byte));
    } else if final_byte == 0x48 || final_byte == 0x66 {
        append(&mut out, &['C', 'u', 'r', 's', 'o', 'r', ' ', 'P', 'o', 's', 'i', 't', 'i', 'o', 'n', ' ']);
        append(&mut out, p.as_slice());
        assert(out@ =~= csi_description(views(params@), final_byte));
    } else if final_byte == 0x41 {
        append(&mut out, &['C', 'u', 'r', 's', 'o', 'r', ' ', 'U', 'p', ' ']);
        append(&mut out, p.as_slice());
        assert(out@ =~= csi_description(views(params@), final_byte));
    } else if final_byte == 0x42 {
        append(&mut out, &['C', 'u', 'r', 's', 'o', 'r', ' ', 'D', 'o', 'w', 'n', ' ']);
        append(&mut out, p.as_slice());
        assert(out@ =~= csi_description(views(params@), final_byte));
    } else if final_byte == 0x43 {
        append(&mut out, &['C', 'u', 'r', 's', 'o', 'r', ' ', 'F', 'o', 'r', 'w', 'a', 'r', 'd', ' ']);
        append(&mut out, p.as_slice());
        assert(out@ =~= csi_description(views(params@), final_byte));
    } else if final_byte == 0x44 {
        append(&mut out, &['C', 'u', 'r', 's', 'o', 'r', ' ', 'B', 'a', 'c', 'k', ' ']);
        append(&mut out, p.as_slice());
        assert(out@ =~= csi_description(views(params@), final_byte));
    } else if final_byte == 0x4a {
        if is_single(&p, '0') || p.len() == 0 {
            append(&mut out, &['C', 'l', 'e', 'a', 'r', ' ', 'F', 'r', 'o', 'm', ' ', 'C', 'u', 'r', 's', 'o', 'r', ' ', 't', 'o', ' ', 'E', 'n', 'd']);
            assert(out@ =~= csi_description(views(params@), final_byte));
        } else if is_single(&p, '1') {
            append(&mut out, &['C', 'l', 'e', 'a', 'r', ' ', 'F', 'r', 'o', 'm', ' ', 'S', 't', 'a', 'r', 't', ' ', 't', 'o', ' ', 'C', 'u', 'r', 's', 'o', 'r']);
            assert(out@ =~= csi_description(views(params@), final_byte));
        } else if is_single(&p, '2') {
            append(&mut out, &['C', 'l', 'e', 'a', 'r', ' ', 'E', 'n', 't', 'i', 'r', 'e', ' ', 'S', 'c', 'r', 'e', 'e', 'n']);
            assert(out@ =~= csi_description(views(params@), final_byte));
        } else if is_single(&p, '3') {
            append(&mut out, &['C', 'l', 'e', 'a', 'r', ' ', 'S', 'c', 'r', 'o', 'l', 'l', 'b', 'a', 'c', 'k']);
            assert(out@ =~= csi_description(views(params@), final_byte));
        } else {
            append(&mut out, &['E', 'r', 'a', 's', 'e', ' ', 'i', 'n', ' ', 'D', 'i', 's', 'p', 'l', 'a', 'y', ' ']);
            append(&mut out, p.as_slice());
            assert(out@ =~= csi_description(views(params@), final_byte));
        }
    } else if final_byte == 0x4b {
        if is_single(&p, '0') || p.len() == 0 {
            append(&mut out, &['C', 'l', 'e', 'a', 'r', ' ', 'L', 'i', 'n', 'e', ' ', 'F', 'r', 'o', 'm', ' ', 'C', 'u', 'r', 's', 'o', 'r']);
            assert(out@ =~= csi_description(views(params@), final_byte));
        } else if is_single(&p, '1') {
            append(&mut out, &['C', 'l', 'e', 'a', 'r', ' ', 'L', 'i', 'n', 'e', ' ', 'T', 'o', ' ', 'C', 'u', 'r', 's', 'o', 'r']);
            assert(out@ =~= csi_description(views(params@), final_byte));
        } else if is_single(&p, '2') {
            append(&mut out, &['C', 'l', 'e', 'a', 'r', ' ', 'E', 'n', 't', 'i', 'r', 'e', ' ', 'L', 'i', 'n', 'e']);
            assert(out@ =~= csi_description(views(params@), final_byte));
        } else {
            append(&mut out, &['E', 'r', 'a', 's', 'e', ' ', 'i', 'n', ' ', 'L', 'i', 'n', 'e', ' ']);
            append(&mut out, p.as_slice());
            assert(out@ =~= csi_description(views(params@), final_byte));
        }
    } else if final_byte == 0x72 {
        append(&mut out, &['S', 'e', 't', ' ', 'S', 'c', 'r', 'o', 'l', 'l', 'i', 'n', 'g', ' ', 'R', 'e', 'g', 'i', 'o', 'n', ' ']);
        append(&mut out, p.as_slice());
        assert(out@ =~= csi_description(views(params@), final_byte));
    } else if final_byte == 0x73 {
        append(&mut out, &['S', 'a', 'v', 'e', ' ', 'C', 'u', 'r', 's', 'o', 'r', ' ', 'P', 'o', 's', 'i', 't', 'i', 'o', 'n']);
        assert(out@ =~= csi_description(views(params@), final_byte));
    } else if final_byte == 0x75 {
        append(&mut out, &['R', 'e', 's', 't', 'o', 'r', 'e', ' ', 'C', 'u', 'r', 's', 'o', 'r', ' ', 'P', 'o', 's', 'i', 't', 'i', 'o', 'n']);
        assert(out@ =~= csi_description(views(params@), final_byte));
    } else if final_byte == 0x6e {
        append(&mut out, &['D', 'e', 'v', 'i', 'c', 'e', ' ', 'S', 't', 'a', 't', 'u', 's', ' ', 'R', 'e', 'p', 'o', 'r', 't', ' ']);
        append(&mut out, p.as_slice());
        assert(out@ =~= csi_description(views(params@), final_byte));
    } else {
        append(&mut out, &['C', 'S', 'I', ' ']);
        append(&mut out, p.as_slice());
        out.push(' ');
        let c = final_byte as char;
        assert(c == (final_byte as char));
        out.push(c);
        assert(out@ =~= csi_description(views(params@), final_byte));
    }
    assert(out@ =~= csi_description(views(params@), final_byte));
    out
}

/// The texts of a sequence of strings.
pub open spec fn string_views(v: Seq<String>) -> Seq<Seq<char>> {
    v.map_values(|s: String| s@)
}

/// Describe a CSI sequence.
pub fn describe_csi_sequence(params: &[String], final_byte: u8) -> (r: String)
    ensures
        r@ == csi_description(string_views(params@), final_byte),
{
    let mut ps: Vec<Vec<char>> = Vec::new();
    let mut i: usize = 0;
    while i < params.len()
        invariant
            i <= params@.len(),
            views(ps@) == string_views(params@).take(i as int),
        decreases params@.len() - i,
    {
        let c = chars_of(params[i].as_str());
        let ghost before = views(ps@);
        ps.push(c);
        assert(views(ps@) =~= before.push(c@));
        assert(string_views(params@).take(i + 1) =~= string_views(params@).take(i as int).push(params@[i as int]@));
        i += 1;
    }
    assert(string_views(params@).take(i as int) =~= string_views(params@));
    let out = describe_csi_chars(ps.as_slice(), final_byte);
    string_of(out.as_slice())
}


// ───────────────────────── escape sequences in raw bytes ─────────────────────────

/// A byte that can stand among the parameters of a CSI sequence.
pub open spec fn is_param_byte(b: u8) -> bool {
    (0x30 <= b && b <= 0x39) || b == 0x3b || b == 0x3f || b == 0x3e
}

/// The first index from `k` on whose byte is not a parameter byte (or the
/// end).
pub open spec fn csi_end(data: Seq<u8>, k: int) -> int
    decreases data.len() - k,
{
    if k >= data.len() {
        data.len() as int
    } else if is_param_byte(data[k]) {
        csi_end(data, k + 1)
    } else {
        k
    }
}

/// The first index from `k` on whose byte ends an OSC sequence (BEL or
/// ESC), or the end.
pub open spec fn osc_end(data: Seq<u8>, k: int) -> int
    decreases data.len() - k,
{
    if k >= data.len() {
        data.len() as int
    } else if data[k] == 0x07 || data[k] == 0x1b {
        k
    } else {
        osc_end(data, k + 1)
    }
}

/// The parameters of a CSI sequence: the nonempty pieces between `;`, the
/// piece begun so far being `cur`.
pub open spec fn param_pieces(s: Seq<u8>, cur: Seq<char>) -> Seq<Seq<char>>
    decreases s.len(),
{
    if s.len() == 0 {
        if cur.len() > 0 {
            seq![cur]
        } else {
            seq![]
        }
    } else if s[0] == 0x3b {
        (if cur.len() > 0 {
            seq![cur]
        } else {
            seq![]
        }) + param_pieces(s.drop_first(), seq![])
    } else {
        param_pieces(s.drop_first(), cur.push(s[0] as char))
    }
}

/// An escape sequence found in raw bytes.
#[derive(Debug)]
pub struct AnsiSequence {
    /// Where it starts.
    pub offset: usize,
    /// How many bytes it takes.
    pub len: usize,
    /// What it does.
    pub description: String,
}

/// An escape sequence with its description as characters.
pub struct AnsiSequenceView {
    pub offset: int,
    pub len: int,
    pub description: Seq<char>,
}

impl View for AnsiSequence {
    type V = AnsiSequenceView;

    open spec fn view(&self) -> AnsiSequenceView {
        AnsiSequenceView {
            offset: self.offset as int,
            len: self.len as int,
            description: self.description@,
        }
    }
}

impl Clone for AnsiSequence {
    fn clone(&self) -> (r: Self)
        ensures
            r@ == self@,
    {
        AnsiSequence { offset: self.offset, len: self.len, description: self.description.clone() }
    }
}

/// The views of escape sequences.
pub open spec fn sequence_views(v: Seq<AnsiSequence>) -> Seq<AnsiSequenceView> {
    v.map_values(|a: AnsiSequence| a@)
}

/// The escape sequences in `data` from index `i` on, in order: a CSI
/// sequence (`ESC [`, parameter bytes, a final byte) with what it does; an
/// OSC sequence (`ESC ]` up to BEL or ESC) skipped; any other `ESC c` as
/// itself. An escape that the data ends in is left out.
pub open spec fn scan_from(data: Seq<u8>, i: int) -> Seq<AnsiSequenceView>
    decreases data.len() - i, 0int,
{
    if i < 0 || i >= data.len() {
        seq![]
    } else if data[i] == 0x1b && i + 1 < data.len() {
        let j = i + 1;
        if data[j] == 0x5b {
            let e = csi_end(data, j + 1);
            if j + 1 <= e < data.len() {
                seq![
                    AnsiSequenceView {
                        offset: i,
                        len: e - i + 1,
                        description: csi_description(
                            param_pieces(data.subrange(j + 1, e), seq![]),
                            data[e],
                        ),
                    },
                ] + scan_from(data, e + 1)
            } else {
                seq![]
            }
        } else if data[j] == 0x5d {
            let e = osc_end(data, j + 1);
            if j + 1 <= e < data.len() {
                scan_from(data, e + 1)
            } else {
                seq![]
            }
        } else {
            seq![
                AnsiSequenceView {
                    offset: i,
                    len: 2,
                    description: seq!['E', 'S', 'C', ' '] + seq![data[j] as char],
                },
            ] + scan_from(data, j + 1)
        }
    } else {
        scan_from(data, i + 1)
    }
}

/// The CSI parameter bytes end somewhere from `k` on.
pub proof fn lemma_csi_end_bounds(data: Seq<u8>, k: int)
    requires
        0 <= k <= data.len(),
    ensures
        k <= csi_end(data, k) <= data.len(),
        forall|m: int| k <= m < csi_end(data, k) ==> is_param_byte(#[trigger] data[m]),
        csi_end(data, k) < data.len() ==> !is_param_byte(data[csi_end(data, k)]),
    decreases data.len() - k,
{
    if k < data.len() && is_param_byte(data[k]) {
        lemma_csi_end_bounds(data, k + 1);
    }
}

/// The OSC sequence ends somewhere from `k` on.
pub proof fn lemma_osc_end_bounds(data: Seq<u8>, k: int)
    requires
        0 <= k <= data.len(),
    ensures
        k <= osc_end(data, k) <= data.len(),
    decreases data.len() - k,
{
    if k < data.len() && !(data[k] == 0x07 || data[k] == 0x1b) {
        lemma_osc_end_bounds(data, k + 1);
    }
}

/// The sequences that a scan reports lie in the data, in order and apart:
/// each starts with an ESC at or after where the scan began, takes at least
/// two bytes and ends within the data, and each ends before the next one
/// starts.
pub proof fn lemma_scan_well_placed(data: Seq<u8>, i: int)
    requires
        0 <= i,
    ensures
        ({
            let r = scan_from(data, i);
            &&& forall|k: int|
                0 <= k < r.len() ==> i <= (#[trigger] r[k]).offset && r[k].len >= 2 && r[k].offset
                    + r[k].len <= data.len() && data[r[k].offset] == 0x1b
            &&& forall|a: int, b: int|
                #![trigger r[a], r[b]]
                0 <= a < b < r.len() ==> r[a].offset + r[a].len <= r[b].offset
        }),
    decreases data.len() - i,
{
    let r = scan_from(data, i);
    if i >= data.len() {
    } else if data[i] == 0x1b && i + 1 < data.len() {
        let j = i + 1;
        if data[j] == 0x5b {
            let e = csi_end(data, j + 1);
            lemma_csi_end_bounds(data, j + 1);
            if j + 1 <= e < data.len() {
                lemma_scan_well_placed(data, e + 1);
                let rest = scan_from(data, e + 1);
                let head = AnsiSequenceView {
                    offset: i,
                    len: e - i + 1,
                    description: csi_description(
                        param_pieces(data.subrange(j + 1, e), seq![]),
                        data[e],
                    ),
                };
                assert(r == seq![head] + rest);
                assert(r[0] == head);
                assert forall|k: int| 0 <= k < r.len() implies i <= (#[trigger] r[k]).offset && r[k].len
                    >= 2 && r[k].offset + r[k].len <= data.len() && data[r[k].offset] == 0x1b by {
                    if k > 0 {
                        assert(r[k] == rest[k - 1]);
                    }
                }
                assert forall|a: int, b: int| 0 <= a < b < r.len() implies #[trigger] r[a].offset + r[a].len <= #[trigger] r[b].offset by {
                    assert(r[b] == rest[b - 1]);
                    if a > 0 {
                        assert(r[a] == rest[a - 1]);
                    }
                }
            }
        } else if data[j] == 0x5d {
            let e = osc_end(data, j + 1);
            lemma_osc_end_bounds(data, j + 1);
            if j + 1 <= e < data.len() {
                lemma_scan_well_placed(data, e + 1);
                assert(r == scan_from(data, e + 1));
            }
        } else {
            lemma_scan_well_placed(data, j + 1);
            let rest = scan_from(data, j + 1);
            let head = AnsiSequenceView {
                offset: i,
                len: 2,
                description: seq!['E', 'S', 'C', ' '] + seq![data[j] as char],
            };
            assert(r == seq![head] + rest);
            assert(r[0] == head);
            assert forall|k: int| 0 <= k < r.len() implies i <= (#[trigger] r[k]).offset && r[k].len >= 2
                && r[k].offset + r[k].len <= data.len() && data[r[k].offset] == 0x1b by {
                if k > 0 {
                    assert(r[k] == rest[k - 1]);
                }
            }
            assert forall|a: int, b: int| 0 <= a < b < r.len() implies #[trigger] r[a].offset + r[a].len <= #[trigger] r[b].offset by {
                assert(r[b] == rest[b - 1]);
                if a > 0 {
                    assert(r[a] == rest[a - 1]);
                }
            }
        }
    } else {
        lemma_scan_well_placed(data, i + 1);
        assert(r == scan_from(data, i + 1));
    }
}

/// The parameter bytes `data[lo..hi]` split at `;` into nonempty pieces.
fn read_params(data: &[u8], lo: usize, hi: usize) -> (r: Vec<Vec<char>>)
    requires
        lo <= hi <= data@.len(),
    ensures
        views(r@) == param_pieces(data@.subrange(lo as int, hi as int), seq![]),
{
    let mut params: Vec<Vec<char>> = Vec::new();
    let mut cur: Vec<char> = Vec::new();
    let mut k = lo;
    let ghost whole = data@.subrange(lo as int, hi as int);
    assert(whole.skip(0) =~= whole);
    assert(views(params@) =~= Seq::<Seq<char>>::empty());
    assert(Seq::<Seq<char>>::empty() + param_pieces(whole, seq![]) =~= param_pieces(whole, seq![]));
    while k < hi
        invariant
            lo <= k <= hi <= data@.len(),
            whole == data@.subrange(lo as int, hi as int),
            views(params@) + param_pieces(data@.subrange(k as int, hi as int), cur@) == param_pieces(
                whole,
                seq![],
            ),
        decreases hi - k,
    {
        let ghost rest = data@.subrange(k as int, hi as int);
        assert(rest.drop_first() =~= data@.subrange(k + 1, hi as int));
        let c = data[k];
        let ghost before = views(params@);
        if c == 0x3b {
            if cur.len() > 0 {
                params.push(cur);
                assert(views(params@) =~= before.push(cur@));
                assert(before + (seq![cur@] + param_pieces(rest.drop_first(), seq![])) =~= views(params@) + param_pieces(rest.drop_first(), seq![]));
            } else {
                assert(before + (Seq::<Seq<char>>::empty() + param_pieces(rest.drop_first(), seq![])) =~= before + param_pieces(rest.drop_first(), seq![]));
            }
            cur = Vec::new();
            assert(cur@ =~= Seq::<char>::empty());
        } else {
            cur.push(c as char);
        }
        k += 1;
    }
    let ghost last = cur@;
    if cur.len() > 0 {
        let ghost before = views(params@);
        params.push(cur);
        assert(views(params@) =~= before.push(last));
        assert(param_pieces(data@.subrange(k as int, hi as int), last) =~= seq![last]);
    } else {
        assert(param_pieces(data@.subrange(k as int, hi as int), last) =~= Seq::<Seq<char>>::empty());
        assert(views(params@) + Seq::<Seq<char>>::empty() =~= views(params@));
    }
    params
}

/// Finds the escape sequences in raw bytes.
pub fn scan_ansi_sequences(data: &[u8]) -> (r: Vec<AnsiSequence>)
    ensures
        sequence_views(r@) == scan_from(data@, 0),
{
    let mut found: Vec<AnsiSequence> = Vec::new();
    let mut i: usize = 0;
    assert(sequence_views(found@) + scan_from(data@, 0) =~= scan_from(data@, 0));
    while i < data.len()
        invariant
            i <= data@.len(),
            sequence_views(found@) + scan_from(data@, i as int) == scan_from(data@, 0),
        decreases data@.len() - i,
    {
        let ghost before = sequence_views(found@);
        if data[i] == 0x1b && i + 1 < data.len() {
            let start = i;
            let j = i + 1;
            if data[j] == 0x5b {
                proof {
                    lemma_csi_end_bounds(data@, j + 1);
                }
                let mut k = j + 1;
                while k < data.len() && (data[k] >= 0x30 && data[k] <= 0x39 || data[k] == 0x3b || data[k] == 0x3f || data[k] == 0x3e)
                    invariant
                        j + 1 <= k <= data@.len(),
                        csi_end(data@, j + 1) == csi_end(data@, k as int),
                    decreases data@.len() - k,
                {
                    k += 1;
                }
                if k < data.len() {
                    let params = read_params(data, j + 1, k);
                    let desc = describe_csi_chars(params.as_slice(), data[k]);
                    let a = AnsiSequence { offset: start, len: k - start + 1, description: string_of(desc.as_slice()) };
                    found.push(a);
                    assert(sequence_views(found@) =~= before.push(a@));
                    assert(before + scan_from(data@, i as int) =~= sequence_views(found@) + scan_from(data@, k + 1));
                    i = k + 1;
                } else {
                    assert(scan_from(data@, i as int) =~= Seq::<AnsiSequenceView>::empty());
                    assert(scan_from(data@, k as int) =~= Seq::<AnsiSequenceView>::empty());
                    i = k;
                }
            } else if data[j] == 0x5d {
                proof {
                    lemma_osc_end_bounds(data@, j + 1);
                }
                let mut k = j + 1;
                while k < data.len() && data[k] != 0x07 && data[k] != 0x1b
                    invariant
                        j + 1 <= k <= data@.len(),
                        osc_end(data@, j + 1) == osc_end(data@, k as int),
                    decreases data@.len() - k,
                {
                    k += 1;
                }
                if k < data.len() {
                    i = k + 1;
                } else {
                    assert(scan_from(data@, i as int) =~= Seq::<AnsiSequenceView>::empty());
                    i = k;
                }
            } else {
                let mut desc: Vec<char> = Vec::new();
                append(&mut desc, &['E', 'S', 'C', ' ']);
                desc.push(data[j] as char);
                assert(desc@ =~= seq!['E', 'S', 'C', ' '] + seq![data@[j as int] as char]);
                let a = AnsiSequence { offset: start, len: 2, description: string_of(desc.as_slice()) };
                found.push(a);
                assert(sequence_views(found@) =~= before.push(a@));
                assert(before + scan_from(data@, i as int) =~= sequence_views(found@) + scan_from(data@, j + 1));
                i = j + 1;
            }
        } else {
            i += 1;
        }
    }
    assert(scan_from(data@, i as int) =~= Seq::<AnsiSequenceView>::empty());
    assert(sequence_views(found@) + Seq::<AnsiSequenceView>::empty() =~= sequence_views(found@));
    found
}


// ───────────────────────── reports ─────────────────────────

/// A sequence worth pointing out: the alternate screen, clearing, cursor
/// moves and colours.
pub open spec fn is_important(desc: Seq<char>) -> bool {
    contains(desc, seq!['1', '0', '4', '9']) || contains(desc, seq!['C', 'l', 'e', 'a', 'r']) || contains(
        desc,
        seq!['C', 'u', 'r', 's', 'o', 'r'],
    ) || contains(desc, seq!['C', 'o', 'l', 'o', 'r'])
}

/// The important sequences, in order.
pub open spec fn important_of(seqs: Seq<AnsiSequenceView>) -> Seq<AnsiSequenceView>
    decreases seqs.len(),
{
    if seqs.len() == 0 {
        seq![]
    } else if is_important(seqs.last().description) {
        important_of(seqs.drop_last()).push(seqs.last())
    } else {
        important_of(seqs.drop_last())
    }
}

/// Some sequence is a private-mode set (`kind` is `Set Mode ?`) or reset
/// (`Reset Mode ?`) that names mode 1049, the alternate screen: its
/// description starts with `kind` and mentions `1049`.
pub open spec fn any_alt_screen(seqs: Seq<AnsiSequenceView>, kind: Seq<char>) -> bool {
    exists|k: int|
        0 <= k < seqs.len() && starts_with(#[trigger] seqs[k].description, kind) && contains(
            seqs[k].description,
            seq!['1', '0', '4', '9'],
        )
}

/// `Set Mode ?`: how a private-mode set (`ESC [ ? ... h`) is described.
pub open spec fn private_set() -> Seq<char> {
    seq!['S', 'e', 't', ' ', 'M', 'o', 'd', 'e', ' ', '?']
}

/// `Reset Mode ?`: how a private-mode reset (`ESC [ ? ... l`) is described.
pub open spec fn private_reset() -> Seq<char> {
    seq!['R', 'e', 's', 'e', 't', ' ', 'M', 'o', 'd', 'e', ' ', '?']
}

/// What the escape sequences of raw bytes show.
#[derive(Debug)]
pub struct AnsiReport {
    /// All the sequences, in order.
    pub sequences: Vec<AnsiSequence>,
    /// Those worth pointing out, in order.
    pub important: Vec<AnsiSequence>,
    /// Some sequence sets private mode 1049 (enters the alternate screen).
    pub enters_alternate_screen: bool,
    /// Some sequence resets private mode 1049 (leaves the alternate screen).
    pub exits_alternate_screen: bool,
}

/// Whether some sequence is a private-mode set or reset (`kind`) of mode
/// 1049.
fn alt_screen_switch(seqs: &Vec<AnsiSequence>, kind: &[char]) -> (r: bool)
    ensures
        r == any_alt_screen(sequence_views(seqs@), kind@),
{
    let mut k: usize = 0;
    while k < seqs.len()
        invariant
            k <= seqs@.len(),
            forall|m: int|
                0 <= m < k ==> !(starts_with(#[trigger] sequence_views(seqs@)[m].description, kind@)
                    && contains(sequence_views(seqs@)[m].description, seq!['1', '0', '4', '9'])),
        decreases seqs@.len() - k,
    {
        let d = chars_of(seqs[k].description.as_str());
        assert(sequence_views(seqs@)[k as int].description == d@);
        if crate::text::has_prefix(d.as_slice(), kind) && contains_chars(d.as_slice(), &['1', '0', '4', '9']) {
            return true;
        }
        k += 1;
    }
    false
}

/// Analyze ANSI sequences in raw data.
pub fn analyze_ansi_sequences(data: &[u8]) -> (r: AnsiReport)
    ensures
        sequence_views(r.sequences@) == scan_from(data@, 0),
        sequence_views(r.important@) == important_of(scan_from(data@, 0)),
        r.enters_alternate_screen == any_alt_screen(scan_from(data@, 0), private_set()),
        r.exits_alternate_screen == any_alt_screen(scan_from(data@, 0), private_reset()),
{
    let sequences = scan_ansi_sequences(data);
    let ghost all = sequence_views(sequences@);
    let mut important: Vec<AnsiSequence> = Vec::new();
    let mut k: usize = 0;
    assert(all.take(0) =~= Seq::<AnsiSequenceView>::empty());
    assert(sequence_views(important@) =~= Seq::<AnsiSequenceView>::empty());
    while k < sequences.len()
        invariant
            k <= sequences@.len(),
            all == sequence_views(sequences@),
            sequence_views(important@) == important_of(all.take(k as int)),
        decreases sequences@.len() - k,
    {
        let a = &sequences[k];
        assert(all.take(k + 1).drop_last() =~= all.take(k as int));
        assert(all.take(k + 1).last() == a@);
        let d = chars_of(a.description.as_str());
        let ghost before = sequence_views(important@);
        if contains_chars(d.as_slice(), &['1', '0', '4', '9']) || contains_chars(
            d.as_slice(),
            &['C', 'l', 'e', 'a', 'r'],
        ) || contains_chars(d.as_slice(), &['C', 'u', 'r', 's', 'o', 'r']) || contains_chars(
            d.as_slice(),
            &['C', 'o', 'l', 'o', 'r'],
        ) {
            important.push(a.clone());
            assert(sequence_views(important@) =~= before.push(a@));
        } else {
            assert(sequence_views(important@) =~= before);
        }
        k += 1;
    }
    assert(all.take(k as int) =~= all);
    let enters_alternate_screen = alt_screen_switch(
        &sequences,
        &['S', 'e', 't', ' ', 'M', 'o', 'd', 'e', ' ', '?'],
    );
    let exits_alternate_screen = alt_screen_switch(
        &sequences,
        &['R', 'e', 's', 'e', 't', ' ', 'M', 'o', 'd', 'e', ' ', '?'],
    );
    AnsiReport { sequences, important, enters_alternate_screen, exits_alternate_screen }
}

// ───────────────────────── bytes shown with escapes ─────────────────────────

/// The lowercase hexadecimal digit of a value below 16.
pub open spec fn hex_digit(v: int) -> char {
    if v < 10 {
        (v + 0x30) as char
    } else {
        (v - 10 + 0x61) as char
    }
}

/// How a byte is shown: printable ASCII as itself, the common control
/// characters as coloured escapes (a line feed also breaks the line), any
/// other byte as a red `\xNN`.
pub open spec fn byte_shown(b: u8) -> Seq<char> {
    if b == 0x1b {
        seq!['\u{1b}', '[', '3', '5', 'm', '\\', 'x', '1', 'b', '\u{1b}', '[', '0', 'm']
    } else if b == 0x0a {
        seq!['\u{1b}', '[', '3', '2', 'm', '\\', 'n', '\u{1b}', '[', '0', 'm', '\n']
    } else if b == 0x0d {
        seq!['\u{1b}', '[', '3', '2', 'm', '\\', 'r', '\u{1b}', '[', '0', 'm']
    } else if b == 0x07 {
        seq!['\u{1b}', '[', '3', '1', 'm', '\\', 'a', '\u{1b}', '[', '0', 'm']
    } else if b == 0x08 {
        seq!['\u{1b}', '[', '3', '1', 'm', '\\', 'b', '\u{1b}', '[', '0', 'm']
    } else if b == 0x09 {
        seq!['\u{1b}', '[', '3', '2', 'm', '\\', 't', '\u{1b}', '[', '0', 'm']
    } else if 32 <= b && b <= 126 {
        seq![b as char]
    } else {
        seq!['\u{1b}', '[', '3', '1', 'm', '\\', 'x'] + seq![hex_digit((b / 16) as int), hex_digit((b % 16) as int)] + seq!['\u{1b}', '[', '0', 'm']
    }
}

/// The bytes shown one after another.
pub open spec fn bytes_shown(data: Seq<u8>) -> Seq<char>
    decreases data.len(),
{
    if data.len() == 0 {
        seq![]
    } else {
        bytes_shown(data.drop_last()) + byte_shown(data.last())
    }
}

/// The hexadecimal digit of a value below 16.
fn hex_digit_exec(v: u8) -> (c: char)
    requires
        v < 16,
    ensures
        c == hex_digit(v as int),
{
    if v < 10 {
        ((v + 0x30) as u8) as char
    } else {
        ((v - 10 + 0x61) as u8) as char
    }
}

/// Show bytes in escaped format.
pub fn show_escaped(data: &[u8]) -> (r: String)
    ensures
        r@ == bytes_shown(data@),
{
    let mut out: Vec<char> = Vec::new();
    let mut i: usize = 0;
    assert(data@.take(0) =~= Seq::<u8>::empty());
    while i < data.len()
        invariant
            i <= data@.len(),
            out@ == bytes_shown(data@.take(i as int)),
        decreases data@.len() - i,
    {
        let b = data[i];
        assert(data@.take(i + 1).drop_last() =~= data@.take(i as int));
        assert(data@.take(i + 1).last() == b);
        let ghost before = out@;
        if b == 0x1b {
            append(&mut out, &['\u{1b}', '[', '3', '5', 'm', '\\', 'x', '1', 'b', '\u{1b}', '[', '0', 'm']);
        } else if b == 0x0a {
            append(&mut out, &['\u{1b}', '[', '3', '2', 'm', '\\', 'n', '\u{1b}', '[', '0', 'm', '\n']);
        } else if b == 0x0d {
            append(&mut out, &['\u{1b}', '[', '3', '2', 'm', '\\', 'r', '\u{1b}', '[', '0', 'm']);
        } else if b == 0x07 {
            append(&mut out, &['\u{1b}', '[', '3', '1', 'm', '\\', 'a', '\u{1b}', '[', '0', 'm']);
        } else if b == 0x08 {
            append(&mut out, &['\u{1b}', '[', '3', '1', 'm', '\\', 'b', '\u{1b}', '[', '0', 'm']);
        } else if b == 0x09 {
            append(&mut out, &['\u{1b}', '[', '3', '2', 'm', '\\', 't', '\u{1b}', '[', '0', 'm']);
        } else if 32 <= b && b <= 126 {
            out.push(b as char);
        } else {
            append(&mut out, &['\u{1b}', '[', '3', '1', 'm', '\\', 'x']);
            out.push(hex_digit_exec(b / 16));
            out.push(hex_digit_exec(b % 16));
            append(&mut out, &['\u{1b}', '[', '0', 'm']);
        }
        assert(out@ =~= before + byte_shown(b));
        i += 1;
    }
    assert(data@.take(i as int) =~= data@);
    string_of(out.as_slice())
}


// ───────────────────────── screen analysis ─────────────────────────

/// The screen looks like vim's.
pub open spec fn looks_like_vim(screen: Seq<char>) -> bool {
    contains(screen, seq!['-', '-', ' ', 'I', 'N', 'S', 'E', 'R', 'T', ' ', '-', '-']) || contains(screen, seq!['-', '-', ' ', 'N', 'O', 'R', 'M', 'A', 'L', ' ', '-', '-']) || contains(screen, seq!['-', '-', ' ', 'V', 'I', 'S', 'U', 'A', 'L', ' ', '-', '-']) || contains(screen, seq!['~'])
}

/// The screen shows alternate-screen escapes.
pub open spec fn shows_alternate_screen(screen: Seq<char>) -> bool {
    contains(screen, seq!['[', '?', '1', '0', '4', '9', 'h']) || contains(screen, seq!['[', '?', '1', '0', '4', '9', 'l'])
}

/// The screen shows a shell prompt character.
pub open spec fn shows_shell_prompt(screen: Seq<char>) -> bool {
    contains(screen, seq!['$']) || contains(screen, seq!['#']) || contains(screen, seq!['%']) || contains(screen, seq!['>'])
}

/// A trimmed line as shown: its first 60 bytes when it is longer.
pub open spec fn shown_line(t: Seq<char>) -> Seq<char> {
    if utf8_len(t) > 60 {
        t.take(chars_within(t, 60) as int)
    } else {
        t
    }
}

/// Cutting the trimmed line after 60 bytes would split a character.
pub open spec fn line_cut_splits(t: Seq<char>) -> bool {
    utf8_len(t) > 60 && utf8_len(t.take(chars_within(t, 60) as int)) != 60
}

/// The nonempty lines, numbered from 1, trimmed and cut as shown.
pub open spec fn non_empty_lines(ls: Seq<Seq<char>>) -> Seq<(int, Seq<char>)>
    decreases ls.len(),
{
    if ls.len() == 0 {
        seq![]
    } else {
        let t = trim(ls.last());
        if t.len() > 0 {
            non_empty_lines(ls.drop_last()).push((ls.len() as int, shown_line(t)))
        } else {
            non_empty_lines(ls.drop_last())
        }
    }
}

/// No nonempty line of the screen would be cut inside a character.
pub open spec fn screen_lines_cut_cleanly(screen: Seq<char>) -> bool {
    forall|i: int| 0 <= i < lines(screen).len() ==> !line_cut_splits(trim(#[trigger] lines(screen)[i]))
}

/// Whether the character occurs in the text.
fn contains_char(s: &[char], c: char) -> (r: bool)
    ensures
        r == contains(s@, seq![c]),
{
    let mut n: Vec<char> = Vec::new();
    n.push(c);
    assert(n@ =~= seq![c]);
    contains_chars(s, n.as_slice())
}

/// What a screen seems to show.
#[derive(Debug)]
pub struct ScreenAnalysis {
    /// The number of lines.
    pub total_lines: usize,
    /// Vim's status or empty-line marks.
    pub vim: bool,
    /// Alternate-screen escapes.
    pub alternate_screen: bool,
    /// A shell prompt character.
    pub shell_prompt: bool,
    /// The nonempty lines, numbered from 1, trimmed and cut to 60 bytes.
    pub non_empty_lines: Vec<(usize, String)>,
}

/// The views of numbered lines.
pub open spec fn numbered_views(v: Seq<(usize, String)>) -> Seq<(int, Seq<char>)> {
    v.map_values(|p: (usize, String)| (p.0 as int, p.1@))
}

/// A trimmed line cut to 60 bytes.
fn cut_line(t: &[char]) -> (r: Vec<char>)
    requires
        !line_cut_splits(t@),
    ensures
        r@ == shown_line(t@),
{
    let k = crate::runner::chars_within_exec(t, 60);
    if k < t.len() {
        proof {
            assert(t@ =~= t@.take(k as int) + t@.skip(k as int));
            crate::runner::lemma_utf8_len_concat(t@.take(k as int), t@.skip(k as int));
            assert(utf8_len(t@.skip(k as int)) >= crate::runner::utf8_width(t@[k as int])) by {
                assert(t@.skip(k as int)[0] == t@[k as int]);
            }
        }
        crate::text::vec_of_range(t, 0, k)
    } else {
        assert(t@.take(k as int) =~= t@);
        crate::text::vec_of_range(t, 0, t.len())
    }
}

/// Whether the screen can be analyzed: no nonempty line would be cut inside
/// a character.
pub fn screen_cuts_cleanly(screen: &str) -> (b: bool)
    ensures
        b == screen_lines_cut_cleanly(screen@),
{
    let v = chars_of(screen);
    let ls = split_lines(v.as_slice());
    let ghost all = views(ls@);
    assert(all == lines(screen@));
    let mut i: usize = 0;
    while i < ls.len()
        invariant
            i <= ls@.len(),
            all == views(ls@),
            all == lines(screen@),
            forall|j: int| 0 <= j < i ==> !line_cut_splits(trim(#[trigger] all[j])),
        decreases ls@.len() - i,
    {
        assert(all[i as int] == ls@[i as int]@);
        let t = trim_chars(ls[i].as_slice());
        if crate::runner::longer_than(t.as_slice(), 60) && !crate::runner::fills_budget(t.as_slice(), 60) {
            assert(line_cut_splits(trim(all[i as int])));
            return false;
        }
        i += 1;
    }
    true
}

/// Analyze screen content for debugging.
pub fn analyze_screen(screen: &str) -> (r: ScreenAnalysis)
    requires
        screen_lines_cut_cleanly(screen@),
    ensures
        r.total_lines == lines(screen@).len(),
        r.vim == looks_like_vim(screen@),
        r.alternate_screen == shows_alternate_screen(screen@),
        r.shell_prompt == shows_shell_prompt(screen@),
        numbered_views(r.non_empty_lines@) == non_empty_lines(lines(screen@)),
{
    let v = chars_of(screen);
    let s = v.as_slice();
    let ls = split_lines(s);
    let ghost all = views(ls@);
    let vim = contains_chars(s, &['-', '-', ' ', 'I', 'N', 'S', 'E', 'R', 'T', ' ', '-', '-']) || contains_chars(s, &['-', '-', ' ', 'N', 'O', 'R', 'M', 'A', 'L', ' ', '-', '-']) || contains_chars(s, &['-', '-', ' ', 'V', 'I', 'S', 'U', 'A', 'L', ' ', '-', '-']) || contains_char(s, '~');
    let alternate_screen = contains_chars(s, &['[', '?', '1', '0', '4', '9', 'h']) || contains_chars(s, &['[', '?', '1', '0', '4', '9', 'l']);
    let shell_prompt = contains_char(s, '$') || contains_char(s, '#') || contains_char(s, '%') || contains_char(s, '>');
    let mut shown: Vec<(usize, String)> = Vec::new();
    let mut i: usize = 0;
    assert(all.take(0) =~= Seq::<Seq<char>>::empty());
    assert(numbered_views(shown@) =~= Seq::<(int, Seq<char>)>::empty());
    while i < ls.len()
        invariant
            i <= ls@.len(),
            all == views(ls@),
            all == lines(screen@),
            screen_lines_cut_cleanly(screen@),
            numbered_views(shown@) == non_empty_lines(all.take(i as int)),
        decreases ls@.len() - i,
    {
        assert(all.take(i + 1).drop_last() =~= all.take(i as int));
        assert(all.take(i + 1).last() == ls@[i as int]@);
        let t = trim_chars(ls[i].as_slice());
        let ghost before = numbered_views(shown@);
        if t.len() > 0 {
            assert(!line_cut_splits(trim(all[i as int])));
            let c = cut_line(t.as_slice());
            shown.push((i + 1, string_of(c.as_slice())));
            assert(numbered_views(shown@) =~= before.push(((i + 1) as int, c@)));
        } else {
            assert(numbered_views(shown@) =~= before);
        }
        i += 1;
    }
    assert(all.take(i as int) =~= all);
    ScreenAnalysis { total_lines: ls.len(), vim, alternate_screen, shell_prompt, non_empty_lines: shown }
}

/// Analyzes the escape sequences of the raw output (base64) that a session
/// reports, when it decodes.
pub fn analyze_raw_output(raw_b64: &str) -> (r: Option<AnsiReport>)
    ensures
        r is Some <==> base64_decode(raw_b64@) is Some,
        r matches Some(rep) ==> ({
            let data = base64_decode(raw_b64@)->0;
            &&& sequence_views(rep.sequences@) == scan_from(data, 0)
            &&& sequence_views(rep.important@) == important_of(scan_from(data, 0))
            &&& rep.enters_alternate_screen == any_alt_screen(scan_from(data, 0), private_set())
            &&& rep.exits_alternate_screen == any_alt_screen(scan_from(data, 0), private_reset())
        }),
{
    match decode_raw_output(raw_b64) {
        Some(bytes) => Some(analyze_ansi_sequences(bytes.as_slice())),
        None => None,
    }
}


// ───────────────────────── laws of descriptions ─────────────────────────

/// The four cursor movements are described by their direction, followed by
/// their parameters: `A` up, `B` down, `C` forward, `D` back; no two of
/// them read alike.
pub proof fn lemma_cursor_moves_described(ps: Seq<Seq<char>>)
    ensures
        csi_description(ps, 0x41) == seq!['C', 'u', 'r', 's', 'o', 'r', ' ', 'U', 'p', ' '] + join_with(ps, seq![';']),
        csi_description(ps, 0x42) == seq!['C', 'u', 'r', 's', 'o', 'r', ' ', 'D', 'o', 'w', 'n', ' '] + join_with(ps, seq![';']),
        csi_description(ps, 0x43) == seq!['C', 'u', 'r', 's', 'o', 'r', ' ', 'F', 'o', 'r', 'w', 'a', 'r', 'd', ' '] + join_with(ps, seq![';']),
        csi_description(ps, 0x44) == seq!['C', 'u', 'r', 's', 'o', 'r', ' ', 'B', 'a', 'c', 'k', ' '] + join_with(ps, seq![';']),
        forall|a: u8, b: u8|
            0x41 <= a <= 0x44 && 0x41 <= b <= 0x44 && a != b ==> #[trigger] csi_description(ps, a)
                != #[trigger] csi_description(ps, b),
{
    let p = join_with(ps, seq![';']);
    assert forall|a: u8, b: u8|
        0x41 <= a <= 0x44 && 0x41 <= b <= 0x44 && a != b implies #[trigger] csi_description(ps, a)
            != #[trigger] csi_description(ps, b) by {
        let da = csi_description(ps, a);
        let db = csi_description(ps, b);
        assert((seq!['C', 'u', 'r', 's', 'o', 'r', ' ', 'U', 'p', ' '] + p)[7] == 'U');
        assert((seq!['C', 'u', 'r', 's', 'o', 'r', ' ', 'D', 'o', 'w', 'n', ' '] + p)[7] == 'D');
        assert((seq!['C', 'u', 'r', 's', 'o', 'r', ' ', 'F', 'o', 'r', 'w', 'a', 'r', 'd', ' '] + p)[7] == 'F');
        assert((seq!['C', 'u', 'r', 's', 'o', 'r', ' ', 'B', 'a', 'c', 'k', ' '] + p)[7] == 'B');
        assert(da[7] != db[7]);
    }
}

/// A single character occurs in text exactly when some position holds it.
pub proof fn lemma_contains_char(s: Seq<char>, c: char)
    ensures
        contains(s, seq![c]) <==> exists|i: int| 0 <= i < s.len() && s[i] == c,
{
    if contains(s, seq![c]) {
        let i = choose|i: int| crate::text::occurs_at(s, seq![c], i);
        assert(s.subrange(i, i + 1)[0] == s[i]);
    }
    if exists|i: int| 0 <= i < s.len() && s[i] == c {
        let i = choose|i: int| 0 <= i < s.len() && s[i] == c;
        assert(s.subrange(i, i + 1) =~= seq![c]);
        assert(crate::text::occurs_at(s, seq![c], i));
    }
}

/// A screen shows a shell prompt exactly when it holds one of the prompt
/// characters `$`, `#`, `%` (zsh) or `>`.
pub proof fn lemma_shell_prompt_chars(screen: Seq<char>)
    ensures
        shows_shell_prompt(screen) <==> exists|i: int|
            0 <= i < screen.len() && (screen[i] == '$' || screen[i] == '#' || screen[i] == '%'
                || screen[i] == '>'),
{
    lemma_contains_char(screen, '$');
    lemma_contains_char(screen, '#');
    lemma_contains_char(screen, '%');
    lemma_contains_char(screen, '>');
}

} // verus!

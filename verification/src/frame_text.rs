use vstd::prelude::*;
use vstd::utf8::encode_scalar;

use crate::canvas::{grid_offset, plain_style, Canvas, Rgb, Style};
use crate::encoding::{decimal, lemma_decimal_digits};
use crate::terminal::{
    cell_changed, clear_screen, draw_cell, draw_row, draw_rows, effective_style, frame_bytes, frame_job,
    hide_and_reset, lemma_move_begins_with_move, move_to, reset_attributes, style_sequence,
    sync_end, sync_start, DrawState, FrameJob,
};

verus! {

/// A parameter byte of a control sequence: a digit, `:`, `;`, `<`, `=`,
/// `>` or `?`.
pub open spec fn is_parameter_byte(b: u8) -> bool {
    0x30 <= b <= 0x3f
}

/// Whether every byte of `s` is a parameter byte.
pub open spec fn all_parameters(s: Seq<u8>) -> bool {
    forall|i: int| 0 <= i < s.len() ==> is_parameter_byte(#[trigger] s[i])
}

/// The index of the first byte at or after `i` that is not a parameter
/// byte (or the length).
pub open spec fn parameters_end(b: Seq<u8>, i: int) -> int
    decreases b.len() - i,
{
    if 0 <= i < b.len() && is_parameter_byte(b[i]) {
        parameters_end(b, i + 1)
    } else {
        i
    }
}

/// The length of the control sequence that `b` begins with: `ESC [`, the
/// parameter bytes, and one final byte (cut at the end of `b`).
pub open spec fn escape_length(b: Seq<u8>) -> int {
    let end = parameters_end(b, 2) + 1;
    if 1 <= end <= b.len() {
        end
    } else {
        b.len() as int
    }
}

/// The bytes of `b` with every control sequence (from an `ESC`) taken out:
/// what a terminal prints of them as text.
pub open spec fn without_escapes(b: Seq<u8>) -> Seq<u8>
    decreases b.len(),
{
    if b.len() == 0 {
        seq![]
    } else if b[0] == 0x1b {
        without_escapes(b.subrange(escape_length(b), b.len() as int))
    } else {
        seq![b[0]] + without_escapes(b.subrange(1, b.len() as int))
    }
}

/// Whether `c` is one whole control sequence: `ESC [`, parameter bytes,
/// and a final byte that is not a parameter byte.
pub open spec fn is_escape(c: Seq<u8>) -> bool {
    &&& c.len() >= 3
    &&& c[0] == 0x1b
    &&& c[1] == 0x5b
    &&& all_parameters(c.subrange(2, c.len() - 1))
    &&& !is_parameter_byte(c[c.len() - 1])
}

proof fn lemma_parameters_end(c: Seq<u8>, rest: Seq<u8>, i: int)
    requires
        is_escape(c),
        2 <= i <= c.len() - 1,
    ensures
        parameters_end(c + rest, i) == c.len() - 1,
    decreases c.len() - 1 - i,
{
    let b = c + rest;
    if i < c.len() - 1 {
        assert(b[i] == c.subrange(2, c.len() - 1)[i - 2]);
        lemma_parameters_end(c, rest, i + 1);
    } else {
        assert(b[i] == c[c.len() - 1]);
    }
}

/// A whole control sequence leaves no text.
pub proof fn lemma_escape_leaves_no_text(c: Seq<u8>, rest: Seq<u8>)
    requires
        is_escape(c),
    ensures
        without_escapes(c + rest) == without_escapes(rest),
{
    let b = c + rest;
    lemma_parameters_end(c, rest, 2);
    assert(escape_length(b) == c.len());
    assert(b[0] == 0x1b);
    assert(b.subrange(c.len() as int, b.len() as int) =~= rest);
}

proof fn lemma_escape_from_parameters(params: Seq<u8>, last: u8)
    requires
        all_parameters(params),
        !is_parameter_byte(last),
    ensures
        is_escape(seq![0x1bu8, 0x5b] + params + seq![last]),
{
    let c = seq![0x1bu8, 0x5b] + params + seq![last];
    assert(c.subrange(2, c.len() - 1) =~= params);
}

proof fn lemma_all_parameters_concat(a: Seq<u8>, b: Seq<u8>)
    requires
        all_parameters(a),
        all_parameters(b),
    ensures
        all_parameters(a + b),
{
    assert forall|i: int| 0 <= i < (a + b).len() implies is_parameter_byte(#[trigger] (a + b)[i]) by {
        if i < a.len() {
            assert((a + b)[i] == a[i]);
        } else {
            assert((a + b)[i] == b[i - a.len()]);
        }
    }
}

proof fn lemma_decimal_parameters(n: nat)
    ensures
        all_parameters(decimal(n)),
{
    lemma_decimal_digits(n);
}

/// A cursor move is one control sequence.
pub proof fn lemma_move_is_escape(x: nat, y: nat)
    ensures
        is_escape(move_to(x, y)),
{
    lemma_decimal_parameters(y + 1);
    lemma_decimal_parameters(x + 1);
    assert(all_parameters(seq![0x3bu8]));
    lemma_all_parameters_concat(decimal(y + 1), seq![0x3bu8]);
    lemma_all_parameters_concat(decimal(y + 1) + seq![0x3bu8], decimal(x + 1));
    let params = decimal(y + 1) + seq![0x3bu8] + decimal(x + 1);
    lemma_escape_from_parameters(params, 0x48);
    assert(move_to(x, y) =~= seq![0x1bu8, 0x5b] + params + seq![0x48u8]);
}

/// An attribute sequence leaves no text.
pub proof fn lemma_style_leaves_no_text(style: Style, rest: Seq<u8>)
    ensures
        without_escapes(style_sequence(style) + rest) == without_escapes(rest),
{
    let bold = if style.bold {
        seq![0x1bu8, 0x5b, 0x31, 0x6d]
    } else {
        seq![]
    };
    let dim = if style.dim {
        seq![0x1bu8, 0x5b, 0x32, 0x6d]
    } else {
        seq![]
    };
    let color = match style.foreground {
        Some(c) => seq![0x1bu8, 0x5b, 0x33, 0x38, 0x3b, 0x32, 0x3b] + decimal(c.r as nat) + seq![
            0x3bu8,
        ] + decimal(c.g as nat) + seq![0x3bu8] + decimal(c.b as nat) + seq![0x6du8],
        None => seq![],
    };
    assert(style_sequence(style) + rest =~= reset_attributes() + (bold + (dim + (color + rest))));
    lemma_escape_from_parameters(seq![0x30u8], 0x6d);
    assert(reset_attributes() =~= seq![0x1bu8, 0x5b] + seq![0x30u8] + seq![0x6du8]);
    lemma_escape_leaves_no_text(reset_attributes(), bold + (dim + (color + rest)));
    if style.bold {
        lemma_escape_from_parameters(seq![0x31u8], 0x6d);
        assert(bold =~= seq![0x1bu8, 0x5b] + seq![0x31u8] + seq![0x6du8]);
        lemma_escape_leaves_no_text(bold, dim + (color + rest));
    } else {
        assert(bold + (dim + (color + rest)) =~= dim + (color + rest));
    }
    if style.dim {
        lemma_escape_from_parameters(seq![0x32u8], 0x6d);
        assert(dim =~= seq![0x1bu8, 0x5b] + seq![0x32u8] + seq![0x6du8]);
        lemma_escape_leaves_no_text(dim, color + rest);
    } else {
        assert(dim + (color + rest) =~= color + rest);
    }
    match style.foreground {
        Some(c) => {
            let semi = seq![0x3bu8];
            lemma_decimal_parameters(c.r as nat);
            lemma_decimal_parameters(c.g as nat);
            lemma_decimal_parameters(c.b as nat);
            assert(all_parameters(seq![0x33u8, 0x38, 0x3b, 0x32, 0x3b]));
            assert(all_parameters(semi));
            lemma_all_parameters_concat(seq![0x33u8, 0x38, 0x3b, 0x32, 0x3b], decimal(c.r as nat));
            let p1 = seq![0x33u8, 0x38, 0x3b, 0x32, 0x3b] + decimal(c.r as nat);
            lemma_all_parameters_concat(p1, semi);
            lemma_all_parameters_concat(p1 + semi, decimal(c.g as nat));
            lemma_all_parameters_concat(p1 + semi + decimal(c.g as nat), semi);
            lemma_all_parameters_concat(p1 + semi + decimal(c.g as nat) + semi, decimal(c.b as nat));
            let params = p1 + semi + decimal(c.g as nat) + semi + decimal(c.b as nat);
            lemma_escape_from_parameters(params, 0x6d);
            assert(color =~= seq![0x1bu8, 0x5b] + params + seq![0x6du8]);
            lemma_escape_leaves_no_text(color, rest);
        },
        None => {
            assert(color + rest =~= rest);
        },
    }
}

/// The opening and closing sequences of a frame leave no text.
pub proof fn lemma_frame_sequences_leave_no_text(rest: Seq<u8>)
    ensures
        without_escapes(sync_start() + rest) == without_escapes(rest),
        without_escapes(hide_and_reset() + rest) == without_escapes(rest),
        without_escapes(clear_screen() + rest) == without_escapes(rest),
        without_escapes(reset_attributes() + rest) == without_escapes(rest),
        without_escapes(sync_end() + rest) == without_escapes(rest),
{
    let sync_params = seq![0x3fu8, 0x32, 0x30, 0x32, 0x36];
    assert(all_parameters(sync_params));
    lemma_escape_from_parameters(sync_params, 0x68);
    lemma_escape_from_parameters(sync_params, 0x6c);
    assert(sync_start() =~= seq![0x1bu8, 0x5b] + sync_params + seq![0x68u8]);
    assert(sync_end() =~= seq![0x1bu8, 0x5b] + sync_params + seq![0x6cu8]);
    lemma_escape_leaves_no_text(sync_start(), rest);
    lemma_escape_leaves_no_text(sync_end(), rest);
    lemma_escape_from_parameters(seq![0x30u8], 0x6d);
    assert(reset_attributes() =~= seq![0x1bu8, 0x5b] + seq![0x30u8] + seq![0x6du8]);
    lemma_escape_leaves_no_text(reset_attributes(), rest);
    lemma_escape_from_parameters(seq![0x32u8], 0x4a);
    assert(clear_screen() =~= seq![0x1bu8, 0x5b] + seq![0x32u8] + seq![0x4au8]);
    lemma_escape_leaves_no_text(clear_screen(), rest);
    let hide_params = seq![0x3fu8, 0x32, 0x35];
    assert(all_parameters(hide_params));
    lemma_escape_from_parameters(hide_params, 0x6c);
    let hide = seq![0x1bu8, 0x5b] + hide_params + seq![0x6cu8];
    assert(hide_and_reset() + rest =~= hide + (reset_attributes() + rest));
    lemma_escape_leaves_no_text(hide, reset_attributes() + rest);
}

/// Bytes without an `ESC` are kept as they are.
pub proof fn lemma_plain_bytes_are_text(t: Seq<u8>, rest: Seq<u8>)
    requires
        forall|i: int| 0 <= i < t.len() ==> #[trigger] t[i] != 0x1b,
    ensures
        without_escapes(t + rest) == t + without_escapes(rest),
    decreases t.len(),
{
    if t.len() > 0 {
        let tail = t.subrange(1, t.len() as int);
        lemma_plain_bytes_are_text(tail, rest);
        let b = t + rest;
        assert(b[0] == t[0]);
        assert(b.subrange(1, b.len() as int) =~= tail + rest);
        assert(t =~= seq![t[0]] + tail);
    } else {
        assert(t + rest =~= rest);
    }
}

/// The UTF-8 bytes of a character other than `ESC` hold no `ESC`.
proof fn lemma_encoding_has_no_escape(c: char)
    requires
        c as u32 != 0x1b,
    ensures
        forall|i: int|
            0 <= i < encode_scalar(c as u32).len() ==> #[trigger] encode_scalar(c as u32)[i] != 0x1b,
{
    let v = c as u32;
    let e = encode_scalar(v);
    assert(v <= 0x7F ==> (v & 0x7F) as u8 == v) by (bit_vector);
    assert(forall|w: u32| #![auto] (0x80u8 | ((w & 0x3F) as u8)) >= 0x80) by (bit_vector);
    assert(forall|w: u32| #![auto] (0x80u8 | (((w >> 6) & 0x3F) as u8)) >= 0x80) by (bit_vector);
    assert(forall|w: u32| #![auto] (0x80u8 | (((w >> 12) & 0x3F) as u8)) >= 0x80) by (bit_vector);
    assert(forall|w: u32| #![auto] (0xC0u8 | (((w >> 6) & 0x1F) as u8)) >= 0xC0) by (bit_vector);
    assert(forall|w: u32| #![auto] (0xE0u8 | (((w >> 12) & 0x0F) as u8)) >= 0xE0) by (bit_vector);
    assert(forall|w: u32| #![auto] (0xF0u8 | (((w >> 18) & 0x7) as u8)) >= 0xF0) by (bit_vector);
}

/// A character other than `ESC` is text: its UTF-8 bytes are kept.
pub proof fn lemma_glyph_is_text(c: char, rest: Seq<u8>)
    requires
        c as u32 != 0x1b,
    ensures
        without_escapes(encode_scalar(c as u32) + rest) == encode_scalar(c as u32)
            + without_escapes(rest),
{
    lemma_encoding_has_no_escape(c);
    lemma_plain_bytes_are_text(encode_scalar(c as u32), rest);
}

/// Whether `b` holds the screen-erase sequence `ESC [ 2 J` nowhere.
pub open spec fn holds_no_erase(b: Seq<u8>) -> bool {
    forall|i: int| 0 <= i && i + 4 <= b.len() ==> #[trigger] b.subrange(i, i + 4) != clear_screen()
}

/// Whether every `ESC` of `b` begins four bytes of `b` that are not the
/// erase sequence; such pieces can be put together without forming one.
pub open spec fn escapes_not_erase(b: Seq<u8>) -> bool {
    forall|i: int|
        0 <= i < b.len() && #[trigger] b[i] == 0x1b ==> i + 4 <= b.len() && b.subrange(i, i + 4)
            != clear_screen()
}

proof fn lemma_no_erase(b: Seq<u8>)
    requires
        escapes_not_erase(b),
    ensures
        holds_no_erase(b),
{
    assert forall|i: int| 0 <= i && i + 4 <= b.len() implies #[trigger] b.subrange(i, i + 4)
        != clear_screen() by {
        if b.subrange(i, i + 4) == clear_screen() {
            assert(b[i] == b.subrange(i, i + 4)[0]);
        }
    }
}

proof fn lemma_escapes_not_erase_concat(a: Seq<u8>, b: Seq<u8>)
    requires
        escapes_not_erase(a),
        escapes_not_erase(b),
    ensures
        escapes_not_erase(a + b),
{
    let c = a + b;
    assert forall|i: int| 0 <= i < c.len() && #[trigger] c[i] == 0x1b implies i + 4 <= c.len()
        && c.subrange(i, i + 4) != clear_screen() by {
        if i < a.len() {
            assert(a[i] == 0x1b);
            assert(c.subrange(i, i + 4) =~= a.subrange(i, i + 4));
        } else {
            assert(b[i - a.len()] == 0x1b);
            assert(c.subrange(i, i + 4) =~= b.subrange(i - a.len(), i - a.len() + 4));
        }
    }
}

proof fn lemma_plain_bytes_not_erase(b: Seq<u8>)
    requires
        forall|i: int| 0 <= i < b.len() ==> #[trigger] b[i] != 0x1b,
    ensures
        escapes_not_erase(b),
{
}

/// A control sequence that is not the erase sequence and whose final byte
/// is not `ESC` holds the `ESC` only at its start.
proof fn lemma_escape_not_erase(c: Seq<u8>)
    requires
        is_escape(c),
        c.len() >= 4,
        c[c.len() - 1] != 0x1b,
        c[2] != 0x32 || c[3] != 0x4a,
    ensures
        escapes_not_erase(c),
{
    assert forall|i: int| 0 <= i < c.len() && #[trigger] c[i] == 0x1b implies i + 4 <= c.len()
        && c.subrange(i, i + 4) != clear_screen() by {
        if 2 <= i < c.len() - 1 {
            assert(c[i] == c.subrange(2, c.len() - 1)[i - 2]);
        }
        assert(i == 0);
        assert(c.subrange(0, 4)[2] == c[2] && c.subrange(0, 4)[3] == c[3]);
        assert(clear_screen()[2] == 0x32 && clear_screen()[3] == 0x4a);
    }
}

proof fn lemma_move_not_erase(x: nat, y: nat)
    ensures
        escapes_not_erase(move_to(x, y)),
{
    lemma_move_is_escape(x, y);
    lemma_move_begins_with_move(x, y);
    let m = move_to(x, y);
    assert(m =~= seq![0x1bu8, 0x5b] + decimal(y + 1) + seq![0x3bu8] + decimal(x + 1) + seq![0x48u8]);
    assert(m[m.len() - 1] == 0x48);
    lemma_escape_not_erase(m);
}

proof fn lemma_style_not_erase(style: Style)
    ensures
        escapes_not_erase(style_sequence(style)),
{
    let bold: Seq<u8> = if style.bold {
        seq![0x1bu8, 0x5b, 0x31, 0x6d]
    } else {
        seq![]
    };
    let dim: Seq<u8> = if style.dim {
        seq![0x1bu8, 0x5b, 0x32, 0x6d]
    } else {
        seq![]
    };
    let color: Seq<u8> = match style.foreground {
        Some(c) => seq![0x1bu8, 0x5b, 0x33, 0x38, 0x3b, 0x32, 0x3b] + decimal(c.r as nat) + seq![
            0x3bu8,
        ] + decimal(c.g as nat) + seq![0x3bu8] + decimal(c.b as nat) + seq![0x6du8],
        None => seq![],
    };
    assert(style_sequence(style) =~= reset_attributes() + bold + dim + color);
    lemma_escape_from_parameters(seq![0x30u8], 0x6d);
    assert(reset_attributes() =~= seq![0x1bu8, 0x5b] + seq![0x30u8] + seq![0x6du8]);
    lemma_escape_not_erase(reset_attributes());
    if style.bold {
        lemma_escape_from_parameters(seq![0x31u8], 0x6d);
        assert(bold =~= seq![0x1bu8, 0x5b] + seq![0x31u8] + seq![0x6du8]);
        lemma_escape_not_erase(bold);
    }
    if style.dim {
        lemma_escape_from_parameters(seq![0x32u8], 0x6d);
        assert(dim =~= seq![0x1bu8, 0x5b] + seq![0x32u8] + seq![0x6du8]);
        lemma_escape_not_erase(dim);
    }
    match style.foreground {
        Some(c) => {
            let semi = seq![0x3bu8];
            lemma_decimal_parameters(c.r as nat);
            lemma_decimal_parameters(c.g as nat);
            lemma_decimal_parameters(c.b as nat);
            assert(all_parameters(seq![0x33u8, 0x38, 0x3b, 0x32, 0x3b]));
            assert(all_parameters(semi));
            lemma_all_parameters_concat(seq![0x33u8, 0x38, 0x3b, 0x32, 0x3b], decimal(c.r as nat));
            let p1 = seq![0x33u8, 0x38, 0x3b, 0x32, 0x3b] + decimal(c.r as nat);
            lemma_all_parameters_concat(p1, semi);
            lemma_all_parameters_concat(p1 + semi, decimal(c.g as nat));
            lemma_all_parameters_concat(p1 + semi + decimal(c.g as nat), semi);
            lemma_all_parameters_concat(p1 + semi + decimal(c.g as nat) + semi, decimal(c.b as nat));
            let params = p1 + semi + decimal(c.g as nat) + semi + decimal(c.b as nat);
            lemma_escape_from_parameters(params, 0x6d);
            assert(color =~= seq![0x1bu8, 0x5b] + params + seq![0x6du8]);
            assert(color[2] == 0x33);
            lemma_escape_not_erase(color);
        },
        None => {},
    }
    lemma_escapes_not_erase_concat(reset_attributes(), bold);
    lemma_escapes_not_erase_concat(reset_attributes() + bold, dim);
    lemma_escapes_not_erase_concat(reset_attributes() + bold + dim, color);
}

/// The UTF-8 bytes of the glyph at (`x`, `y`) when the frame draws that
/// cell, and nothing otherwise.
pub open spec fn drawn_glyph(job: FrameJob, x: int, y: int) -> Seq<u8> {
    if cell_changed(job, x, y) {
        encode_scalar(job.cells[grid_offset(job.width as int, x, y)].glyph as u32)
    } else {
        seq![]
    }
}

/// The glyphs drawn in row `y` from column `x` to the end of the row.
pub open spec fn row_text(job: FrameJob, y: int, x: int) -> Seq<u8>
    decreases job.width - x,
{
    if x < 0 || x >= job.width {
        seq![]
    } else {
        drawn_glyph(job, x, y) + row_text(job, y, x + 1)
    }
}

/// The glyphs drawn in the rows from row `y` to the bottom, row by row.
pub open spec fn rows_text(job: FrameJob, y: int) -> Seq<u8>
    decreases job.height - y,
{
    if y < 0 || y >= job.height {
        seq![]
    } else {
        row_text(job, y, 0) + rows_text(job, y + 1)
    }
}

/// No cell that the frame draws holds the `ESC` character.
pub open spec fn draws_no_escape(job: FrameJob) -> bool {
    forall|x: int, y: int|
        0 <= x < job.width && 0 <= y < job.height && cell_changed(job, x, y) ==> (#[trigger] job.cells[grid_offset(
            job.width as int,
            x,
            y,
        )]).glyph as u32 != 0x1b
}

/// The bytes that drawing appended after the bytes of `from`.
pub open spec fn appended(from: DrawState, to: DrawState) -> Seq<u8> {
    to.2.subrange(from.2.len() as int, to.2.len() as int)
}

#[verifier::rlimit(40)]
proof fn lemma_cell_text(job: FrameJob, state: DrawState, x: u16, y: u16, rest: Seq<u8>)
    requires
        cell_changed(job, x as int, y as int) ==> job.cells[grid_offset(
            job.width as int,
            x as int,
            y as int,
        )].glyph as u32 != 0x1b,
    ensures
        ({
            let next = draw_cell(job, state, x, y);
            &&& next.2.len() >= state.2.len()
            &&& next.2.subrange(0, state.2.len() as int) == state.2
            &&& without_escapes(appended(state, next) + rest) == drawn_glyph(job, x as int, y as int)
                + without_escapes(rest)
        }),
{
    let next = draw_cell(job, state, x, y);
    if cell_changed(job, x as int, y as int) {
        let cell = job.cells[grid_offset(job.width as int, x as int, y as int)];
        let (cursor, active, bytes) = state;
        let style = effective_style(cell.style, job.colored);
        let enc = encode_scalar(cell.glyph as u32);
        let mv: Seq<u8> = if cursor == Some((x, y)) {
            seq![]
        } else {
            move_to(x as nat, y as nat)
        };
        let st: Seq<u8> = if style != active {
            style_sequence(style)
        } else {
            seq![]
        };
        assert(next.2 =~= bytes + (mv + st + enc));
        assert(next.2.subrange(0, bytes.len() as int) =~= bytes);
        assert(appended(state, next) + rest =~= mv + (st + (enc + rest)));
        lemma_glyph_is_text(cell.glyph, rest);
        if style != active {
            lemma_style_leaves_no_text(style, enc + rest);
        } else {
            assert(st + (enc + rest) =~= enc + rest);
        }
        if cursor != Some((x, y)) {
            lemma_move_is_escape(x as nat, y as nat);
            lemma_escape_leaves_no_text(mv, st + (enc + rest));
        } else {
            assert(mv + (st + (enc + rest)) =~= st + (enc + rest));
        }
    } else {
        assert(state.2.subrange(0, state.2.len() as int) =~= state.2);
        assert(appended(state, next) + rest =~= rest);
        assert(drawn_glyph(job, x as int, y as int) + without_escapes(rest) =~= without_escapes(rest));
    }
}

proof fn lemma_row_text(job: FrameJob, state: DrawState, y: u16, x: int, rest: Seq<u8>)
    requires
        draws_no_escape(job),
        y < job.height,
        job.width <= u16::MAX,
    ensures
        ({
            let next = draw_row(job, state, y, x);
            &&& next.2.len() >= state.2.len()
            &&& next.2.subrange(0, state.2.len() as int) == state.2
            &&& without_escapes(appended(state, next) + rest) == row_text(job, y as int, x)
                + without_escapes(rest)
        }),
    decreases job.width - x,
{
    let next = draw_row(job, state, y, x);
    if 0 <= x < job.width {
        let mid = draw_cell(job, state, x as u16, y);
        let tail = appended(mid, next);
        lemma_cell_text(job, mid, x as u16, y, rest);
        lemma_cell_text(job, state, x as u16, y, tail + rest);
        lemma_row_text(job, mid, y, x + 1, rest);
        assert(next.2.subrange(0, state.2.len() as int) =~= mid.2.subrange(0, state.2.len() as int));
        assert(appended(state, next) =~= appended(state, mid) + tail);
        assert(appended(state, next) + rest =~= appended(state, mid) + (tail + rest));
        assert(row_text(job, y as int, x) == drawn_glyph(job, x, y as int) + row_text(job, y as int, x + 1));
        assert(drawn_glyph(job, x, y as int) + (row_text(job, y as int, x + 1) + without_escapes(rest))
            =~= row_text(job, y as int, x) + without_escapes(rest));
    } else {
        assert(state.2.subrange(0, state.2.len() as int) =~= state.2);
        assert(appended(state, next) + rest =~= rest);
        assert(row_text(job, y as int, x) + without_escapes(rest) =~= without_escapes(rest));
    }
}

proof fn lemma_rows_text(job: FrameJob, state: DrawState, y: int, rest: Seq<u8>)
    requires
        draws_no_escape(job),
        job.width <= u16::MAX,
        job.height <= u16::MAX,
    ensures
        ({
            let next = draw_rows(job, state, y);
            &&& next.2.len() >= state.2.len()
            &&& next.2.subrange(0, state.2.len() as int) == state.2
            &&& without_escapes(appended(state, next) + rest) == rows_text(job, y)
                + without_escapes(rest)
        }),
    decreases job.height - y,
{
    let next = draw_rows(job, state, y);
    if 0 <= y < job.height {
        let mid = draw_row(job, state, y as u16, 0);
        let tail = appended(mid, next);
        lemma_rows_text(job, mid, y + 1, rest);
        lemma_row_text(job, state, y as u16, 0, tail + rest);
        assert(next.2.subrange(0, state.2.len() as int) =~= mid.2.subrange(0, state.2.len() as int));
        assert(appended(state, next) =~= appended(state, mid) + tail);
        assert(appended(state, next) + rest =~= appended(state, mid) + (tail + rest));
        assert(row_text(job, (y as u16) as int, 0) + (rows_text(job, y + 1) + without_escapes(rest))
            =~= rows_text(job, y) + without_escapes(rest));
    } else {
        assert(state.2.subrange(0, state.2.len() as int) =~= state.2);
        assert(appended(state, next) + rest =~= rest);
        assert(rows_text(job, y) + without_escapes(rest) =~= without_escapes(rest));
    }
}

proof fn lemma_cell_no_erase(job: FrameJob, state: DrawState, x: u16, y: u16)
    requires
        cell_changed(job, x as int, y as int) ==> job.cells[grid_offset(
            job.width as int,
            x as int,
            y as int,
        )].glyph as u32 != 0x1b,
    ensures
        escapes_not_erase(appended(state, draw_cell(job, state, x, y))),
{
    let next = draw_cell(job, state, x, y);
    if cell_changed(job, x as int, y as int) {
        let cell = job.cells[grid_offset(job.width as int, x as int, y as int)];
        let (cursor, active, bytes) = state;
        let style = effective_style(cell.style, job.colored);
        let enc = encode_scalar(cell.glyph as u32);
        let mv: Seq<u8> = if cursor == Some((x, y)) {
            seq![]
        } else {
            move_to(x as nat, y as nat)
        };
        let st: Seq<u8> = if style != active {
            style_sequence(style)
        } else {
            seq![]
        };
        assert(appended(state, next) =~= mv + st + enc);
        if cursor != Some((x, y)) {
            lemma_move_not_erase(x as nat, y as nat);
        }
        if style != active {
            lemma_style_not_erase(style);
        }
        lemma_encoding_has_no_escape(cell.glyph);
        lemma_plain_bytes_not_erase(enc);
        lemma_escapes_not_erase_concat(mv, st);
        lemma_escapes_not_erase_concat(mv + st, enc);
    } else {
        assert(appended(state, next) =~= seq![]);
    }
}

proof fn lemma_row_no_erase(job: FrameJob, state: DrawState, y: u16, x: int)
    requires
        draws_no_escape(job),
        y < job.height,
        job.width <= u16::MAX,
    ensures
        escapes_not_erase(appended(state, draw_row(job, state, y, x))),
    decreases job.width - x,
{
    let next = draw_row(job, state, y, x);
    if 0 <= x < job.width {
        let mid = draw_cell(job, state, x as u16, y);
        lemma_cell_text(job, state, x as u16, y, seq![]);
        lemma_row_text(job, mid, y, x + 1, seq![]);
        lemma_cell_no_erase(job, state, x as u16, y);
        lemma_row_no_erase(job, mid, y, x + 1);
        assert(appended(state, next) =~= appended(state, mid) + appended(mid, next));
        lemma_escapes_not_erase_concat(appended(state, mid), appended(mid, next));
    } else {
        assert(appended(state, next) =~= seq![]);
    }
}

proof fn lemma_rows_no_erase(job: FrameJob, state: DrawState, y: int)
    requires
        draws_no_escape(job),
        job.width <= u16::MAX,
        job.height <= u16::MAX,
    ensures
        escapes_not_erase(appended(state, draw_rows(job, state, y))),
    decreases job.height - y,
{
    let next = draw_rows(job, state, y);
    if 0 <= y < job.height {
        let mid = draw_row(job, state, y as u16, 0);
        lemma_row_text(job, state, y as u16, 0, seq![]);
        lemma_rows_text(job, mid, y + 1, seq![]);
        lemma_row_no_erase(job, state, y as u16, 0);
        lemma_rows_no_erase(job, mid, y + 1);
        assert(appended(state, next) =~= appended(state, mid) + appended(mid, next));
        lemma_escapes_not_erase_concat(appended(state, mid), appended(mid, next));
    } else {
        assert(appended(state, next) =~= seq![]);
    }
}

/// A frame that is not a full redraw holds the screen-erase sequence
/// nowhere, when no cell it draws holds the `ESC` character itself.
pub proof fn lemma_partial_frame_never_erases(job: FrameJob)
    requires
        job.width <= u16::MAX,
        job.height <= u16::MAX,
        draws_no_escape(job),
        !job.full,
    ensures
        holds_no_erase(frame_bytes(job)),
{
    let init: DrawState = (None, plain_style(), seq![]);
    let body = draw_rows(job, init, 0).2;
    lemma_rows_no_erase(job, init, 0);
    assert(appended(init, draw_rows(job, init, 0)) =~= body);
    let sync_params = seq![0x3fu8, 0x32, 0x30, 0x32, 0x36];
    assert(all_parameters(sync_params));
    lemma_escape_from_parameters(sync_params, 0x68);
    lemma_escape_from_parameters(sync_params, 0x6c);
    assert(sync_start() =~= seq![0x1bu8, 0x5b] + sync_params + seq![0x68u8]);
    assert(sync_end() =~= seq![0x1bu8, 0x5b] + sync_params + seq![0x6cu8]);
    lemma_escape_not_erase(sync_start());
    lemma_escape_not_erase(sync_end());
    let hide_params = seq![0x3fu8, 0x32, 0x35];
    assert(all_parameters(hide_params));
    lemma_escape_from_parameters(hide_params, 0x6c);
    let hide = seq![0x1bu8, 0x5b] + hide_params + seq![0x6cu8];
    lemma_escape_not_erase(hide);
    lemma_escape_from_parameters(seq![0x30u8], 0x6d);
    assert(reset_attributes() =~= seq![0x1bu8, 0x5b] + seq![0x30u8] + seq![0x6du8]);
    lemma_escape_not_erase(reset_attributes());
    assert(hide_and_reset() =~= hide + reset_attributes());
    lemma_escapes_not_erase_concat(hide, reset_attributes());
    assert(frame_bytes(job) =~= sync_start() + hide_and_reset() + body + reset_attributes()
        + sync_end());
    lemma_escapes_not_erase_concat(sync_start(), hide_and_reset());
    lemma_escapes_not_erase_concat(sync_start() + hide_and_reset(), body);
    lemma_escapes_not_erase_concat(sync_start() + hide_and_reset() + body, reset_attributes());
    lemma_escapes_not_erase_concat(
        sync_start() + hide_and_reset() + body + reset_attributes(),
        sync_end(),
    );
    lemma_no_erase(frame_bytes(job));
}

/// Taken out of its escape sequences, a frame is exactly the glyphs of the
/// cells it draws, in row-major order: every cell on a full redraw, and
/// otherwise only the cells that differ from the frame before, so cells
/// that did not change are not sent again. This holds when no drawn cell
/// holds the `ESC` character itself.
pub proof fn lemma_frame_text(job: FrameJob)
    requires
        job.width <= u16::MAX,
        job.height <= u16::MAX,
        draws_no_escape(job),
    ensures
        without_escapes(frame_bytes(job)) == rows_text(job, 0),
{
    let init: DrawState = (None, plain_style(), seq![]);
    let body = draw_rows(job, init, 0).2;
    let tail = reset_attributes() + sync_end();
    lemma_rows_text(job, init, 0, tail);
    assert(appended(init, draw_rows(job, init, 0)) =~= body);
    lemma_frame_sequences_leave_no_text(sync_end());
    lemma_frame_sequences_leave_no_text(seq![]);
    assert(without_escapes(seq![]) =~= seq![]);
    assert(sync_end() + seq![] =~= sync_end());
    assert(without_escapes(tail) =~= seq![]);
    let clear: Seq<u8> = if job.full {
        clear_screen()
    } else {
        seq![]
    };
    let after_hide = clear + (body + tail);
    assert(frame_bytes(job) =~= sync_start() + (hide_and_reset() + after_hide));
    lemma_frame_sequences_leave_no_text(hide_and_reset() + after_hide);
    lemma_frame_sequences_leave_no_text(after_hide);
    if job.full {
        lemma_frame_sequences_leave_no_text(body + tail);
    } else {
        assert(after_hide =~= body + tail);
    }
    assert(rows_text(job, 0) + without_escapes(tail) =~= rows_text(job, 0));
}

/// After a frame of a canvas of the same size in the same colour mode, the
/// text of what `Renderer::render` writes is the glyphs of exactly the
/// cells that differ from the canvas shown before, row by row, left to
/// right, and the screen is not erased anywhere in it (when none of those
/// cells holds `ESC`).
pub proof fn lemma_render_sends_changed_cells(
    shown: Canvas,
    previous_colored: bool,
    canvas: Canvas,
    colored: bool,
)
    requires
        shown.wf(),
        canvas.wf(),
        shown.w() == canvas.w(),
        shown.h() == canvas.h(),
        colored == previous_colored,
        forall|x: int, y: int|
            canvas.in_bounds(x, y) && shown.at(x, y) != canvas.at(x, y) ==> (#[trigger] canvas.at(
                x,
                y,
            )).glyph as u32 != 0x1b,
    ensures
        ({
            let job = frame_job(Some(shown), previous_colored, canvas, colored);
            &&& !job.full
            &&& forall|x: int, y: int|
                canvas.in_bounds(x, y) ==> (cell_changed(job, x, y) <==> shown.at(x, y)
                    != canvas.at(x, y))
            &&& without_escapes(frame_bytes(job)) == rows_text(job, 0)
            &&& holds_no_erase(frame_bytes(job))
        }),
{
    let job = frame_job(Some(shown), previous_colored, canvas, colored);
    assert forall|x: int, y: int|
        0 <= x < job.width && 0 <= y < job.height && cell_changed(job, x, y) implies (#[trigger] job.cells[grid_offset(
        job.width as int,
        x,
        y,
    )]).glyph as u32 != 0x1b by {
        assert(canvas.at(x, y) == job.cells[grid_offset(job.width as int, x, y)]);
    }
    lemma_frame_text(job);
    lemma_partial_frame_never_erases(job);
}

/// The number written in the ASCII digits `d` (0 when there are none).
pub open spec fn digits_number(d: Seq<u8>) -> int
    decreases d.len(),
{
    if d.len() == 0 {
        0
    } else {
        digits_number(d.drop_last()) * 10 + (d.last() - 0x30)
    }
}

/// A parameter of a cursor move as a terminal reads it: the number, with a
/// missing or zero parameter read as 1.
pub open spec fn move_parameter(d: Seq<u8>) -> int {
    if digits_number(d) <= 0 {
        1
    } else {
        digits_number(d)
    }
}

/// The index of the first `;` of `s` at or after `i`, or the length.
pub open spec fn semicolon_index(s: Seq<u8>, i: int) -> int
    decreases s.len() - i,
{
    if i < 0 || i >= s.len() {
        s.len() as int
    } else if s[i] == 0x3b {
        i
    } else {
        semicolon_index(s, i + 1)
    }
}

/// Where a terminal's cursor, at (column, row) `cursor`, is after the whole
/// control sequence `c`: `ESC [ row ; column H` moves it to that 1-based row
/// and column; any other sequence leaves it where it is.
pub open spec fn cursor_after_escape(c: Seq<u8>, cursor: (int, int)) -> (int, int) {
    if c.len() >= 3 && c[c.len() - 1] == 0x48 {
        let params = c.subrange(2, c.len() - 1);
        let k = semicolon_index(params, 0);
        let row = move_parameter(params.subrange(0, k));
        let column = if k < params.len() {
            move_parameter(params.subrange(k + 1, params.len() as int))
        } else {
            1
        };
        (column - 1, row - 1)
    } else {
        cursor
    }
}

/// The attributes with no colour, no bold and no dim.
pub open spec fn no_attributes() -> Style {
    Style { foreground: None, bold: false, dim: false }
}

/// The attributes a terminal prints with after the whole control sequence
/// `c`, when it printed with `attrs` before: `ESC [ 0 m` (or `ESC [ m`)
/// resets them, `ESC [ 1 m` turns bold on, `ESC [ 2 m` turns dim on,
/// `ESC [ 38 ; 2 ; r ; g ; b m` sets the 24-bit foreground colour; any
/// other sequence leaves them as they were.
pub open spec fn attributes_after_escape(c: Seq<u8>, attrs: Style) -> Style {
    if c.len() >= 3 && c[c.len() - 1] == 0x6d {
        let p = c.subrange(2, c.len() - 1);
        if p.len() == 0 || p == seq![0x30u8] {
            no_attributes()
        } else if p == seq![0x31u8] {
            Style { bold: true, ..attrs }
        } else if p == seq![0x32u8] {
            Style { dim: true, ..attrs }
        } else if p.len() > 5 && p.subrange(0, 5) == seq![0x33u8, 0x38, 0x3b, 0x32, 0x3b] {
            let rest = p.subrange(5, p.len() as int);
            let k1 = semicolon_index(rest, 0);
            let k2 = semicolon_index(rest, k1 + 1);
            let r = digits_number(rest.subrange(0, k1));
            let g = digits_number(rest.subrange(k1 + 1, k2));
            let b = digits_number(rest.subrange(k2 + 1, rest.len() as int));
            if k2 < rest.len() && 0 <= r < 256 && 0 <= g < 256 && 0 <= b < 256 {
                Style { foreground: Some(Rgb { r: r as u8, g: g as u8, b: b as u8 }), ..attrs }
            } else {
                attrs
            }
        } else {
            attrs
        }
    } else {
        attrs
    }
}

/// Whether `b` continues a UTF-8 character rather than beginning one.
pub open spec fn is_continuation_byte(b: u8) -> bool {
    0x80 <= b < 0xc0
}

/// What a terminal does with `bytes` when its cursor starts at (column,
/// row) `cursor` and it prints with the attributes `attrs`: each byte it
/// prints, with the cell it goes to and the attributes it is printed with.
/// A control sequence prints nothing and may move the cursor or change the
/// attributes; a byte that begins a character goes to the cursor's cell and
/// moves the cursor one column to the right; a continuation byte goes to
/// the cell of the character it continues.
pub open spec fn terminal_writes(bytes: Seq<u8>, cursor: (int, int), attrs: Style) -> Seq<
    (int, int, u8, Style),
>
    decreases bytes.len(),
{
    if bytes.len() == 0 {
        seq![]
    } else if bytes[0] == 0x1b {
        let n = escape_length(bytes);
        terminal_writes(
            bytes.subrange(n, bytes.len() as int),
            cursor_after_escape(bytes.subrange(0, n), cursor),
            attributes_after_escape(bytes.subrange(0, n), attrs),
        )
    } else if is_continuation_byte(bytes[0]) {
        seq![(cursor.0 - 1, cursor.1, bytes[0], attrs)] + terminal_writes(
            bytes.subrange(1, bytes.len() as int),
            cursor,
            attrs,
        )
    } else {
        seq![(cursor.0, cursor.1, bytes[0], attrs)] + terminal_writes(
            bytes.subrange(1, bytes.len() as int),
            (cursor.0 + 1, cursor.1),
            attrs,
        )
    }
}

/// The bytes `bytes` all printed at cell (`x`, `y`) with the attributes
/// `attrs`.
pub open spec fn writes_at(x: int, y: int, bytes: Seq<u8>, attrs: Style) -> Seq<
    (int, int, u8, Style),
> {
    Seq::new(bytes.len(), |i: int| (x, y, bytes[i], attrs))
}

proof fn lemma_escape_moves_cursor(c: Seq<u8>, rest: Seq<u8>, cursor: (int, int), attrs: Style)
    requires
        is_escape(c),
    ensures
        terminal_writes(c + rest, cursor, attrs) == terminal_writes(
            rest,
            cursor_after_escape(c, cursor),
            attributes_after_escape(c, attrs),
        ),
{
    let b = c + rest;
    lemma_parameters_end(c, rest, 2);
    assert(escape_length(b) == c.len());
    assert(b[0] == 0x1b);
    assert(b.subrange(c.len() as int, b.len() as int) =~= rest);
    assert(b.subrange(0, c.len() as int) =~= c);
}

proof fn lemma_digits_number_of_decimal(n: nat)
    ensures
        digits_number(decimal(n)) == n,
    decreases n,
{
    let d = decimal(n);
    if n >= 10 {
        lemma_digits_number_of_decimal(n / 10);
        assert(d.drop_last() =~= decimal(n / 10));
        assert(d.last() == (0x30 + n % 10) as u8);
        assert(d.last() - 0x30 == n % 10);
        assert(digits_number(d) == digits_number(decimal(n / 10)) * 10 + n % 10);
        assert((n / 10) * 10 + n % 10 == n);
    } else {
        assert(d.drop_last() =~= Seq::<u8>::empty());
        assert(d.last() == (0x30 + n) as u8);
        assert(digits_number(d) == digits_number(Seq::<u8>::empty()) * 10 + (d.last() - 0x30));
    }
}

proof fn lemma_semicolon_index(a: Seq<u8>, b: Seq<u8>, i: int)
    requires
        0 <= i <= a.len(),
        forall|j: int| 0 <= j < a.len() ==> #[trigger] a[j] != 0x3b,
    ensures
        semicolon_index(a + seq![0x3bu8] + b, i) == a.len(),
    decreases a.len() - i,
{
    let s = a + seq![0x3bu8] + b;
    if i < a.len() {
        assert(s[i] == a[i]);
        lemma_semicolon_index(a, b, i + 1);
    } else {
        assert(s[i] == 0x3b);
    }
}

/// A cursor move puts the cursor at its cell, wherever it was.
pub proof fn lemma_move_puts_cursor(x: nat, y: nat, cursor: (int, int))
    ensures
        cursor_after_escape(move_to(x, y), cursor) == (x as int, y as int),
{
    let row = decimal(y + 1);
    let column = decimal(x + 1);
    let m = move_to(x, y);
    let params = row + seq![0x3bu8] + column;
    assert(m =~= seq![0x1bu8, 0x5b] + params + seq![0x48u8]);
    assert(m.subrange(2, m.len() - 1) =~= params);
    lemma_decimal_digits(y + 1);
    lemma_semicolon_index(row, column, 0);
    assert(params.subrange(0, row.len() as int) =~= row);
    assert(params.subrange(row.len() as int + 1, params.len() as int) =~= column);
    lemma_digits_number_of_decimal(y + 1);
    lemma_digits_number_of_decimal(x + 1);
}

proof fn lemma_semicolon_at(s: Seq<u8>, start: int, end: int)
    requires
        0 <= start <= end < s.len(),
        s[end] == 0x3b,
        forall|j: int| start <= j < end ==> #[trigger] s[j] != 0x3b,
    ensures
        semicolon_index(s, start) == end,
    decreases end - start,
{
    if start < end {
        lemma_semicolon_at(s, start + 1, end);
    }
}

proof fn lemma_no_semicolon(s: Seq<u8>, start: int)
    requires
        0 <= start <= s.len(),
        forall|j: int| start <= j < s.len() ==> #[trigger] s[j] != 0x3b,
    ensures
        semicolon_index(s, start) == s.len(),
    decreases s.len() - start,
{
    if start < s.len() {
        lemma_no_semicolon(s, start + 1);
    }
}

/// The colour sequence of an attribute sequence sets the foreground colour
/// and nothing else.
proof fn lemma_color_sequence_sets_foreground(c: Rgb, attrs: Style)
    ensures
        ({
            let seq_bytes = seq![0x1bu8, 0x5b, 0x33, 0x38, 0x3b, 0x32, 0x3b] + decimal(c.r as nat)
                + seq![0x3bu8] + decimal(c.g as nat) + seq![0x3bu8] + decimal(c.b as nat) + seq![
                0x6du8,
            ];
            attributes_after_escape(seq_bytes, attrs) == Style { foreground: Some(c), ..attrs }
        }),
{
    let dr = decimal(c.r as nat);
    let dg = decimal(c.g as nat);
    let db = decimal(c.b as nat);
    let semi = seq![0x3bu8];
    let prefix = seq![0x33u8, 0x38, 0x3b, 0x32, 0x3b];
    let bytes = seq![0x1bu8, 0x5b] + prefix + dr + semi + dg + semi + db + seq![0x6du8];
    assert(bytes =~= seq![0x1bu8, 0x5b, 0x33, 0x38, 0x3b, 0x32, 0x3b] + dr + semi + dg + semi + db
        + seq![0x6du8]);
    let p = bytes.subrange(2, bytes.len() - 1);
    assert(p =~= prefix + (dr + semi + dg + semi + db));
    assert(p.subrange(0, 5) =~= prefix);
    let rest = p.subrange(5, p.len() as int);
    assert(rest =~= dr + semi + dg + semi + db);
    lemma_decimal_digits(c.r as nat);
    lemma_decimal_digits(c.g as nat);
    lemma_decimal_digits(c.b as nat);
    let k1 = dr.len() as int;
    let k2: int = dr.len() as int + 1 + dg.len() as int;
    assert forall|j: int| 0 <= j < k1 implies #[trigger] rest[j] != 0x3b by {
        assert(rest[j] == dr[j]);
    }
    assert(rest[k1] == 0x3b);
    lemma_semicolon_at(rest, 0, k1);
    assert forall|j: int| k1 + 1 <= j < k2 implies #[trigger] rest[j] != 0x3b by {
        assert(rest[j] == dg[j - k1 - 1]);
    }
    assert(rest[k2] == 0x3b);
    lemma_semicolon_at(rest, k1 + 1, k2);
    assert(rest.subrange(0, k1) =~= dr);
    assert(rest.subrange(k1 + 1, k2) =~= dg);
    assert(rest.subrange(k2 + 1, rest.len() as int) =~= db);
    lemma_digits_number_of_decimal(c.r as nat);
    lemma_digits_number_of_decimal(c.g as nat);
    lemma_digits_number_of_decimal(c.b as nat);
    assert(p != seq![0x30u8] && p != seq![0x31u8] && p != seq![0x32u8]) by {
        assert(p.len() > 5);
    }
}

proof fn lemma_simple_attribute(param: u8, attrs: Style)
    requires
        param == 0x30 || param == 0x31 || param == 0x32,
    ensures
        is_escape(seq![0x1bu8, 0x5b, param, 0x6d]),
        attributes_after_escape(seq![0x1bu8, 0x5b, param, 0x6d], attrs) == (if param == 0x30 {
            no_attributes()
        } else if param == 0x31 {
            Style { bold: true, ..attrs }
        } else {
            Style { dim: true, ..attrs }
        }),
{
    let c = seq![0x1bu8, 0x5b, param, 0x6d];
    lemma_escape_from_parameters(seq![param], 0x6d);
    assert(c =~= seq![0x1bu8, 0x5b] + seq![param] + seq![0x6du8]);
    let p = c.subrange(2, 3);
    assert(p =~= seq![param]);
    if param != 0x30 {
        assert(p != seq![0x30u8]) by {
            assert(p[0] != seq![0x30u8][0]);
        }
    }
    if param == 0x32 {
        assert(p != seq![0x31u8]) by {
            assert(p[0] != seq![0x31u8][0]);
        }
    }
}

/// An attribute sequence sets the terminal's attributes to its style,
/// whatever they were, and leaves the cursor where it is.
#[verifier::rlimit(40)]
proof fn lemma_style_sets_attributes(style: Style, rest: Seq<u8>, cursor: (int, int), attrs: Style)
    ensures
        terminal_writes(style_sequence(style) + rest, cursor, attrs) == terminal_writes(
            rest,
            cursor,
            style,
        ),
{
    let bold = if style.bold {
        seq![0x1bu8, 0x5b, 0x31, 0x6d]
    } else {
        seq![]
    };
    let dim = if style.dim {
        seq![0x1bu8, 0x5b, 0x32, 0x6d]
    } else {
        seq![]
    };
    let color = match style.foreground {
        Some(c) => seq![0x1bu8, 0x5b, 0x33, 0x38, 0x3b, 0x32, 0x3b] + decimal(c.r as nat) + seq![
            0x3bu8,
        ] + decimal(c.g as nat) + seq![0x3bu8] + decimal(c.b as nat) + seq![0x6du8],
        None => seq![],
    };
    let a0 = no_attributes();
    let a1 = Style { bold: style.bold, ..a0 };
    let a2 = Style { dim: style.dim, ..a1 };
    assert(style_sequence(style) + rest =~= reset_attributes() + (bold + (dim + (color + rest))));
    lemma_simple_attribute(0x30, attrs);
    assert(reset_attributes() =~= seq![0x1bu8, 0x5b, 0x30, 0x6d]);
    lemma_escape_moves_cursor(reset_attributes(), bold + (dim + (color + rest)), cursor, attrs);
    if style.bold {
        lemma_simple_attribute(0x31, a0);
        lemma_escape_moves_cursor(bold, dim + (color + rest), cursor, a0);
    } else {
        assert(bold + (dim + (color + rest)) =~= dim + (color + rest));
    }
    if style.dim {
        lemma_simple_attribute(0x32, a1);
        lemma_escape_moves_cursor(dim, color + rest, cursor, a1);
    } else {
        assert(dim + (color + rest) =~= color + rest);
    }
    match style.foreground {
        Some(c) => {
            lemma_color_sequence_is_escape(c);
            lemma_escape_moves_cursor(color, rest, cursor, a2);
            lemma_color_sequence_sets_foreground(c, a2);
        },
        None => {
            assert(color + rest =~= rest);
        },
    }
}

proof fn lemma_color_sequence_is_escape(c: Rgb)
    ensures
        is_escape(
            seq![0x1bu8, 0x5b, 0x33, 0x38, 0x3b, 0x32, 0x3b] + decimal(c.r as nat) + seq![0x3bu8]
                + decimal(c.g as nat) + seq![0x3bu8] + decimal(c.b as nat) + seq![0x6du8],
        ),
{
    let semi = seq![0x3bu8];
    lemma_decimal_parameters(c.r as nat);
    lemma_decimal_parameters(c.g as nat);
    lemma_decimal_parameters(c.b as nat);
    assert(all_parameters(seq![0x33u8, 0x38, 0x3b, 0x32, 0x3b]));
    assert(all_parameters(semi));
    lemma_all_parameters_concat(seq![0x33u8, 0x38, 0x3b, 0x32, 0x3b], decimal(c.r as nat));
    let p1 = seq![0x33u8, 0x38, 0x3b, 0x32, 0x3b] + decimal(c.r as nat);
    lemma_all_parameters_concat(p1, semi);
    lemma_all_parameters_concat(p1 + semi, decimal(c.g as nat));
    lemma_all_parameters_concat(p1 + semi + decimal(c.g as nat), semi);
    lemma_all_parameters_concat(p1 + semi + decimal(c.g as nat) + semi, decimal(c.b as nat));
    let params = p1 + semi + decimal(c.g as nat) + semi + decimal(c.b as nat);
    lemma_escape_from_parameters(params, 0x6d);
    assert(seq![0x1bu8, 0x5b, 0x33, 0x38, 0x3b, 0x32, 0x3b] + decimal(c.r as nat) + seq![0x3bu8]
        + decimal(c.g as nat) + seq![0x3bu8] + decimal(c.b as nat) + seq![0x6du8] =~= seq![
        0x1bu8,
        0x5b,
    ] + params + seq![0x6du8]);
}

/// The UTF-8 bytes of a character: the first begins it, the others
/// continue it, and none is `ESC` unless the character is.
proof fn lemma_encoding_shape(c: char)
    ensures
        encode_scalar(c as u32).len() >= 1,
        c as u32 != 0x1b ==> encode_scalar(c as u32)[0] != 0x1b,
        !is_continuation_byte(encode_scalar(c as u32)[0]),
        forall|i: int|
            1 <= i < encode_scalar(c as u32).len() ==> is_continuation_byte(
                #[trigger] encode_scalar(c as u32)[i],
            ),
{
    let v = c as u32;
    assert(v <= 0x7F ==> (v & 0x7F) as u8 == v) by (bit_vector);
    assert(forall|w: u32| #![trigger (w & 0x3Fu32)] 0x80u8 <= (0x80u8 | ((w & 0x3F) as u8)) && (0x80u8 | ((w & 0x3F) as u8)) < 0xc0) by (bit_vector);
    assert(forall|w: u32| #![trigger ((w >> 6u32) & 0x3Fu32)] 0x80u8 <= (0x80u8 | (((w >> 6) & 0x3F) as u8)) && (0x80u8 | (((w >> 6) & 0x3F) as u8)) < 0xc0)
        by (bit_vector);
    assert(forall|w: u32| #![trigger ((w >> 12u32) & 0x3Fu32)] 0x80u8 <= (0x80u8 | (((w >> 12) & 0x3F) as u8)) && (0x80u8 | (((w >> 12) & 0x3F) as u8)) < 0xc0)
        by (bit_vector);
    assert(forall|w: u32| #![auto] (0xC0u8 | (((w >> 6) & 0x1F) as u8)) >= 0xC0) by (bit_vector);
    assert(forall|w: u32| #![auto] (0xE0u8 | (((w >> 12) & 0x0F) as u8)) >= 0xE0) by (bit_vector);
    assert(forall|w: u32| #![auto] (0xF0u8 | (((w >> 18) & 0x7) as u8)) >= 0xF0) by (bit_vector);
}

proof fn lemma_continuations_written(x: int, y: int, t: Seq<u8>, rest: Seq<u8>, attrs: Style)
    requires
        forall|i: int| 0 <= i < t.len() ==> is_continuation_byte(#[trigger] t[i]),
    ensures
        terminal_writes(t + rest, (x + 1, y), attrs) == writes_at(x, y, t, attrs) + terminal_writes(
            rest,
            (x + 1, y),
            attrs,
        ),
    decreases t.len(),
{
    if t.len() > 0 {
        let tail = t.subrange(1, t.len() as int);
        lemma_continuations_written(x, y, tail, rest, attrs);
        let b = t + rest;
        assert(b[0] == t[0]);
        assert(b.subrange(1, b.len() as int) =~= tail + rest);
        assert(writes_at(x, y, t, attrs) =~= seq![(x, y, t[0], attrs)] + writes_at(x, y, tail, attrs));
    } else {
        assert(t + rest =~= rest);
        assert(writes_at(x, y, t, attrs) =~= seq![]);
    }
}

/// A character other than `ESC` printed with the cursor at (`x`, `y`): all
/// its bytes go to that cell with the attributes in effect, and the cursor
/// moves one column right.
pub proof fn lemma_glyph_written_at_cursor(c: char, x: int, y: int, rest: Seq<u8>, attrs: Style)
    requires
        c as u32 != 0x1b,
    ensures
        terminal_writes(encode_scalar(c as u32) + rest, (x, y), attrs) == writes_at(
            x,
            y,
            encode_scalar(c as u32),
            attrs,
        ) + terminal_writes(rest, (x + 1, y), attrs),
{
    let e = encode_scalar(c as u32);
    lemma_encoding_shape(c);
    let tail = e.subrange(1, e.len() as int);
    let b = e + rest;
    assert(b[0] == e[0]);
    assert(b.subrange(1, b.len() as int) =~= tail + rest);
    assert forall|i: int| 0 <= i < tail.len() implies is_continuation_byte(#[trigger] tail[i]) by {
        assert(tail[i] == e[i + 1]);
    }
    lemma_continuations_written(x, y, tail, rest, attrs);
    assert(writes_at(x, y, e, attrs) =~= seq![(x, y, e[0], attrs)] + writes_at(x, y, tail, attrs));
}

/// The attributes the cell at (`x`, `y`) is to be shown with: its bold and
/// dim, and its colour only on a coloured frame.
pub open spec fn shown_attributes(job: FrameJob, x: int, y: int) -> Style {
    let style = job.cells[grid_offset(job.width as int, x, y)].style;
    Style {
        foreground: if job.colored {
            style.foreground
        } else {
            None
        },
        bold: style.bold,
        dim: style.dim,
    }
}

/// The bytes printed for the cell at (`x`, `y`) when the frame draws it:
/// the UTF-8 of its glyph, all at that cell, with the cell's attributes.
pub open spec fn drawn_writes(job: FrameJob, x: int, y: int) -> Seq<(int, int, u8, Style)> {
    writes_at(x, y, drawn_glyph(job, x, y), shown_attributes(job, x, y))
}

/// The bytes printed for the cells drawn in row `y` from column `x` on.
pub open spec fn row_writes(job: FrameJob, y: int, x: int) -> Seq<(int, int, u8, Style)>
    decreases job.width - x,
{
    if x < 0 || x >= job.width {
        seq![]
    } else {
        drawn_writes(job, x, y) + row_writes(job, y, x + 1)
    }
}

/// The bytes printed for the cells drawn in the rows from row `y` on.
pub open spec fn rows_writes(job: FrameJob, y: int) -> Seq<(int, int, u8, Style)>
    decreases job.height - y,
{
    if y < 0 || y >= job.height {
        seq![]
    } else {
        row_writes(job, y, 0) + rows_writes(job, y + 1)
    }
}

/// The terminal's cursor while drawing: where the drawing state knows it
/// to be, or `unknown` when it does not know.
pub open spec fn cursor_in(state: DrawState, unknown: (int, int)) -> (int, int) {
    match state.0 {
        Some((cx, cy)) => (cx as int, cy as int),
        None => unknown,
    }
}

proof fn lemma_cell_writes(
    job: FrameJob,
    state: DrawState,
    x: u16,
    y: u16,
    rest: Seq<u8>,
    unknown: (int, int),
)
    requires
        cell_changed(job, x as int, y as int) ==> job.cells[grid_offset(
            job.width as int,
            x as int,
            y as int,
        )].glyph as u32 != 0x1b,
        x < u16::MAX,
    ensures
        ({
            let next = draw_cell(job, state, x, y);
            terminal_writes(appended(state, next) + rest, cursor_in(state, unknown), state.1)
                == drawn_writes(job, x as int, y as int) + terminal_writes(
                rest,
                cursor_in(next, unknown),
                next.1,
            )
        }),
{
    let next = draw_cell(job, state, x, y);
    if cell_changed(job, x as int, y as int) {
        let cell = job.cells[grid_offset(job.width as int, x as int, y as int)];
        let (cursor, active, bytes) = state;
        let style = effective_style(cell.style, job.colored);
        let enc = encode_scalar(cell.glyph as u32);
        let mv: Seq<u8> = if cursor == Some((x, y)) {
            seq![]
        } else {
            move_to(x as nat, y as nat)
        };
        let st: Seq<u8> = if style != active {
            style_sequence(style)
        } else {
            seq![]
        };
        assert(next.2 =~= bytes + (mv + st + enc));
        assert(appended(state, next) + rest =~= mv + (st + (enc + rest)));
        assert(cursor_in(next, unknown) == (x + 1, y as int));
        assert(next.1 == style);
        assert(style == shown_attributes(job, x as int, y as int));
        lemma_glyph_written_at_cursor(cell.glyph, x as int, y as int, rest, style);
        if style != active {
            lemma_style_sets_attributes(style, enc + rest, (x as int, y as int), active);
        } else {
            assert(st + (enc + rest) =~= enc + rest);
        }
        if cursor != Some((x, y)) {
            lemma_move_is_escape(x as nat, y as nat);
            lemma_escape_moves_cursor(mv, st + (enc + rest), cursor_in(state, unknown), active);
            lemma_move_puts_cursor(x as nat, y as nat, cursor_in(state, unknown));
            assert(mv[mv.len() - 1] == 0x48) by {
                assert(mv =~= seq![0x1bu8, 0x5b] + decimal((y + 1) as nat) + seq![0x3bu8] + decimal(
                    (x + 1) as nat,
                ) + seq![0x48u8]);
            }
        } else {
            assert(mv + (st + (enc + rest)) =~= st + (enc + rest));
        }
    } else {
        assert(appended(state, next) + rest =~= rest);
        assert(drawn_writes(job, x as int, y as int) =~= seq![]);
        assert(drawn_writes(job, x as int, y as int) + terminal_writes(
            rest,
            cursor_in(next, unknown),
            next.1,
        ) =~= terminal_writes(rest, cursor_in(next, unknown), next.1));
    }
}

proof fn lemma_row_writes(
    job: FrameJob,
    state: DrawState,
    y: u16,
    x: int,
    rest: Seq<u8>,
    unknown: (int, int),
)
    requires
        draws_no_escape(job),
        y < job.height,
        job.width <= u16::MAX,
    ensures
        ({
            let next = draw_row(job, state, y, x);
            terminal_writes(appended(state, next) + rest, cursor_in(state, unknown), state.1)
                == row_writes(job, y as int, x) + terminal_writes(
                rest,
                cursor_in(next, unknown),
                next.1,
            )
        }),
    decreases job.width - x,
{
    let next = draw_row(job, state, y, x);
    if 0 <= x < job.width {
        let mid = draw_cell(job, state, x as u16, y);
        let tail = appended(mid, next);
        lemma_cell_text(job, state, x as u16, y, seq![]);
        lemma_row_text(job, mid, y, x + 1, seq![]);
        lemma_cell_writes(job, state, x as u16, y, tail + rest, unknown);
        lemma_row_writes(job, mid, y, x + 1, rest, unknown);
        assert(next.2.subrange(0, state.2.len() as int) =~= mid.2.subrange(0, state.2.len() as int));
        assert(appended(state, next) =~= appended(state, mid) + tail);
        assert(appended(state, next) + rest =~= appended(state, mid) + (tail + rest));
        assert(drawn_writes(job, x, y as int) + (row_writes(job, y as int, x + 1) + terminal_writes(
            rest,
            cursor_in(next, unknown),
            next.1,
        )) =~= row_writes(job, y as int, x) + terminal_writes(rest, cursor_in(next, unknown), next.1));
    } else {
        assert(appended(state, next) + rest =~= rest);
        assert(row_writes(job, y as int, x) + terminal_writes(rest, cursor_in(next, unknown), next.1)
            =~= terminal_writes(rest, cursor_in(next, unknown), next.1));
    }
}

proof fn lemma_rows_writes(job: FrameJob, state: DrawState, y: int, rest: Seq<u8>, unknown: (int, int))
    requires
        draws_no_escape(job),
        job.width <= u16::MAX,
        job.height <= u16::MAX,
    ensures
        ({
            let next = draw_rows(job, state, y);
            terminal_writes(appended(state, next) + rest, cursor_in(state, unknown), state.1)
                == rows_writes(job, y) + terminal_writes(rest, cursor_in(next, unknown), next.1)
        }),
    decreases job.height - y,
{
    let next = draw_rows(job, state, y);
    if 0 <= y < job.height {
        let mid = draw_row(job, state, y as u16, 0);
        let tail = appended(mid, next);
        lemma_row_text(job, state, y as u16, 0, seq![]);
        lemma_rows_text(job, mid, y + 1, seq![]);
        lemma_row_writes(job, state, y as u16, 0, tail + rest, unknown);
        lemma_rows_writes(job, mid, y + 1, rest, unknown);
        assert(next.2.subrange(0, state.2.len() as int) =~= mid.2.subrange(0, state.2.len() as int));
        assert(appended(state, next) =~= appended(state, mid) + tail);
        assert(appended(state, next) + rest =~= appended(state, mid) + (tail + rest));
        assert(row_writes(job, (y as u16) as int, 0) + (rows_writes(job, y + 1) + terminal_writes(
            rest,
            cursor_in(next, unknown),
            next.1,
        )) =~= rows_writes(job, y) + terminal_writes(rest, cursor_in(next, unknown), next.1));
    } else {
        assert(appended(state, next) + rest =~= rest);
        assert(rows_writes(job, y) + terminal_writes(rest, cursor_in(next, unknown), next.1)
            =~= terminal_writes(rest, cursor_in(next, unknown), next.1));
    }
}

proof fn lemma_fixed_escapes(rest: Seq<u8>, cursor: (int, int), attrs: Style)
    ensures
        terminal_writes(sync_start() + rest, cursor, attrs) == terminal_writes(rest, cursor, attrs),
        terminal_writes(hide_and_reset() + rest, cursor, attrs) == terminal_writes(
            rest,
            cursor,
            no_attributes(),
        ),
        terminal_writes(clear_screen() + rest, cursor, attrs) == terminal_writes(rest, cursor, attrs),
        terminal_writes(reset_attributes() + rest, cursor, attrs) == terminal_writes(
            rest,
            cursor,
            no_attributes(),
        ),
        terminal_writes(sync_end() + rest, cursor, attrs) == terminal_writes(rest, cursor, attrs),
{
    let sync_params = seq![0x3fu8, 0x32, 0x30, 0x32, 0x36];
    assert(all_parameters(sync_params));
    lemma_escape_from_parameters(sync_params, 0x68);
    lemma_escape_from_parameters(sync_params, 0x6c);
    assert(sync_start() =~= seq![0x1bu8, 0x5b] + sync_params + seq![0x68u8]);
    assert(sync_end() =~= seq![0x1bu8, 0x5b] + sync_params + seq![0x6cu8]);
    lemma_escape_moves_cursor(sync_start(), rest, cursor, attrs);
    lemma_escape_moves_cursor(sync_end(), rest, cursor, attrs);
    lemma_escape_from_parameters(seq![0x30u8], 0x6d);
    assert(reset_attributes() =~= seq![0x1bu8, 0x5b] + seq![0x30u8] + seq![0x6du8]);
    assert(reset_attributes().subrange(2, 3) =~= seq![0x30u8]);
    lemma_escape_moves_cursor(reset_attributes(), rest, cursor, attrs);
    lemma_escape_from_parameters(seq![0x32u8], 0x4a);
    assert(clear_screen() =~= seq![0x1bu8, 0x5b] + seq![0x32u8] + seq![0x4au8]);
    lemma_escape_moves_cursor(clear_screen(), rest, cursor, attrs);
    let hide_params = seq![0x3fu8, 0x32, 0x35];
    assert(all_parameters(hide_params));
    lemma_escape_from_parameters(hide_params, 0x6c);
    let hide = seq![0x1bu8, 0x5b] + hide_params + seq![0x6cu8];
    assert(hide_and_reset() + rest =~= hide + (reset_attributes() + rest));
    lemma_escape_moves_cursor(hide, reset_attributes() + rest, cursor, attrs);
    lemma_escape_moves_cursor(reset_attributes(), rest, cursor, attrs);
}

/// Every glyph of a frame is printed at its own cell in its own
/// attributes: a terminal that receives the frame, wherever its cursor was
/// and whatever attributes it printed with, prints exactly the UTF-8 bytes
/// of the glyphs of the cells the frame draws, row by row, each at the
/// column and row of its cell and with the cell's bold, dim and (on a
/// coloured frame) colour, and nothing else (when no drawn cell holds the
/// `ESC` character itself).
pub proof fn lemma_frame_writes_each_glyph_at_its_cell(
    job: FrameJob,
    cursor: (int, int),
    attrs: Style,
)
    requires
        job.width <= u16::MAX,
        job.height <= u16::MAX,
        draws_no_escape(job),
    ensures
        terminal_writes(frame_bytes(job), cursor, attrs) == rows_writes(job, 0),
{
    let init: DrawState = (None, plain_style(), seq![]);
    let next = draw_rows(job, init, 0);
    let body = next.2;
    let tail = reset_attributes() + sync_end();
    lemma_rows_writes(job, init, 0, tail, cursor);
    assert(appended(init, next) =~= body);
    let after = cursor_in(next, cursor);
    lemma_fixed_escapes(sync_end(), after, next.1);
    lemma_fixed_escapes(seq![], after, no_attributes());
    assert(sync_end() + seq![] =~= sync_end());
    assert(terminal_writes(tail, after, next.1) =~= seq![]);
    let clear: Seq<u8> = if job.full {
        clear_screen()
    } else {
        seq![]
    };
    assert(frame_bytes(job) =~= sync_start() + (hide_and_reset() + (clear + (body + tail))));
    lemma_fixed_escapes(hide_and_reset() + (clear + (body + tail)), cursor, attrs);
    lemma_fixed_escapes(clear + (body + tail), cursor, attrs);
    assert(no_attributes() == plain_style());
    if job.full {
        lemma_fixed_escapes(body + tail, cursor, no_attributes());
    } else {
        assert(clear + (body + tail) =~= body + tail);
    }
    assert(rows_writes(job, 0) + terminal_writes(tail, after, next.1) =~= rows_writes(job, 0));
}

/// What `Renderer::render` writes prints, on a terminal whose cursor may
/// be anywhere and whose attributes may be any, the glyph of every cell it
/// draws at that cell's column and row and in that cell's attributes, in
/// row-major order: every cell on a full redraw, otherwise the cells that
/// differ from the canvas shown before (when none of the drawn cells holds
/// `ESC`).
pub proof fn lemma_render_writes_each_glyph_at_its_cell(
    previous: Option<Canvas>,
    previous_colored: bool,
    canvas: Canvas,
    colored: bool,
    cursor: (int, int),
    attrs: Style,
)
    requires
        canvas.wf(),
        draws_no_escape(frame_job(previous, previous_colored, canvas, colored)),
    ensures
        terminal_writes(
            frame_bytes(frame_job(previous, previous_colored, canvas, colored)),
            cursor,
            attrs,
        ) == rows_writes(frame_job(previous, previous_colored, canvas, colored), 0),
{
    lemma_frame_writes_each_glyph_at_its_cell(
        frame_job(previous, previous_colored, canvas, colored),
        cursor,
        attrs,
    );
}

} // verus!

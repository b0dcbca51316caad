use vstd::prelude::*;
use vstd::utf8::encode_scalar;

use crate::canvas::{grid_offset, lemma_grid_offset, plain_style, Canvas, Cell, Style};
use crate::encoding::{decimal, lemma_decimal_digits, push_bytes, push_decimal, push_utf8};

verus! {

/// `ESC [ ? 2026 h`: the terminal holds output until the matching end.
pub open spec fn sync_start() -> Seq<u8> {
    seq![0x1bu8, 0x5b, 0x3f, 0x32, 0x30, 0x32, 0x36, 0x68]
}

/// `ESC [ ? 2026 l`: the terminal shows everything held since the start.
pub open spec fn sync_end() -> Seq<u8> {
    seq![0x1bu8, 0x5b, 0x3f, 0x32, 0x30, 0x32, 0x36, 0x6c]
}

/// `ESC [ ? 25 l` then `ESC [ 0 m`: hide the cursor, reset attributes.
pub open spec fn hide_and_reset() -> Seq<u8> {
    seq![0x1bu8, 0x5b, 0x3f, 0x32, 0x35, 0x6c, 0x1b, 0x5b, 0x30, 0x6d]
}

/// `ESC [ 2 J`: erase the whole screen.
pub open spec fn clear_screen() -> Seq<u8> {
    seq![0x1bu8, 0x5b, 0x32, 0x4a]
}

/// `ESC [ 0 m`: reset attributes.
pub open spec fn reset_attributes() -> Seq<u8> {
    seq![0x1bu8, 0x5b, 0x30, 0x6d]
}

/// `ESC [ row ; column H` with 1-based row and column: move the cursor to
/// column `x`, row `y` (both 0-based).
pub open spec fn move_to(x: nat, y: nat) -> Seq<u8> {
    seq![0x1bu8, 0x5b] + decimal(y + 1) + seq![0x3bu8] + decimal(x + 1) + seq![0x48u8]
}

/// The attribute sequence that selects `style` from scratch: a reset, then
/// bold, dim and a 24-bit foreground colour as the style asks.
pub open spec fn style_sequence(style: Style) -> Seq<u8> {
    reset_attributes() + (if style.bold {
        seq![0x1bu8, 0x5b, 0x31, 0x6d]
    } else {
        seq![]
    }) + (if style.dim {
        seq![0x1bu8, 0x5b, 0x32, 0x6d]
    } else {
        seq![]
    }) + match style.foreground {
        Some(c) => seq![0x1bu8, 0x5b, 0x33, 0x38, 0x3b, 0x32, 0x3b] + decimal(c.r as nat) + seq![
            0x3bu8,
        ] + decimal(c.g as nat) + seq![0x3bu8] + decimal(c.b as nat) + seq![0x6du8],
        None => seq![],
    }
}

/// The style a cell is drawn with: its own, without colour on a monochrome
/// frame.
pub open spec fn effective_style(style: Style, colored: bool) -> Style {
    Style {
        foreground: if colored {
            style.foreground
        } else {
            None
        },
        bold: style.bold,
        dim: style.dim,
    }
}

/// What a frame is computed from: the cells shown before (if any), whether
/// the whole screen is redrawn, and the canvas to show.
pub struct FrameJob {
    pub previous: Option<Seq<Cell>>,
    pub full: bool,
    pub cells: Seq<Cell>,
    pub width: nat,
    pub height: nat,
    pub colored: bool,
}

/// Where the terminal cursor is known to be, the attributes in effect, and
/// the bytes emitted so far for the cells.
pub type DrawState = (Option<(u16, u16)>, Style, Seq<u8>);

/// Whether the cell at (`x`, `y`) is drawn: on a full redraw every cell is,
/// otherwise only a cell that differs from the one shown before.
pub open spec fn cell_changed(job: FrameJob, x: int, y: int) -> bool {
    let i = grid_offset(job.width as int, x, y);
    job.full || match job.previous {
        None => true,
        Some(previous) => previous[i] != job.cells[i],
    }
}

/// Draws the cell at (`x`, `y`) when it changed: a cursor move unless the
/// cursor is already there, an attribute sequence unless the attributes are
/// already in effect, then the glyph in UTF-8; the cursor ends one column to
/// the right.
pub open spec fn draw_cell(job: FrameJob, state: DrawState, x: u16, y: u16) -> DrawState {
    if !cell_changed(job, x as int, y as int) {
        state
    } else {
        let cell = job.cells[grid_offset(job.width as int, x as int, y as int)];
        let (cursor, active, bytes) = state;
        let moved = if cursor == Some((x, y)) {
            bytes
        } else {
            bytes + move_to(x as nat, y as nat)
        };
        let style = effective_style(cell.style, job.colored);
        let styled = if style != active {
            moved + style_sequence(style)
        } else {
            moved
        };
        let next_active = if style != active {
            style
        } else {
            active
        };
        (Some(((x + 1) as u16, y)), next_active, styled + encode_scalar(cell.glyph as u32))
    }
}

/// Draws the cells of row `y` from column `x` to the end of the row.
pub open spec fn draw_row(job: FrameJob, state: DrawState, y: u16, x: int) -> DrawState
    decreases job.width - x,
{
    if x < 0 || x >= job.width {
        state
    } else {
        draw_row(job, draw_cell(job, state, x as u16, y), y, x + 1)
    }
}

/// Draws the rows from row `y` to the bottom.
pub open spec fn draw_rows(job: FrameJob, state: DrawState, y: int) -> DrawState
    decreases job.height - y,
{
    if y < 0 || y >= job.height {
        state
    } else {
        draw_rows(job, draw_row(job, state, y as u16, 0), y + 1)
    }
}

/// The complete frame: synchronized output that hides the cursor, erases
/// the screen on a full redraw, draws the changed cells and resets the
/// attributes.
pub open spec fn frame_bytes(job: FrameJob) -> Seq<u8> {
    sync_start() + hide_and_reset() + (if job.full {
        clear_screen()
    } else {
        seq![]
    }) + draw_rows(job, (None, plain_style(), seq![]), 0).2 + reset_attributes() + sync_end()
}

/// The frame that follows `previous` (shown in colour or not) when `canvas`
/// is shown next: a full redraw when nothing was shown, the size changed or
/// the colour mode changed.
pub open spec fn frame_job(
    previous: Option<Canvas>,
    previous_colored: bool,
    canvas: Canvas,
    colored: bool,
) -> FrameJob {
    FrameJob {
        previous: match previous {
            Some(p) => Some(p.grid()),
            None => None,
        },
        full: match previous {
            None => true,
            Some(p) => p.w() != canvas.w() || p.h() != canvas.h(),
        } || colored != previous_colored,
        cells: canvas.grid(),
        width: canvas.w(),
        height: canvas.h(),
        colored,
    }
}

/// The frame that changes nothing on the screen.
pub open spec fn idle_frame() -> Seq<u8> {
    sync_start() + hide_and_reset() + reset_attributes() + sync_end()
}

/// Every frame is wrapped in synchronized output: it begins with the
/// synchronization start and ends with the synchronization end.
pub proof fn lemma_frame_is_synchronized(job: FrameJob)
    ensures
        frame_bytes(job).len() >= sync_start().len() + sync_end().len(),
        frame_bytes(job).subrange(0, sync_start().len() as int) == sync_start(),
        frame_bytes(job).subrange(
            frame_bytes(job).len() - sync_end().len(),
            frame_bytes(job).len() as int,
        ) == sync_end(),
{
    let f = frame_bytes(job);
    let rest = hide_and_reset() + (if job.full {
        clear_screen()
    } else {
        seq![]
    }) + draw_rows(job, (None, plain_style(), seq![]), 0).2 + reset_attributes();
    assert(f =~= sync_start() + rest + sync_end());
    assert(f.subrange(0, 8) =~= sync_start());
    assert(f.subrange(f.len() - 8, f.len() as int) =~= sync_end());
}

/// Drawing a row in which no cell changed emits nothing.
proof fn lemma_unchanged_row(job: FrameJob, state: DrawState, y: u16, x: int)
    requires
        forall|cx: int| 0 <= cx < job.width ==> !cell_changed(job, cx, y as int),
    ensures
        draw_row(job, state, y, x) == state,
    decreases job.width - x,
{
    if 0 <= x < job.width {
        lemma_unchanged_row(job, draw_cell(job, state, x as u16, y), y, x + 1);
    }
}

/// Drawing rows in which no cell changed emits nothing.
proof fn lemma_unchanged_rows(job: FrameJob, state: DrawState, y: int)
    requires
        forall|cx: int, cy: int|
            0 <= cx < job.width && 0 <= cy < job.height ==> !cell_changed(job, cx, cy),
        job.height <= u16::MAX,
    ensures
        draw_rows(job, state, y) == state,
    decreases job.height - y,
{
    if 0 <= y < job.height {
        lemma_unchanged_row(job, state, y as u16, 0);
        lemma_unchanged_rows(job, draw_row(job, state, y as u16, 0), y + 1);
    }
}

/// Showing again, in the same colour mode, a canvas with the size and the
/// cells of the last frame changes nothing: the frame is the idle frame.
pub proof fn lemma_same_canvas_draws_nothing(shown: Canvas, canvas: Canvas, colored: bool)
    requires
        shown.wf(),
        canvas.wf(),
        shown.w() == canvas.w(),
        shown.h() == canvas.h(),
        shown.grid() == canvas.grid(),
    ensures
        frame_bytes(frame_job(Some(shown), colored, canvas, colored)) == idle_frame(),
{
    let job = frame_job(Some(shown), colored, canvas, colored);
    lemma_unchanged_rows(job, (None, plain_style(), seq![]), 0);
    assert(frame_bytes(job) =~= idle_frame());
}

/// With no last frame to compare against (a new renderer, or one that was
/// invalidated), the frame erases the screen and draws every cell.
pub proof fn lemma_first_frame_is_full(previous_colored: bool, canvas: Canvas, colored: bool)
    ensures
        frame_job(None, previous_colored, canvas, colored).full,
        frame_bytes(frame_job(None, previous_colored, canvas, colored)).subrange(
            (sync_start().len() + hide_and_reset().len()) as int,
            (sync_start().len() + hide_and_reset().len() + clear_screen().len()) as int,
        ) == clear_screen(),
        forall|x: int, y: int|
            cell_changed(frame_job(None, previous_colored, canvas, colored), x, y),
{
    let job = frame_job(None, previous_colored, canvas, colored);
    let f = frame_bytes(job);
    assert(f =~= sync_start() + hide_and_reset() + clear_screen() + (draw_rows(
        job,
        (None, plain_style(), seq![]),
        0,
    ).2 + reset_attributes() + sync_end()));
    assert(f.subrange(18, 22) =~= clear_screen());
}

/// Whether `bytes` begins like a cursor move: `ESC [`, a digit, then a
/// digit or `;`.
pub open spec fn begins_with_move(bytes: Seq<u8>) -> bool {
    &&& bytes.len() >= 4
    &&& bytes[0] == 0x1b
    &&& bytes[1] == 0x5b
    &&& 0x30 <= bytes[2] <= 0x39
    &&& (0x30 <= bytes[3] <= 0x39 || bytes[3] == 0x3b)
}

/// How drawing takes a state `from` to a state `to`: the bytes only grow, a
/// known cursor stays known, and from an unknown cursor either nothing is
/// drawn or the new bytes begin with a cursor move.
pub open spec fn draws_onward(from: DrawState, to: DrawState) -> bool {
    &&& from.2.len() <= to.2.len()
    &&& to.2.subrange(0, from.2.len() as int) == from.2
    &&& from.0 is Some ==> to.0 is Some
    &&& from.0 is None ==> (to == from || (to.0 is Some && begins_with_move(
        to.2.subrange(from.2.len() as int, to.2.len() as int),
    )))
}

/// A cursor move begins with `ESC [`, a digit, then a digit or `;`.
pub proof fn lemma_move_begins_with_move(x: nat, y: nat)
    ensures
        begins_with_move(move_to(x, y)),
{
    lemma_decimal_digits(y + 1);
    let m = move_to(x, y);
    let d = decimal(y + 1);
    assert(m =~= seq![0x1bu8, 0x5b] + d + (seq![0x3bu8] + decimal(x + 1) + seq![0x48u8]));
    assert(m[2] == d[0]);
    if d.len() > 1 {
        assert(m[3] == d[1]);
    } else {
        assert(m[3] == 0x3b);
    }
}

proof fn lemma_draws_onward_trans(a: DrawState, b: DrawState, c: DrawState)
    requires
        draws_onward(a, b),
        draws_onward(b, c),
    ensures
        draws_onward(a, c),
{
    assert(c.2.subrange(0, a.2.len() as int) =~= b.2.subrange(0, a.2.len() as int));
    if a.0 is None && b != a {
        let nb = b.2.subrange(a.2.len() as int, b.2.len() as int);
        let nc = c.2.subrange(a.2.len() as int, c.2.len() as int);
        assert(nc[0] == nb[0] && nc[1] == nb[1] && nc[2] == nb[2] && nc[3] == nb[3]) by {
            assert(nc[0] == c.2[a.2.len() as int]);
            assert(nb[0] == b.2[a.2.len() as int]);
            assert(c.2[a.2.len() as int] == c.2.subrange(0, b.2.len() as int)[a.2.len() as int]);
            assert(nc[1] == c.2.subrange(0, b.2.len() as int)[a.2.len() as int + 1]);
            assert(nc[2] == c.2.subrange(0, b.2.len() as int)[a.2.len() as int + 2]);
            assert(nc[3] == c.2.subrange(0, b.2.len() as int)[a.2.len() as int + 3]);
        }
    }
}

proof fn lemma_cell_draws_onward(job: FrameJob, state: DrawState, x: u16, y: u16)
    ensures
        draws_onward(state, draw_cell(job, state, x, y)),
{
    let next = draw_cell(job, state, x, y);
    if cell_changed(job, x as int, y as int) {
        let (cursor, active, bytes) = state;
        let tail = next.2.subrange(bytes.len() as int, next.2.len() as int);
        assert(next.2.subrange(0, bytes.len() as int) =~= bytes);
        if cursor is None {
            lemma_move_begins_with_move(x as nat, y as nat);
            let m = move_to(x as nat, y as nat);
            assert(tail.subrange(0, m.len() as int) =~= m);
            assert(tail[0] == m[0] && tail[1] == m[1] && tail[2] == m[2] && tail[3] == m[3]);
        }
    } else {
        assert(state.2.subrange(0, state.2.len() as int) =~= state.2);
    }
}

proof fn lemma_row_draws_onward(job: FrameJob, state: DrawState, y: u16, x: int)
    ensures
        draws_onward(state, draw_row(job, state, y, x)),
    decreases job.width - x,
{
    if 0 <= x < job.width {
        let next = draw_cell(job, state, x as u16, y);
        lemma_cell_draws_onward(job, state, x as u16, y);
        lemma_row_draws_onward(job, next, y, x + 1);
        lemma_draws_onward_trans(state, next, draw_row(job, next, y, x + 1));
    } else {
        assert(state.2.subrange(0, state.2.len() as int) =~= state.2);
    }
}

proof fn lemma_rows_draw_onward(job: FrameJob, state: DrawState, y: int)
    ensures
        draws_onward(state, draw_rows(job, state, y)),
    decreases job.height - y,
{
    if 0 <= y < job.height {
        let next = draw_row(job, state, y as u16, 0);
        lemma_row_draws_onward(job, state, y as u16, 0);
        lemma_rows_draw_onward(job, next, y + 1);
        lemma_draws_onward_trans(state, next, draw_rows(job, next, y + 1));
    } else {
        assert(state.2.subrange(0, state.2.len() as int) =~= state.2);
    }
}

/// A frame erases the screen exactly when it is a full redraw: its bytes
/// begin with the synchronization start, the cursor hiding and attribute
/// reset, and the erase if and only if the job is full. That is the case on
/// a first frame, after an invalidation, when the size changed and when the
/// colour mode changed.
pub proof fn lemma_frame_erases_iff_full(job: FrameJob)
    ensures
        frame_bytes(job).len() >= 22,
        frame_bytes(job).subrange(0, 22) == sync_start() + hide_and_reset() + clear_screen()
            <==> job.full,
{
    let init: DrawState = (None, plain_style(), seq![]);
    let body = draw_rows(job, init, 0).2;
    let f = frame_bytes(job);
    let target = sync_start() + hide_and_reset() + clear_screen();
    if job.full {
        assert(f =~= target + (body + reset_attributes() + sync_end()));
        assert(f.subrange(0, 22) =~= target);
    } else {
        assert(f =~= sync_start() + hide_and_reset() + (body + reset_attributes() + sync_end()));
        lemma_rows_draw_onward(job, init, 0);
        if body.len() == 0 {
            assert(f[20] == 0x30);
        } else {
            assert(body.subrange(0, 0) =~= init.2);
            assert(body.subrange(0, body.len() as int) =~= body);
            assert(f[21] == body[3]);
        }
        assert(f.subrange(0, 22)[21] == f[21]);
        assert(f.subrange(0, 22)[20] == f[20]);
        assert(target[20] == 0x32 && target[21] == 0x4a);
    }
    assert(f.len() >= 22);
}

/// What `Renderer::render` writes erases the screen, right after the frame's
/// opening sequences, exactly when nothing was shown before (a new or
/// invalidated renderer), the size changed, or the colour mode changed.
pub proof fn lemma_render_erases_exactly_when(
    previous: Option<Canvas>,
    previous_colored: bool,
    canvas: Canvas,
    colored: bool,
)
    ensures
        ({
            let f = frame_bytes(frame_job(previous, previous_colored, canvas, colored));
            f.len() >= 22 && (f.subrange(0, 22) == sync_start() + hide_and_reset() + clear_screen()
                <==> (previous is None || previous.unwrap().w() != canvas.w()
                || previous.unwrap().h() != canvas.h() || colored != previous_colored))
        }),
{
    lemma_frame_erases_iff_full(frame_job(previous, previous_colored, canvas, colored));
}

/// Nothing shown before, a change of size or a change of colour mode makes
/// the next frame draw every cell of the canvas.
pub proof fn lemma_full_redraw_draws_every_cell(
    previous: Option<Canvas>,
    previous_colored: bool,
    canvas: Canvas,
    colored: bool,
    x: int,
    y: int,
)
    requires
        previous is None || previous.unwrap().w() != canvas.w() || previous.unwrap().h()
            != canvas.h() || colored != previous_colored,
    ensures
        cell_changed(frame_job(previous, previous_colored, canvas, colored), x, y),
{
}

pub const SYNC_START: [u8; 8] = [0x1b, 0x5b, 0x3f, 0x32, 0x30, 0x32, 0x36, 0x68];

pub const SYNC_END: [u8; 8] = [0x1b, 0x5b, 0x3f, 0x32, 0x30, 0x32, 0x36, 0x6c];

const HIDE_AND_RESET: [u8; 10] = [0x1b, 0x5b, 0x3f, 0x32, 0x35, 0x6c, 0x1b, 0x5b, 0x30, 0x6d];

const CLEAR_SCREEN: [u8; 4] = [0x1b, 0x5b, 0x32, 0x4a];

const RESET_ATTRIBUTES: [u8; 4] = [0x1b, 0x5b, 0x30, 0x6d];

const BOLD: [u8; 4] = [0x1b, 0x5b, 0x31, 0x6d];

const DIM: [u8; 4] = [0x1b, 0x5b, 0x32, 0x6d];

const FOREGROUND: [u8; 7] = [0x1b, 0x5b, 0x33, 0x38, 0x3b, 0x32, 0x3b];

fn write_move(out: &mut Vec<u8>, x: u16, y: u16)
    requires
        x < u16::MAX,
        y < u16::MAX,
    ensures
        final(out)@ == old(out)@ + move_to(x as nat, y as nat),
{
    out.push(0x1b);
    out.push(0x5b);
    push_decimal(out, (y + 1) as u32);
    out.push(0x3b);
    push_decimal(out, (x + 1) as u32);
    out.push(0x48);
    assert(out@ =~= old(out)@ + move_to(x as nat, y as nat));
}

/// Appends the attribute sequence of `style`.
fn write_style(out: &mut Vec<u8>, style: Style)
    ensures
        final(out)@ == old(out)@ + style_sequence(style),
{
    let ghost start = out@;
    push_bytes(out, &RESET_ATTRIBUTES);
    assert(RESET_ATTRIBUTES@ =~= reset_attributes());
    if style.bold {
        push_bytes(out, &BOLD);
        assert(BOLD@ =~= seq![0x1bu8, 0x5b, 0x31, 0x6d]);
    }
    if style.dim {
        push_bytes(out, &DIM);
        assert(DIM@ =~= seq![0x1bu8, 0x5b, 0x32, 0x6d]);
    }
    if let Some(color) = style.foreground {
        push_bytes(out, &FOREGROUND);
        assert(FOREGROUND@ =~= seq![0x1bu8, 0x5b, 0x33, 0x38, 0x3b, 0x32, 0x3b]);
        push_decimal(out, color.r as u32);
        out.push(0x3b);
        push_decimal(out, color.g as u32);
        out.push(0x3b);
        push_decimal(out, color.b as u32);
        out.push(0x6d);
    }
    assert(out@ =~= start + style_sequence(style));
}

/// Turns canvases into terminal output, drawing only the cells that changed
/// since the frame before.
pub struct Renderer {
    previous: Option<Canvas>,
    previous_colored: bool,
}

impl Default for Renderer {
    fn default() -> (r: Self)
        ensures
            r.shown() is None,
            !r.shown_colored(),
    {
        Renderer { previous: None, previous_colored: false }
    }
}

impl Renderer {
    /// The canvas of the last frame, if the renderer still relies on it.
    pub closed spec fn shown(&self) -> Option<Canvas> {
        self.previous
    }

    /// Whether the last frame was drawn in colour.
    pub closed spec fn shown_colored(&self) -> bool {
        self.previous_colored
    }

    pub open spec fn wf(&self) -> bool {
        self.shown() matches Some(c) ==> c.wf()
    }

    /// Forgets the last frame, so that the next one redraws the whole screen.
    pub fn invalidate(&mut self)
        ensures
            final(self).shown() is None,
            final(self).shown_colored() == old(self).shown_colored(),
    {
        self.previous = None;
    }

    /// Appends the frame that shows `canvas` to `writer` and remembers the
    /// canvas for the next frame.
    #[verifier::rlimit(40)]
    pub fn render(&mut self, writer: &mut Vec<u8>, canvas: &Canvas, colored: bool)
        requires
            old(self).wf(),
            canvas.wf(),
        ensures
            final(writer)@ == old(writer)@ + frame_bytes(
                frame_job(old(self).shown(), old(self).shown_colored(), *canvas, colored),
            ),
            final(self).wf(),
            final(self).shown_colored() == colored,
            final(self).shown() matches Some(shown) && shown.w() == canvas.w() && shown.h()
                == canvas.h() && shown.grid() == canvas.grid(),
    {
        let ghost job = frame_job(self.previous, self.previous_colored, *canvas, colored);
        let full = match &self.previous {
            None => true,
            Some(previous) => previous.width() != canvas.width() || previous.height()
                != canvas.height(),
        } || colored != self.previous_colored;
        assert(full == job.full);
        push_bytes(writer, &SYNC_START);
        push_bytes(writer, &HIDE_AND_RESET);
        if full {
            push_bytes(writer, &CLEAR_SCREEN);
        }
        assert(SYNC_START@ =~= sync_start());
        assert(HIDE_AND_RESET@ =~= hide_and_reset());
        assert(CLEAR_SCREEN@ =~= clear_screen());
        let ghost header = writer@;
        let width = canvas.width();
        let height = canvas.height();
        let cells = canvas.cells();
        let mut cursor: Option<(u16, u16)> = None;
        let mut active = Style::default();
        let ghost initial: DrawState = (None, plain_style(), seq![]);
        let n = cells.len();
        assert(writer@.subrange(header.len() as int, writer@.len() as int) =~= seq![]);
        assert(writer@.subrange(0, header.len() as int) =~= header);
        let mut y: u16 = 0;
        while y < height
            invariant
                canvas.wf(),
                self.wf(),
                job == frame_job(self.previous, self.previous_colored, *canvas, colored),
                full == job.full,
                width == canvas.w(),
                height == canvas.h(),
                cells@ == canvas.grid(),
                n == cells@.len(),
                y <= height,
                draw_rows(job, initial, 0) == draw_rows(job, (cursor, active, writer@.subrange(header.len() as int, writer@.len() as int)), y as int),
                writer@.len() >= header.len(),
                writer@.subrange(0, header.len() as int) == header,
            decreases height - y,
        {
            let ghost row_start: DrawState = (
                cursor,
                active,
                writer@.subrange(header.len() as int, writer@.len() as int),
            );
            let mut x: u16 = 0;
            while x < width
                invariant
                    canvas.wf(),
                    self.wf(),
                    job == frame_job(self.previous, self.previous_colored, *canvas, colored),
                    full == job.full,
                    width == canvas.w(),
                    height == canvas.h(),
                    cells@ == canvas.grid(),
                    n == cells@.len(),
                    y < height,
                    x <= width,
                    draw_row(job, row_start, y, 0) == draw_row(job, (cursor, active, writer@.subrange(header.len() as int, writer@.len() as int)), y, x as int),
                    writer@.len() >= header.len(),
                    writer@.subrange(0, header.len() as int) == header,
                decreases width - x,
            {
                proof {
                    lemma_grid_offset(width as int, height as int, x as int, y as int, x as int, y as int);
                    assert((y as usize) * (width as usize) == y * width) by (nonlinear_arith)
                        requires
                            y * width + x < width * height,
                            0 <= x,
                    ;
                }
                let index = (y as usize) * (width as usize) + (x as usize);
                let cell = cells[index];
                let changed = full || match &self.previous {
                    None => true,
                    Some(previous) => previous.cells()[index] != cell,
                };
                let ghost before: DrawState = (
                    cursor,
                    active,
                    writer@.subrange(header.len() as int, writer@.len() as int),
                );
                assert(changed == cell_changed(job, x as int, y as int));
                if changed {
                    let at_cursor = match cursor {
                        Some((cx, cy)) => cx == x && cy == y,
                        None => false,
                    };
                    if !at_cursor {
                        write_move(writer, x, y);
                    }
                    let effective = Style {
                        foreground: if colored {
                            cell.style.foreground
                        } else {
                            None
                        },
                        bold: cell.style.bold,
                        dim: cell.style.dim,
                    };
                    if effective != active {
                        write_style(writer, effective);
                        active = effective;
                    }
                    push_utf8(writer, cell.glyph);
                    cursor = Some((x + 1, y));
                }
                proof {
                    assert(writer@.subrange(0, header.len() as int) =~= header);
                    assert((cursor, active, writer@.subrange(header.len() as int, writer@.len() as int)) =~= draw_cell(job, before, x, y));
                }
                x = x + 1;
            }
            proof {
                let cur: DrawState = (
                    cursor,
                    active,
                    writer@.subrange(header.len() as int, writer@.len() as int),
                );
                assert(draw_row(job, cur, y, x as int) == cur);
                assert(draw_rows(job, row_start, y as int) == draw_rows(
                    job,
                    draw_row(job, row_start, y, 0),
                    y + 1,
                ));
            }
            y = y + 1;
        }
        proof {
            let cur: DrawState = (
                cursor,
                active,
                writer@.subrange(header.len() as int, writer@.len() as int),
            );
            assert(draw_rows(job, cur, y as int) == cur);
            assert(writer@ =~= header + cur.2);
        }
        push_bytes(writer, &RESET_ATTRIBUTES);
        push_bytes(writer, &SYNC_END);
        assert(RESET_ATTRIBUTES@ =~= reset_attributes());
        assert(SYNC_END@ =~= sync_end());
        assert(writer@ =~= old(writer)@ + frame_bytes(job));
        self.previous = Some(canvas.snapshot());
        self.previous_colored = colored;
    }
}

} // verus!

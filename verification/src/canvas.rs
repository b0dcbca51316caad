use vstd::prelude::*;

verus! {

/// A 24-bit terminal colour.
#[derive(Clone, Copy, Debug, Default, PartialEq, Eq, Structural)]
pub struct Rgb {
    pub r: u8,
    pub g: u8,
    pub b: u8,
}

impl Rgb {
    pub fn new(r: u8, g: u8, b: u8) -> (c: Self)
        ensures
            c == (Rgb { r, g, b }),
    {
        Rgb { r, g, b }
    }
}

/// The foreground colour of an element of a frame: `color` on a coloured
/// frame, none on a monochrome one.
pub fn frame_color(colored: bool, color: Rgb) -> (foreground: Option<Rgb>)
    ensures
        foreground == (if colored {
            Some(color)
        } else {
            None
        }),
{
    if colored {
        Some(color)
    } else {
        None
    }
}

/// How a cell is drawn: an optional foreground colour, bold and dim.
#[derive(Clone, Copy, Debug, PartialEq, Eq, Structural)]
pub struct Style {
    pub foreground: Option<Rgb>,
    pub bold: bool,
    pub dim: bool,
}

/// The style with no colour and no attributes.
pub open spec fn plain_style() -> Style {
    Style { foreground: None, bold: false, dim: false }
}

impl Default for Style {
    fn default() -> (s: Self)
        ensures
            s == plain_style(),
    {
        Style { foreground: None, bold: false, dim: false }
    }
}

impl Style {
    /// A style that only sets the foreground colour.
    pub fn color(foreground: Rgb) -> (s: Self)
        ensures
            s == (Style { foreground: Some(foreground), bold: false, dim: false }),
    {
        Style { foreground: Some(foreground), bold: false, dim: false }
    }
}

/// One character cell of the canvas.
#[derive(Clone, Copy, Debug, PartialEq, Eq, Structural)]
pub struct Cell {
    pub glyph: char,
    pub style: Style,
}

/// An empty cell: a space in the plain style.
pub open spec fn blank_cell() -> Cell {
    Cell { glyph: ' ', style: plain_style() }
}

/// A cell counts as visible when its glyph is not a space.
pub open spec fn is_visible(cell: Cell) -> bool {
    cell.glyph != ' '
}

/// The number of visible cells in a sequence of cells.
pub open spec fn count_visible(cells: Seq<Cell>) -> nat
    decreases cells.len(),
{
    if cells.len() == 0 {
        0
    } else {
        count_visible(cells.drop_last()) + if is_visible(cells.last()) {
            1nat
        } else {
            0nat
        }
    }
}

impl Default for Cell {
    fn default() -> (c: Self)
        ensures
            c == blank_cell(),
    {
        Cell { glyph: ' ', style: Style::default() }
    }
}

/// The depth of a cell that nothing has been plotted into yet.
pub const EMPTY_DEPTH: i32 = i32::MIN;

/// A width by height grid of cells in row-major order, with a depth value
/// per cell for depth-tested plotting.
#[derive(Clone, Debug, PartialEq, Eq)]
pub struct Canvas {
    width: u16,
    height: u16,
    cells: Vec<Cell>,
    depth: Vec<i32>,
}

/// The index of column `x` of row `y` in a row-major grid `width` cells wide.
pub open spec fn grid_offset(width: int, x: int, y: int) -> int {
    y * width + x
}

/// Distinct in-bounds coordinates have distinct row-major offsets, and every
/// in-bounds offset lies inside the grid.
pub proof fn lemma_grid_offset(width: int, height: int, x: int, y: int, x2: int, y2: int)
    requires
        0 <= x < width,
        0 <= y < height,
        0 <= x2 < width,
        0 <= y2 < height,
    ensures
        0 <= grid_offset(width, x, y) < width * height,
        grid_offset(width, x, y) == grid_offset(width, x2, y2) ==> x == x2 && y == y2,
{
    assert(0 <= y * width + x < width * height) by (nonlinear_arith)
        requires
            0 <= x < width,
            0 <= y < height,
    ;
    assert(y * width + x == y2 * width + x2 ==> x == x2 && y == y2) by (nonlinear_arith)
        requires
            0 <= x < width,
            0 <= x2 < width,
            0 <= y,
            0 <= y2,
    {
        if y * width + x == y2 * width + x2 {
            if y < y2 {
                assert(y2 * width >= (y + 1) * width);
            } else if y2 < y {
                assert(y * width >= (y2 + 1) * width);
            }
        }
    };
}

/// The cells after writing `cell` at (`x`, `y`) of a `width` by `height`
/// grid; a position off the grid leaves it unchanged.
pub open spec fn put_cells(grid: Seq<Cell>, width: int, height: int, x: int, y: int, cell: Cell) -> Seq<
    Cell,
> {
    if 0 <= x < width && 0 <= y < height {
        grid.update(grid_offset(width, x, y), cell)
    } else {
        grid
    }
}

/// Reading an in-bounds position after a write gives the written cell at the
/// written position and the earlier cell everywhere else.
pub proof fn lemma_put_cells_at(
    grid: Seq<Cell>,
    width: int,
    height: int,
    x: int,
    y: int,
    cell: Cell,
    cx: int,
    cy: int,
)
    requires
        grid.len() == width * height,
        0 <= cx < width,
        0 <= cy < height,
    ensures
        put_cells(grid, width, height, x, y, cell).len() == grid.len(),
        put_cells(grid, width, height, x, y, cell)[grid_offset(width, cx, cy)] == if cx == x && cy
            == y {
            cell
        } else {
            grid[grid_offset(width, cx, cy)]
        },
{
    lemma_grid_offset(width, height, cx, cy, cx, cy);
    if 0 <= x < width && 0 <= y < height {
        lemma_grid_offset(width, height, cx, cy, x, y);
        lemma_grid_offset(width, height, x, y, x, y);
    }
}

/// One depth-tested write to the cells and depths of a `width` by `height`
/// canvas: `plot` is the column, the row, the quantized depth and the cell.
/// The write happens when the position is on the canvas and the depth is at
/// least the one recorded there.
pub open spec fn plot_step(
    grid: Seq<Cell>,
    depths: Seq<i32>,
    width: int,
    height: int,
    plot: (int, int, i32, Cell),
) -> (Seq<Cell>, Seq<i32>) {
    let i = grid_offset(width, plot.0, plot.1);
    if 0 <= plot.0 < width && 0 <= plot.1 < height && plot.2 >= depths[i] {
        (grid.update(i, plot.3), depths.update(i, plot.2))
    } else {
        (grid, depths)
    }
}

/// The cells and depths after the writes of `plots`, in order.
pub open spec fn plot_all(
    grid: Seq<Cell>,
    depths: Seq<i32>,
    width: int,
    height: int,
    plots: Seq<(int, int, i32, Cell)>,
) -> (Seq<Cell>, Seq<i32>)
    decreases plots.len(),
{
    if plots.len() == 0 {
        (grid, depths)
    } else {
        let before = plot_all(grid, depths, width, height, plots.drop_last());
        plot_step(before.0, before.1, width, height, plots.last())
    }
}

/// Whether the `k`-th write of `plots` is at (`x`, `y`) with depth `depth`.
pub open spec fn plot_hits(plots: Seq<(int, int, i32, Cell)>, k: int, x: int, y: int, depth: i32) -> bool {
    0 <= k < plots.len() && plots[k].0 == x && plots[k].1 == y && plots[k].2 == depth
}

/// The depth test over a history of writes: at each position of the canvas
/// the recorded depth becomes the largest of the depth it had and the
/// depths written there, and the cell is that of the last write at that
/// largest depth (so a later write wins a tie), or the cell it had when no
/// write reached that depth.
pub proof fn lemma_plots_keep_nearest(
    grid: Seq<Cell>,
    depths: Seq<i32>,
    width: int,
    height: int,
    plots: Seq<(int, int, i32, Cell)>,
    x: int,
    y: int,
)
    requires
        grid.len() == width * height,
        depths.len() == grid.len(),
        0 <= x < width,
        0 <= y < height,
    ensures
        ({
            let (g, d) = plot_all(grid, depths, width, height, plots);
            let i = grid_offset(width, x, y);
            &&& g.len() == grid.len()
            &&& d.len() == depths.len()
            &&& d[i] >= depths[i]
            &&& forall|k: int|
                0 <= k < plots.len() && plots[k].0 == x && plots[k].1 == y ==> d[i]
                    >= #[trigger] plots[k].2
            &&& d[i] == depths[i] || exists|k: int| plot_hits(plots, k, x, y, d[i])
            &&& (exists|k: int| plot_hits(plots, k, x, y, d[i])) ==> exists|k: int|
                #[trigger] plot_hits(plots, k, x, y, d[i]) && g[i] == plots[k].3 && forall|j: int|
                    k < j < plots.len() ==> !plot_hits(plots, j, x, y, d[i])
            &&& !(exists|k: int| plot_hits(plots, k, x, y, d[i])) ==> g[i] == grid[i]
        }),
    decreases plots.len(),
{
    let i = grid_offset(width, x, y);
    lemma_grid_offset(width, height, x, y, x, y);
    if plots.len() > 0 {
        let rest = plots.drop_last();
        let n = plots.len() - 1;
        let p = plots.last();
        lemma_plots_keep_nearest(grid, depths, width, height, rest, x, y);
        let (g0, d0) = plot_all(grid, depths, width, height, rest);
        let (g, d) = plot_all(grid, depths, width, height, plots);
        assert((g, d) == plot_step(g0, d0, width, height, p));
        assert(forall|k: int| 0 <= k < n ==> rest[k] == plots[k]);
        assert(forall|k: int| 0 <= k < n ==> plot_hits(rest, k, x, y, d0[i]) == plot_hits(plots, k, x, y, d0[i]));
        if p.0 == x && p.1 == y && p.2 >= d0[i] {
            assert(g[i] == p.3 && d[i] == p.2);
            assert(plot_hits(plots, n, x, y, d[i]));
        } else {
            if 0 <= p.0 < width && 0 <= p.1 < height {
                lemma_grid_offset(width, height, x, y, p.0, p.1);
                lemma_grid_offset(width, height, p.0, p.1, p.0, p.1);
            }
            assert(g[i] == g0[i] && d[i] == d0[i]);
            assert(!plot_hits(plots, n, x, y, d[i]));
            if exists|k: int| plot_hits(plots, k, x, y, d[i]) {
                let k = choose|k: int| plot_hits(plots, k, x, y, d[i]);
                assert(plot_hits(rest, k, x, y, d0[i]));
                let k2 = choose|k2: int|
                    #[trigger] plot_hits(rest, k2, x, y, d0[i]) && g0[i] == rest[k2].3 && forall|j: int|
                        k2 < j < rest.len() ==> !plot_hits(rest, j, x, y, d0[i]);
                assert(plot_hits(plots, k2, x, y, d[i]));
                assert forall|j: int| k2 < j < plots.len() implies !plot_hits(plots, j, x, y, d[i]) by {
                    if j < n {
                        assert(!plot_hits(rest, j, x, y, d0[i]));
                    }
                }
            } else {
                assert forall|k: int| 0 <= k < n implies !plot_hits(rest, k, x, y, d0[i]) by {
                    assert(!plot_hits(plots, k, x, y, d[i]));
                }
            }
        }
    }
}

/// A sequence of blank cells has no visible cell.
pub proof fn lemma_blank_cells_invisible(cells: Seq<Cell>)
    requires
        forall|i: int| 0 <= i < cells.len() ==> cells[i] == blank_cell(),
    ensures
        count_visible(cells) == 0,
    decreases cells.len(),
{
    if cells.len() > 0 {
        lemma_blank_cells_invisible(cells.drop_last());
    }
}

impl Canvas {
    /// The number of columns.
    pub closed spec fn w(&self) -> nat {
        self.width as nat
    }

    /// The number of rows.
    pub closed spec fn h(&self) -> nat {
        self.height as nat
    }

    /// The cells, row by row.
    pub closed spec fn grid(&self) -> Seq<Cell> {
        self.cells@
    }

    /// The depth recorded for each cell, row by row.
    pub closed spec fn depths(&self) -> Seq<i32> {
        self.depth@
    }

    /// The canvas holds exactly one cell and one depth per position.
    pub open spec fn wf(&self) -> bool {
        &&& self.grid().len() == self.w() * self.h()
        &&& self.depths().len() == self.grid().len()
        &&& self.w() <= u16::MAX
        &&& self.h() <= u16::MAX
    }

    pub open spec fn in_bounds(&self, x: int, y: int) -> bool {
        0 <= x < self.w() && 0 <= y < self.h()
    }

    /// The cell at column `x` of row `y`.
    pub open spec fn at(&self, x: int, y: int) -> Cell {
        self.grid()[grid_offset(self.w() as int, x, y)]
    }

    /// The depth at column `x` of row `y`.
    pub open spec fn depth_at(&self, x: int, y: int) -> i32 {
        self.depths()[grid_offset(self.w() as int, x, y)]
    }

    /// A fresh canvas shows nothing.
    pub proof fn lemma_fresh_canvas_is_empty(&self, width: u16, height: u16)
        requires
            self.is_fresh(width, height),
        ensures
            count_visible(self.grid()) == 0,
    {
        lemma_blank_cells_invisible(self.grid());
    }

    /// A fresh canvas: every cell blank, every depth empty.
    pub open spec fn is_fresh(&self, width: u16, height: u16) -> bool {
        &&& self.wf()
        &&& self.w() == width
        &&& self.h() == height
        &&& forall|i: int| 0 <= i < self.grid().len() ==> self.grid()[i] == blank_cell()
        &&& forall|i: int| 0 <= i < self.depths().len() ==> self.depths()[i] == EMPTY_DEPTH
    }

    pub fn new(width: u16, height: u16) -> (c: Self)
        ensures
            c.is_fresh(width, height),
    {
        proof {
            assert(0 <= (width as int) * (height as int) <= 0xffff * 0xffff) by (nonlinear_arith)
                requires
                    width <= 0xffff,
                    height <= 0xffff,
            ;
        }
        let len = (width as usize) * (height as usize);
        let mut cells: Vec<Cell> = Vec::with_capacity(len);
        let mut depth: Vec<i32> = Vec::with_capacity(len);
        let mut i: usize = 0;
        while i < len
            invariant
                i <= len,
                cells@.len() == i,
                depth@.len() == i,
                forall|k: int| 0 <= k < i ==> cells@[k] == blank_cell(),
                forall|k: int| 0 <= k < i ==> depth@[k] == EMPTY_DEPTH,
            decreases len - i,
        {
            cells.push(Cell::default());
            depth.push(EMPTY_DEPTH);
            i = i + 1;
        }
        Canvas { width, height, cells, depth }
    }

    pub fn width(&self) -> (w: u16)
        ensures
            w == self.w(),
    {
        self.width
    }

    pub fn height(&self) -> (h: u16)
        ensures
            h == self.h(),
    {
        self.height
    }

    pub fn cells(&self) -> (cells: &[Cell])
        ensures
            cells@ == self.grid(),
    {
        self.cells.as_slice()
    }

    /// Keeps the canvas when the size is unchanged; otherwise replaces it by
    /// a fresh canvas of the new size.
    pub fn resize(&mut self, width: u16, height: u16)
        requires
            old(self).wf(),
        ensures
            (old(self).w() == width && old(self).h() == height) ==> *final(self) == *old(self),
            !(old(self).w() == width && old(self).h() == height) ==> final(self).is_fresh(width, height),
            final(self).wf(),
            final(self).w() == width,
            final(self).h() == height,
    {
        if self.width == width && self.height == height {
            return;
        }
        *self = Canvas::new(width, height);
    }

    /// Blanks every cell and empties every depth; the size stays.
    pub fn clear(&mut self)
        requires
            old(self).wf(),
        ensures
            final(self).is_fresh(old(self).w() as u16, old(self).h() as u16),
    {
        let len = self.cells.len();
        let mut i: usize = 0;
        while i < len
            invariant
                self.wf(),
                self.w() == old(self).w(),
                self.h() == old(self).h(),
                len == self.grid().len(),
                i <= len,
                forall|k: int| 0 <= k < i ==> self.grid()[k] == blank_cell(),
                forall|k: int| 0 <= k < i ==> self.depths()[k] == EMPTY_DEPTH,
            decreases len - i,
        {
            self.cells[i] = Cell::default();
            self.depth[i] = EMPTY_DEPTH;
            i = i + 1;
        }
    }

    /// The row-major index of an in-bounds position, or `None` off the canvas.
    fn index(&self, x: i64, y: i64) -> (r: Option<usize>)
        requires
            self.wf(),
        ensures
            r is Some <==> self.in_bounds(x as int, y as int),
            r matches Some(i) ==> i == grid_offset(self.w() as int, x as int, y as int) && i
                < self.grid().len(),
    {
        if x < 0 || y < 0 || x >= self.width as i64 || y >= self.height as i64 {
            return None;
        }
        let n = self.cells.len();
        proof {
            lemma_grid_offset(self.w() as int, self.h() as int, x as int, y as int, x as int, y as int);
            assert((y as usize) * (self.width as usize) == y * self.w()) by (nonlinear_arith)
                requires
                    0 <= y,
                    y * self.w() < n,
                    self.w() == self.width,
            ;
        }
        Some((y as usize) * (self.width as usize) + (x as usize))
    }

    pub fn get(&self, x: u16, y: u16) -> (r: Option<Cell>)
        requires
            self.wf(),
        ensures
            r is Some <==> self.in_bounds(x as int, y as int),
            r matches Some(c) ==> c == self.at(x as int, y as int),
    {
        match self.index(x as i64, y as i64) {
            Some(i) => Some(self.cells[i]),
            None => None,
        }
    }

    /// The canvas after writing `cell` at (`x`, `y`): unchanged when the
    /// position is off the canvas.
    pub open spec fn spec_put(self, x: int, y: int, cell: Cell) -> Seq<Cell> {
        put_cells(self.grid(), self.w() as int, self.h() as int, x, y, cell)
    }

    fn put_wide(&mut self, x: i64, y: i64, glyph: char, style: Style)
        requires
            old(self).wf(),
        ensures
            final(self).wf(),
            final(self).w() == old(self).w(),
            final(self).h() == old(self).h(),
            final(self).depths() == old(self).depths(),
            final(self).grid() == old(self).spec_put(x as int, y as int, Cell { glyph, style }),
    {
        if let Some(i) = self.index(x, y) {
            self.cells[i] = Cell { glyph, style };
        }
    }

    /// Writes one cell; a position off the canvas is ignored.
    pub fn put(&mut self, x: i32, y: i32, glyph: char, style: Style)
        requires
            old(self).wf(),
        ensures
            final(self).wf(),
            final(self).w() == old(self).w(),
            final(self).h() == old(self).h(),
            final(self).depths() == old(self).depths(),
            final(self).grid() == old(self).spec_put(x as int, y as int, Cell { glyph, style }),
    {
        self.put_wide(x as i64, y as i64, glyph, style)
    }

    /// Writes a cell at a quantized depth when the position is on the canvas
    /// and the depth is at least the depth already recorded there; the
    /// nearer (larger) depth wins, and a tie goes to the later write.
    pub fn plot_quantized(&mut self, x: i32, y: i32, depth: i32, glyph: char, style: Style)
        requires
            old(self).wf(),
        ensures
            final(self).wf(),
            final(self).w() == old(self).w(),
            final(self).h() == old(self).h(),
            ({
                let wins = old(self).in_bounds(x as int, y as int) && depth >= old(self).depth_at(
                    x as int,
                    y as int,
                );
                let i = grid_offset(old(self).w() as int, x as int, y as int);
                &&& wins ==> final(self).grid() == old(self).grid().update(i, Cell { glyph, style })
                &&& wins ==> final(self).depths() == old(self).depths().update(i, depth)
                &&& !wins ==> *final(self) == *old(self)
            }),
            (final(self).grid(), final(self).depths()) == plot_step(
                old(self).grid(),
                old(self).depths(),
                old(self).w() as int,
                old(self).h() as int,
                (x as int, y as int, depth, Cell { glyph, style }),
            ),
    {
        if let Some(i) = self.index(x as i64, y as i64) {
            if depth >= self.depth[i] {
                self.depth[i] = depth;
                self.cells[i] = Cell { glyph, style };
            }
        }
    }
}

impl Canvas {
    /// Writes the characters of `text` from left to right along row `y`,
    /// the first at column `x`; characters off the canvas are dropped.
    pub fn text(&mut self, x: i32, y: i32, text: &str, style: Style)
        requires
            old(self).wf(),
        ensures
            final(self).wf(),
            final(self).w() == old(self).w(),
            final(self).h() == old(self).h(),
            final(self).depths() == old(self).depths(),
            forall|cx: int, cy: int|
                old(self).in_bounds(cx, cy) ==> #[trigger] final(self).at(cx, cy) == if cy == y
                    && x <= cx < x + text@.len() {
                    Cell { glyph: text@[cx - x], style }
                } else {
                    old(self).at(cx, cy)
                },
    {
        let n = text.unicode_len();
        // Characters that would land right of the last column are dropped.
        let room: i64 = self.width as i64 - x as i64;
        let limit: usize = if room <= 0 {
            0
        } else if (n as u64) < (room as u64) {
            n
        } else {
            room as usize
        };
        let ghost start = *self;
        let mut i: usize = 0;
        while i < limit
            invariant
                n == text@.len(),
                limit <= n,
                limit < n ==> x + limit >= start.w(),
                limit == 0 || x + limit <= start.w(),
                i <= limit,
                self.wf(),
                self.w() == start.w(),
                self.h() == start.h(),
                self.depths() == start.depths(),
                start.wf(),
                forall|cx: int, cy: int|
                    start.in_bounds(cx, cy) ==> #[trigger] self.at(cx, cy) == if cy == y && x <= cx
                        < x + i {
                        Cell { glyph: text@[cx - x], style }
                    } else {
                        start.at(cx, cy)
                    },
            decreases limit - i,
        {
            let glyph = text.get_char(i);
            let ghost before = *self;
            self.put_wide(x as i64 + i as i64, y as i64, glyph, style);
            proof {
                assert forall|cx: int, cy: int| start.in_bounds(cx, cy) implies #[trigger] self.at(
                    cx,
                    cy,
                ) == if cy == y && x <= cx < x + i + 1 {
                    Cell { glyph: text@[cx - x], style }
                } else {
                    start.at(cx, cy)
                } by {
                    lemma_put_cells_at(
                        before.grid(),
                        before.w() as int,
                        before.h() as int,
                        x + i,
                        y as int,
                        Cell { glyph, style },
                        cx,
                        cy,
                    );
                    assert(before.at(cx, cy) == if cy == y && x <= cx < x + i {
                        Cell { glyph: text@[cx - x], style }
                    } else {
                        start.at(cx, cy)
                    });
                    if cy == y && cx == x + i {
                        assert(cx - x == i);
                    }
                }
            }
            i = i + 1;
        }
    }

    /// Fills the `width` by `height` rectangle whose top-left corner is
    /// (`x`, `y`) with spaces in `style`; the part off the canvas is dropped.
    pub fn fill_rect(&mut self, x: i32, y: i32, width: u16, height: u16, style: Style)
        requires
            old(self).wf(),
        ensures
            final(self).wf(),
            final(self).w() == old(self).w(),
            final(self).h() == old(self).h(),
            final(self).depths() == old(self).depths(),
            forall|cx: int, cy: int|
                old(self).in_bounds(cx, cy) ==> #[trigger] final(self).at(cx, cy) == if x <= cx < x
                    + width && y <= cy < y + height {
                    Cell { glyph: ' ', style }
                } else {
                    old(self).at(cx, cy)
                },
    {
        let ghost start = *self;
        let mut row: u16 = 0;
        while row < height
            invariant
                row <= height,
                self.wf(),
                self.w() == start.w(),
                self.h() == start.h(),
                self.depths() == start.depths(),
                start.wf(),
                forall|cx: int, cy: int|
                    start.in_bounds(cx, cy) ==> #[trigger] self.at(cx, cy) == if x <= cx < x + width
                        && y <= cy < y + row {
                        Cell { glyph: ' ', style }
                    } else {
                        start.at(cx, cy)
                    },
            decreases height - row,
        {
            let mut column: u16 = 0;
            while column < width
                invariant
                    row < height,
                    column <= width,
                    self.wf(),
                    self.w() == start.w(),
                    self.h() == start.h(),
                    self.depths() == start.depths(),
                    start.wf(),
                    forall|cx: int, cy: int|
                        start.in_bounds(cx, cy) ==> #[trigger] self.at(cx, cy) == if x <= cx < x
                            + width && (y <= cy < y + row || (cy == y + row && cx < x + column)) {
                            Cell { glyph: ' ', style }
                        } else {
                            start.at(cx, cy)
                        },
                decreases width - column,
            {
                let ghost before = *self;
                self.put_wide(x as i64 + column as i64, y as i64 + row as i64, ' ', style);
                proof {
                    assert forall|cx: int, cy: int| start.in_bounds(cx, cy) implies #[trigger] self.at(
                        cx,
                        cy,
                    ) == if x <= cx < x + width && (y <= cy < y + row || (cy == y + row && cx < x
                        + column + 1)) {
                        Cell { glyph: ' ', style }
                    } else {
                        start.at(cx, cy)
                    } by {
                        lemma_put_cells_at(
                            before.grid(),
                            before.w() as int,
                            before.h() as int,
                            x + column,
                            y + row,
                            Cell { glyph: ' ', style },
                            cx,
                            cy,
                        );
                        assert(before.at(cx, cy) == if x <= cx < x + width && (y <= cy < y + row || (
                        cy == y + row && cx < x + column)) {
                            Cell { glyph: ' ', style }
                        } else {
                            start.at(cx, cy)
                        });
                    }
                }
                column = column + 1;
            }
            row = row + 1;
        }
    }

    /// An independent copy of the canvas.
    pub fn snapshot(&self) -> (copy: Canvas)
        requires
            self.wf(),
        ensures
            copy.wf(),
            copy.w() == self.w(),
            copy.h() == self.h(),
            copy.grid() == self.grid(),
            copy.depths() == self.depths(),
    {
        let len = self.cells.len();
        let mut cells: Vec<Cell> = Vec::with_capacity(len);
        let mut depth: Vec<i32> = Vec::with_capacity(len);
        let mut i: usize = 0;
        while i < len
            invariant
                len == self.grid().len(),
                len == self.depths().len(),
                i <= len,
                cells@ == self.grid().take(i as int),
                depth@ == self.depths().take(i as int),
            decreases len - i,
        {
            cells.push(self.cells[i]);
            depth.push(self.depth[i]);
            assert(self.grid().take(i + 1) =~= self.grid().take(i as int).push(self.grid()[i as int]));
            assert(self.depths().take(i + 1) =~= self.depths().take(i as int).push(
                self.depths()[i as int],
            ));
            i = i + 1;
        }
        assert(self.grid().take(len as int) =~= self.grid());
        assert(self.depths().take(len as int) =~= self.depths());
        Canvas { width: self.width, height: self.height, cells, depth }
    }

    /// The number of cells whose glyph is not a space.
    pub fn visible_cells(&self) -> (n: usize)
        requires
            self.wf(),
        ensures
            n == count_visible(self.grid()),
    {
        let len = self.cells.len();
        let mut count: usize = 0;
        let mut i: usize = 0;
        while i < len
            invariant
                len == self.grid().len(),
                i <= len,
                count == count_visible(self.grid().take(i as int)),
                count <= i,
            decreases len - i,
        {
            proof {
                assert(self.grid().take(i + 1).drop_last() =~= self.grid().take(i as int));
            }
            if self.cells[i].glyph != ' ' {
                count = count + 1;
            }
            i = i + 1;
        }
        proof {
            assert(self.grid().take(len as int) =~= self.grid());
        }
        count
    }
}

} // verus!

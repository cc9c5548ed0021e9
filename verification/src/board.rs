//! Board composition: checks the board dimension against the cell count,
//! allocates the output buffer, draws the grid, and wraps each cell's text
//! into a per-cell plan of positioned lines. The surrounding application
//! rasterizes each planned line into glyph masks and blends them.

use crate::errors::RenderError;
use crate::layout::spec_wrap;
use crate::layout::word_views;
use crate::layout::wrap_text;
use crate::layout::FontMetrics;
use crate::layout::joined;
use crate::layout::lemma_wrap_height;
use crate::pixel::PixelBuffer;
use crate::pixel::Rgb;
use vstd::prelude::*;

verus! {

/// Background of the board image.
pub open spec fn spec_bg_color() -> Rgb {
    Rgb { r: 245, g: 245, b: 245 }
}

/// Color of the grid lines.
pub open spec fn spec_line_color() -> Rgb {
    Rgb { r: 30, g: 30, b: 30 }
}

/// Color of the cell text.
pub open spec fn spec_text_color() -> Rgb {
    Rgb { r: 20, g: 20, b: 20 }
}

pub fn bg_color() -> (r: Rgb)
    ensures
        r == spec_bg_color(),
{
    Rgb { r: 245, g: 245, b: 245 }
}

pub fn line_color() -> (r: Rgb)
    ensures
        r == spec_line_color(),
{
    Rgb { r: 30, g: 30, b: 30 }
}

pub fn text_color() -> (r: Rgb)
    ensures
        r == spec_text_color(),
{
    Rgb { r: 20, g: 20, b: 20 }
}

/// Inner margin between a cell's border and its text box, in pixels, on each
/// side (so a cell loses twice this from each dimension).
pub const CELL_MARGIN: u32 = 10;

/// One cell's content, shaped: its words in order, and each word's measured
/// advance width at the chosen font size.
pub struct ShapedCell {
    pub words: Vec<String>,
    pub widths: Vec<u32>,
}

impl ShapedCell {
    /// One measured width per word.
    pub open spec fn wf(&self) -> bool {
        self.words@.len() == self.widths@.len()
    }
}

/// One laid-out line for the application to rasterize: its text, the origin
/// of its cell's text box in the image, and the baseline offset below that
/// origin (first line's baseline sits one ascent below the box top).
pub struct PlannedLine {
    pub text: String,
    pub left: u32,
    pub top: u32,
    pub baseline: u32,
}

/// Whether coordinate `v` lies on a grid boundary: at `padding + i * cell_px`
/// for some cell index `i` up to `n`, and inside the image.
pub open spec fn on_grid_line(v: int, n: int, cell_px: int, padding: int, side: int) -> bool {
    &&& padding <= v <= padding + n * cell_px
    &&& (v - padding) % cell_px == 0
    &&& v < side
}

/// Whether image pixel `(x, y)` lies on one of the `n + 1` horizontal or
/// `n + 1` vertical grid lines (single-pixel width, clamped to the image).
pub open spec fn is_grid_pixel(x: int, y: int, n: int, cell_px: int, padding: int, side: int) -> bool {
    ||| (on_grid_line(y, n, cell_px, padding, side) && padding <= x < padding + n * cell_px)
    ||| (on_grid_line(x, n, cell_px, padding, side) && padding <= y < padding + n * cell_px)
}

fn grid_test(x: u32, y: u32, n: u32, cell_px: u32, padding: u32, side: u32) -> (r: bool)
    requires
        cell_px >= 1,
        n as int * cell_px as int + 2 * padding as int == side,
        side <= 65535,
    ensures
        r == is_grid_pixel(x as int, y as int, n as int, cell_px as int, padding as int,
            side as int),
{
    let gw: u32 = n * cell_px;
    let on_y: bool = y >= padding && y <= padding + gw && (y - padding) % cell_px == 0 && y
        < side;
    let on_x: bool = x >= padding && x <= padding + gw && (x - padding) % cell_px == 0 && x
        < side;
    (on_y && padding <= x && x < padding + gw) || (on_x && padding <= y && y < padding + gw)
}

/// The lines planned for the cell at `(row, col)` are exactly that cell's
/// wrapped lines, joined into text, placed at the cell's text box (origin one
/// margin inside the cell corner) with each baseline one ascent below its
/// line top.
pub open spec fn cell_plan_ok(
    lines: Seq<PlannedLine>,
    cell: ShapedCell,
    row: int,
    col: int,
    cell_px: u32,
    padding: u32,
    m: FontMetrics,
) -> bool {
    let bx = (cell_px - 2 * CELL_MARGIN) as u32;
    let spans = spec_wrap(cell.widths@, m.space_width, m.line_height, bx, bx, 0, 0);
    &&& lines.len() == spans.len()
    &&& forall|i: int|
        0 <= i < spans.len() ==> (#[trigger] lines[i]).text@ == joined(
            word_views(cell.words@),
            spans[i].start as int,
            spans[i].end as int,
        ) && lines[i].left == padding + col * cell_px + CELL_MARGIN && lines[i].top == padding
            + row * cell_px + CELL_MARGIN && lines[i].baseline == spans[i].y + m.ascent
}

/// Lay out one cell: wrap its words into the margin-reduced box and place
/// each line at the cell's text box origin.
pub fn plan_cell(cell: &ShapedCell, row: u32, col: u32, cell_px: u32, padding: u32, m: FontMetrics) -> (r:
    Vec<PlannedLine>)
    requires
        cell.wf(),
        cell_px >= 2 * CELL_MARGIN,
        m.ascent <= 65535,
        padding as int + (col + 1) * cell_px as int <= 65535,
        padding as int + (row + 1) * cell_px as int <= 65535,
    ensures
        cell_plan_ok(r@, *cell, row as int, col as int, cell_px, padding, m),
{
    let bx: u32 = cell_px - 2 * CELL_MARGIN;
    let nw: usize = cell.widths.len();
    let lines = wrap_text(&cell.words, &cell.widths, m, bx, bx);
    let ghost spans = spec_wrap(cell.widths@, m.space_width, m.line_height, bx, bx, 0, 0);
    proof {
        assert(cell.widths@.len() == nw);
        assert(cell_px as int <= (col as int + 1) * cell_px as int) by (nonlinear_arith)
            requires
                col >= 0,
                cell_px >= 0,
        ;
        lemma_wrap_height(cell.widths@, m.space_width, m.line_height, bx, bx, 0, 0);
        assert forall|j: int| 0 <= j < spans.len() implies (#[trigger] spans[j]).y
            + m.line_height <= 65535 by {
            assert(spans[j] == spec_wrap(cell.widths@, m.space_width, m.line_height, bx, bx,
                0, 0)[j]);
            assert(spans[j].y == (0 + j) * m.line_height);
            assert((0 + j) * m.line_height + m.line_height <= bx);
        }
        assert((col as int) * (cell_px as int) < (col as int + 1) * (cell_px as int))
            by (nonlinear_arith)
            requires
                cell_px >= 1,
        ;
        assert((row as int) * (cell_px as int) < (row as int + 1) * (cell_px as int))
            by (nonlinear_arith)
            requires
                cell_px >= 1,
        ;
    }
    let left: u32 = padding + col * cell_px + CELL_MARGIN;
    let top: u32 = padding + row * cell_px + CELL_MARGIN;
    let ghost lv = lines@;
    let mut r: Vec<PlannedLine> = Vec::new();
    let mut i: usize = 0;
    while i < lines.len()
        invariant
            i <= lv.len(),
            lines@ == lv,
            lv.len() == spans.len(),
            forall|j: int|
                0 <= j < spans.len() ==> (#[trigger] spans[j]).y + m.line_height <= 65535
                    && lv[j].y == spans[j].y && lv[j].text@ == joined(
                    word_views(cell.words@),
                    spans[j].start as int,
                    spans[j].end as int,
                ),
            m.ascent <= 65535,
            r@.len() == i,
            left == padding + col * cell_px + CELL_MARGIN,
            top == padding + row * cell_px + CELL_MARGIN,
            forall|j: int|
                0 <= j < i ==> (#[trigger] r@[j]).text@ == lv[j].text@ && r@[j].left == left
                    && r@[j].top == top && r@[j].baseline == lv[j].y + m.ascent,
        decreases lv.len() - i,
    {
        proof {
            assert(spans[i as int].y + m.line_height <= 65535);
            assert(lv[i as int].y == spans[i as int].y);
        }
        let text: String = lines[i].text.clone();
        let baseline: u32 = lines[i].y + m.ascent;
        r.push(PlannedLine { text, left, top, baseline });
        i = i + 1;
    }
    r
}

/// Render the board: fails with `DimensionMismatch` unless exactly `n * n`
/// cells are supplied; otherwise returns the image (background plus grid
/// lines) and, per cell in row-major order, the laid-out lines to rasterize.
pub fn render(n: u32, cells: &Vec<ShapedCell>, cell_px: u32, padding: u32, m: FontMetrics) -> (r:
    Result<(PixelBuffer, Vec<Vec<PlannedLine>>), RenderError>)
    requires
        n >= 1,
        cell_px >= 2 * CELL_MARGIN,
        m.ascent <= 65535,
        n as int * cell_px as int + 2 * padding as int <= 65535,
        forall|c: int| 0 <= c < cells@.len() ==> (#[trigger] cells@[c]).wf(),
    ensures
        match r {
            Err(e) => e == RenderError::DimensionMismatch && cells@.len() != n as int * n as int,
            Ok(out) => {
                let side = n as int * cell_px as int + 2 * padding as int;
                &&& cells@.len() == n as int * n as int
                &&& out.0.wf()
                &&& out.0.spec_width() == side
                &&& out.0.spec_height() == side
                &&& forall|x: int, y: int|
                    0 <= x < side && 0 <= y < side ==> out.0.pixel(x, y) == (if is_grid_pixel(
                        x,
                        y,
                        n as int,
                        cell_px as int,
                        padding as int,
                        side,
                    ) {
                        spec_line_color()
                    } else {
                        spec_bg_color()
                    })
                &&& out.1@.len() == n as int * n as int
                &&& forall|c: int|
                    0 <= c < out.1@.len() ==> cell_plan_ok((#[trigger] out.1@[c])@, cells@[c],
                        c / n as int, c % n as int, cell_px, padding, m)
            },
        },
{
    proof {
        assert(n as int * n as int <= 65535 * 65535 && n as int <= n as int * cell_px as int)
            by (nonlinear_arith)
            requires
                1 <= n,
                cell_px >= 20,
                n as int * cell_px as int <= 65535,
        ;
    }
    let total: u64 = (n as u64) * (n as u64);
    if cells.len() as u64 != total {
        return Err(RenderError::DimensionMismatch);
    }
    let side: u32 = n * cell_px + 2 * padding;
    let mut buf = PixelBuffer::new(side, side, bg_color());
    let lc = line_color();

    // Grid pass: decide each pixel against the grid predicate.
    let mut x: u32 = 0;
    while x < side
        invariant
            x <= side,
            buf.wf(),
            buf.spec_width() == side,
            buf.spec_height() == side,
            cell_px >= 1,
            n as int * cell_px as int + 2 * padding as int == side,
            side <= 65535,
            lc == spec_line_color(),
            forall|px: int, py: int|
                0 <= px < side && 0 <= py < side ==> #[trigger] buf.pixel(px, py) == (if px < x
                    && is_grid_pixel(px, py, n as int, cell_px as int, padding as int,
                side as int) {
                    spec_line_color()
                } else {
                    spec_bg_color()
                }),
        decreases side - x,
    {
        let mut y: u32 = 0;
        while y < side
            invariant
                x < side,
                y <= side,
                buf.wf(),
                buf.spec_width() == side,
                buf.spec_height() == side,
                cell_px >= 1,
                n as int * cell_px as int + 2 * padding as int == side,
                side <= 65535,
                lc == spec_line_color(),
                forall|px: int, py: int|
                    0 <= px < side && 0 <= py < side ==> #[trigger] buf.pixel(px, py) == (if (
                    px < x || (px == x && py < y)) && is_grid_pixel(px, py, n as int,
                    cell_px as int, padding as int, side as int) {
                        spec_line_color()
                    } else {
                        spec_bg_color()
                    }),
            decreases side - y,
        {
            let ghost pre = buf;
            let was_grid: bool = grid_test(x, y, n, cell_px, padding, side);
            if was_grid {
                buf.put_pixel(x, y, lc);
            }
            proof {
                assert forall|px: int, py: int|
                    0 <= px < side && 0 <= py < side implies #[trigger] buf.pixel(px, py) == (
                if (px < x || (px == x && py < y + 1)) && is_grid_pixel(px, py, n as int,
                cell_px as int, padding as int, side as int) {
                    spec_line_color()
                } else {
                    spec_bg_color()
                }) by {
                    if px == x && py == y {
                        if !was_grid {
                            assert(buf == pre);
                            assert(pre.pixel(px, py) == spec_bg_color());
                        }
                    } else {
                        if was_grid {
                            assert(buf.pixel(px, py) == pre.pixel(px, py));
                        } else {
                            assert(buf == pre);
                        }
                    }
                }
            }
            y = y + 1;
        }
        x = x + 1;
    }

    // Layout pass: one plan per cell, row-major.
    let mut plans: Vec<Vec<PlannedLine>> = Vec::new();
    let mut c: usize = 0;
    let total_us: usize = cells.len();
    while c < total_us
        invariant
            c <= total_us,
            total_us == cells@.len(),
            cells@.len() == n as int * n as int,
            n >= 1,
            cell_px >= 2 * CELL_MARGIN,
            m.ascent <= 65535,
            n as int * cell_px as int + 2 * padding as int <= 65535,
            forall|c2: int| 0 <= c2 < cells@.len() ==> (#[trigger] cells@[c2]).wf(),
            plans@.len() == c,
            forall|c2: int|
                0 <= c2 < c ==> cell_plan_ok((#[trigger] plans@[c2])@, cells@[c2],
                    c2 / n as int, c2 % n as int, cell_px, padding, m),
        decreases total_us - c,
    {
        let row: u32 = ((c as u64) / (n as u64)) as u32;
        let col: u32 = ((c as u64) % (n as u64)) as u32;
        proof {
            vstd::arithmetic::div_mod::lemma_fundamental_div_mod(c as int, n as int);
            assert((c as int) / (n as int) < (n as int)) by (nonlinear_arith)
                requires
                    n >= 1,
                    (c as int) < (n as int) * (n as int),
            ;
            assert(((c as int) / (n as int)) * (n as int) >= 0) by (nonlinear_arith)
                requires
                    n >= 1,
                    (c as int) / (n as int) >= 0,
            ;
            assert(padding as int + (col as int + 1) * cell_px as int <= 65535)
                by (nonlinear_arith)
                requires
                    col as int + 1 <= n as int,
                    cell_px >= 1,
                    n as int * cell_px as int + 2 * padding as int <= 65535,
            ;
            assert(padding as int + (row as int + 1) * cell_px as int <= 65535)
                by (nonlinear_arith)
                requires
                    row as int + 1 <= n as int,
                    cell_px >= 1,
                    n as int * cell_px as int + 2 * padding as int <= 65535,
            ;
        }
        let plan = plan_cell(&cells[c], row, col, cell_px, padding, m);
        plans.push(plan);
        c = c + 1;
    }
    Ok((buf, plans))
}

} // verus!

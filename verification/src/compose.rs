//! The compositor: copies the frames of a plan onto one sheet.

use crate::document::Document;
use crate::plan::{lemma_cell_extent, lemma_cell_of_tile, Plan};
use crate::raster::{
    lemma_byte_of_pixel, lemma_pixel_of_byte, offset, pixel_x, pixel_y, replaced, transparent,
    Raster,
};
use vstd::arithmetic::div_mod::{
    lemma_div_pos_is_pos, lemma_fundamental_div_mod, lemma_fundamental_div_mod_converse,
    lemma_mod_bound, lemma_multiply_divide_lt,
};
use vstd::arithmetic::mul::lemma_mul_is_commutative;
use vstd::prelude::*;

verus! {

/// The bytes of the sheet after the first `n` placements of `plan` have
/// been carried out, one after the other, on a transparent sheet. A later
/// placement replaces what an earlier one left under it.
pub open spec fn composed(doc: &Document, plan: &Plan, n: nat) -> Seq<u8>
    decreases n,
{
    if n == 0 {
        transparent(4 * plan.total_w * plan.total_h)
    } else {
        let p = plan.placements@[n - 1];
        let frame = doc.frames@[p.src as int];
        replaced(
            composed(doc, plan, (n - 1) as nat),
            plan.total_w as int,
            frame.data@,
            frame.width as int,
            frame.height as int,
            p.dst_x as int,
            p.dst_y as int,
        )
    }
}

/// Number of the grid cell that byte `b` of the sheet lies in, cells counted
/// row by row.
pub open spec fn tile_of_byte(doc: &Document, plan: &Plan, b: int) -> int {
    let px = pixel_x(plan.total_w as int, b);
    let py = pixel_y(plan.total_w as int, b);
    (py / (doc.height as int)) * plan.cols + px / (doc.width as int)
}

/// Byte `b` of a sheet on which the first `n` cells of a grid show their
/// frames and the others are transparent.
pub open spec fn tiled_byte(doc: &Document, plan: &Plan, n: int, b: int) -> u8 {
    let px = pixel_x(plan.total_w as int, b);
    let py = pixel_y(plan.total_w as int, b);
    let tile = tile_of_byte(doc, plan, b);
    if tile < n {
        doc.frames@[plan.placements@[tile].src as int].channel(
            px % (doc.width as int),
            py % (doc.height as int),
            b % 4,
        )
    } else {
        0u8
    }
}

/// A coordinate lies in cell `q` of a row of cells of `size` pixels exactly
/// when its quotient by `size` is `q`; its place within the cell is then its
/// remainder.
pub proof fn lemma_coordinate_in_cell(p: int, q: int, size: int)
    requires
        size > 0,
        p >= 0,
    ensures
        (q * size <= p < q * size + size) <==> p / size == q,
        p / size == q ==> p - q * size == p % size,
{
    lemma_fundamental_div_mod(p, size);
    lemma_mod_bound(p, size);
    lemma_mul_is_commutative(size, p / size);
    if q * size <= p < q * size + size {
        lemma_fundamental_div_mod_converse(p, size, q, p - q * size);
    }
}

/// Counted row by row in a grid that is `cols` wide, the cell in row `row`
/// and column `col` is number `n` exactly when `row` and `col` are the
/// quotient and the remainder of `n` by `cols`.
pub proof fn lemma_cell_number(n: int, cols: int, row: int, col: int)
    requires
        cols > 0,
        0 <= col < cols,
    ensures
        row * cols + col == n <==> (row == n / cols && col == n % cols),
{
    lemma_fundamental_div_mod(n, cols);
    lemma_mul_is_commutative(cols, n / cols);
    if row * cols + col == n {
        lemma_fundamental_div_mod_converse(n, cols, row, col);
    }
}

/// Every byte of the sheet of a grid lies in a cell, and the cells are
/// numbered from zero.
pub proof fn lemma_tile_not_negative(doc: &Document, plan: &Plan, b: int)
    requires
        doc.wf(),
        plan.is_grid(doc.width as int, doc.height as int),
        0 <= b < 4 * plan.total_w * plan.total_h,
    ensures
        tile_of_byte(doc, plan, b) >= 0,
{
    let col = pixel_x(plan.total_w as int, b) / (doc.width as int);
    let row = pixel_y(plan.total_w as int, b) / (doc.height as int);
    assert(plan.total_w > 0) by (nonlinear_arith)
        requires
            plan.total_w == plan.cols * doc.width,
            plan.cols >= 1,
            doc.width >= 1,
    ;
    lemma_pixel_of_byte(plan.total_w as int, plan.total_h as int, b);
    lemma_div_pos_is_pos(pixel_x(plan.total_w as int, b), doc.width as int);
    lemma_div_pos_is_pos(pixel_y(plan.total_w as int, b), doc.height as int);
    assert(row * plan.cols >= 0) by (nonlinear_arith)
        requires
            row >= 0,
            plan.cols >= 1,
    ;
}

/// On a grid, carrying out the first `n` placements leaves a sheet whose
/// first `n` cells show their frames, byte for byte, and whose other cells
/// are transparent.
pub proof fn lemma_composed_is_tiled(doc: &Document, plan: &Plan, n: nat)
    requires
        doc.wf(),
        plan.is_grid(doc.width as int, doc.height as int),
        plan.reads_from(doc.frames@.len() as int),
        n <= plan.placements@.len(),
    ensures
        composed(doc, plan, n).len() == 4 * plan.total_w * plan.total_h,
        forall|b: int|
            0 <= b < 4 * plan.total_w * plan.total_h ==> #[trigger] composed(doc, plan, n)[b]
                == tiled_byte(doc, plan, n as int, b),
    decreases n,
{
    let total_w = plan.total_w as int;
    let total_h = plan.total_h as int;
    let width = doc.width as int;
    let height = doc.height as int;
    let cols = plan.cols as int;
    let tiles = plan.placements@.len() as int;
    assert(total_w > 0) by (nonlinear_arith)
        requires
            total_w == cols * width,
            cols >= 1,
            width >= 1,
    ;
    if n == 0 {
        assert forall|b: int| 0 <= b < 4 * total_w * total_h implies #[trigger] composed(
            doc,
            plan,
            n,
        )[b] == tiled_byte(doc, plan, n as int, b) by {
            lemma_tile_not_negative(doc, plan, b);
        }
    } else {
        let m = (n - 1) as nat;
        lemma_composed_is_tiled(doc, plan, m);
        let before = composed(doc, plan, m);
        let after = composed(doc, plan, n);
        let p = plan.placements@[m as int];
        let frame = doc.frames@[p.src as int];
        lemma_cell_of_tile(m as int, tiles, cols);
        assert forall|b: int| 0 <= b < 4 * total_w * total_h implies #[trigger] after[b]
            == tiled_byte(doc, plan, n as int, b) by {
            let px = pixel_x(total_w, b);
            let py = pixel_y(total_w, b);
            lemma_pixel_of_byte(total_w, total_h, b);
            lemma_mul_is_commutative(cols, width);
            lemma_multiply_divide_lt(px, width, cols);
            lemma_div_pos_is_pos(px, width);
            lemma_coordinate_in_cell(px, m as int % cols, width);
            lemma_coordinate_in_cell(py, m as int / cols, height);
            lemma_cell_number(m as int, cols, py / height, px / width);
            assert(before[b] == tiled_byte(doc, plan, m as int, b));
        }
    }
}

/// On the sheet of a grid, the cell of tile `i` holds the bytes of the frame
/// that the tile shows, pixel for pixel.
pub proof fn lemma_tile_shows_frame(doc: &Document, plan: &Plan, i: int, x: int, y: int, c: int)
    requires
        doc.wf(),
        plan.is_grid(doc.width as int, doc.height as int),
        plan.reads_from(doc.frames@.len() as int),
        0 <= i < plan.placements@.len(),
        0 <= x < doc.width,
        0 <= y < doc.height,
        0 <= c < 4,
    ensures
        plan.placements@[i].dst_x + x < plan.total_w,
        plan.placements@[i].dst_y + y < plan.total_h,
        composed(doc, plan, plan.placements@.len())[offset(
            plan.total_w as int,
            plan.placements@[i].dst_x + x,
            plan.placements@[i].dst_y + y,
            c,
        )] == doc.frames@[plan.placements@[i].src as int].channel(x, y, c),
{
    let tiles = plan.placements@.len();
    let cols = plan.cols as int;
    lemma_cell_of_tile(i, tiles as int, cols);
    lemma_cell_shows_tile(doc, plan, i % cols, i / cols, x, y, c);
}

/// On the sheet of a grid, every cell that no tile stands in is transparent.
/// There are such cells where the tiles do not fill the last row.
pub proof fn lemma_unused_cell_is_transparent(
    doc: &Document,
    plan: &Plan,
    col: int,
    row: int,
    x: int,
    y: int,
    c: int,
)
    requires
        doc.wf(),
        plan.is_grid(doc.width as int, doc.height as int),
        plan.reads_from(doc.frames@.len() as int),
        0 <= col < plan.cols,
        0 <= row < plan.rows,
        row * plan.cols + col >= plan.placements@.len(),
        0 <= x < doc.width,
        0 <= y < doc.height,
        0 <= c < 4,
    ensures
        col * doc.width + x < plan.total_w,
        row * doc.height + y < plan.total_h,
        composed(doc, plan, plan.placements@.len())[offset(
            plan.total_w as int,
            col * doc.width + x,
            row * doc.height + y,
            c,
        )] == 0,
{
    lemma_cell_shows_tile(doc, plan, col, row, x, y, c);
}

/// The byte of channel `c` of the pixel `(x, y)` of the cell `(col, row)` of
/// a grid is the one that `tiled_byte` gives for the number of that cell.
proof fn lemma_cell_shows_tile(
    doc: &Document,
    plan: &Plan,
    col: int,
    row: int,
    x: int,
    y: int,
    c: int,
)
    requires
        doc.wf(),
        plan.is_grid(doc.width as int, doc.height as int),
        plan.reads_from(doc.frames@.len() as int),
        0 <= col < plan.cols,
        0 <= row < plan.rows,
        0 <= x < doc.width,
        0 <= y < doc.height,
        0 <= c < 4,
    ensures
        col * doc.width + x < plan.total_w,
        row * doc.height + y < plan.total_h,
        ({
            let b = offset(plan.total_w as int, col * doc.width + x, row * doc.height + y, c);
            &&& 0 <= b < 4 * plan.total_w * plan.total_h
            &&& pixel_x(plan.total_w as int, b) == col * doc.width + x
            &&& pixel_y(plan.total_w as int, b) == row * doc.height + y
            &&& b % 4 == c
            &&& tile_of_byte(doc, plan, b) == row * plan.cols + col
            &&& pixel_x(plan.total_w as int, b) % (doc.width as int) == x
            &&& pixel_y(plan.total_w as int, b) % (doc.height as int) == y
            &&& composed(doc, plan, plan.placements@.len())[b] == tiled_byte(
                doc,
                plan,
                plan.placements@.len() as int,
                b,
            )
        }),
{
    let width = doc.width as int;
    let height = doc.height as int;
    let total_w = plan.total_w as int;
    let total_h = plan.total_h as int;
    let px = col * width + x;
    let py = row * height + y;
    lemma_cell_extent(col, plan.cols as int, width);
    lemma_cell_extent(row, plan.rows as int, height);
    lemma_byte_of_pixel(total_w, total_h, px, py, c);
    lemma_coordinate_in_cell(px, col, width);
    lemma_coordinate_in_cell(py, row, height);
    lemma_composed_is_tiled(doc, plan, plan.placements@.len());
}

/// Carries out a plan: copies each placement's frame onto a sheet that
/// starts out transparent, in the order of the plan.
pub fn compose(plan: &Plan, doc: &Document) -> (sheet: Raster)
    requires
        doc.wf(),
        plan.reads_from(doc.frames@.len() as int),
        4 * plan.total_w * plan.total_h <= usize::MAX,
    ensures
        sheet.wf(),
        sheet.width == plan.total_w,
        sheet.height == plan.total_h,
        sheet.data@ == composed(doc, plan, plan.placements@.len()),
{
    let mut sheet = Raster::transparent(plan.total_w, plan.total_h);
    let mut i: usize = 0;
    while i < plan.placements.len()
        invariant
            i <= plan.placements@.len(),
            doc.wf(),
            plan.reads_from(doc.frames@.len() as int),
            sheet.wf(),
            sheet.width == plan.total_w,
            sheet.height == plan.total_h,
            sheet.data@ == composed(doc, plan, i as nat),
        decreases plan.placements@.len() - i,
    {
        let p = &plan.placements[i];
        let frame = &doc.frames[p.src];
        sheet.replace(frame, p.dst_x, p.dst_y);
        i += 1;
    }
    sheet
}

} // verus!

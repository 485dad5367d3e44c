//! The sheet planner: from a selection of tags to a grid of placements.

use crate::document::Document;
use crate::error::SheetError;
use vstd::arithmetic::div_mod::{
    lemma_div_is_ordered, lemma_div_pos_is_pos, lemma_fundamental_div_mod,
    lemma_fundamental_div_mod_converse, lemma_mod_bound, lemma_multiply_divide_lt,
};
use vstd::arithmetic::mul::lemma_mul_is_commutative;
use vstd::prelude::*;

verus! {

/// `tiles / cols`, rounded up.
pub open spec fn ceil_div(tiles: int, cols: int) -> int {
    if tiles % cols == 0 {
        tiles / cols
    } else {
        tiles / cols + 1
    }
}

/// `ceil_div(tiles, cols)` rows of `cols` cells hold the tiles, and no
/// fewer rows do.
pub proof fn lemma_ceil_div_is_least(tiles: int, cols: int)
    requires
        tiles >= 0,
        cols >= 1,
    ensures
        ceil_div(tiles, cols) * cols >= tiles,
        (ceil_div(tiles, cols) - 1) * cols < tiles || tiles == 0,
        ceil_div(tiles, cols) == (tiles + cols - 1) / cols,
{
    let q = tiles / cols;
    let r = tiles % cols;
    lemma_fundamental_div_mod(tiles, cols);
    lemma_mod_bound(tiles, cols);
    lemma_mul_is_commutative(cols, q);
    assert((q + 1) * cols == q * cols + cols && (q - 1) * cols == q * cols - cols)
        by (nonlinear_arith);
    if r == 0 {
        lemma_fundamental_div_mod_converse(tiles + cols - 1, cols, q, cols - 1);
    } else {
        lemma_fundamental_div_mod_converse(tiles + cols - 1, cols, q + 1, r - 1);
    }
}

/// The number of columns of a sheet of `tiles` tiles: the one asked for, or
/// else as many as there are tiles, which makes a single row.
pub open spec fn column_count(tiles: int, columns: Option<usize>) -> int {
    match columns {
        Some(c) => c as int,
        None => tiles,
    }
}

/// The sheet of `tag_count * frames_per_tag` tiles of `width` by `height`
/// pixels can be held: the tiles can be counted, both sides of the sheet are
/// valid pixel coordinates, and its bytes can be indexed.
pub open spec fn sheet_fits(
    tag_count: int,
    frames_per_tag: int,
    columns: Option<usize>,
    width: int,
    height: int,
) -> bool {
    let tiles = tag_count * frames_per_tag;
    let cols = column_count(tiles, columns);
    let rows = ceil_div(tiles, cols);
    &&& tiles <= usize::MAX
    &&& cols * width <= u32::MAX
    &&& rows * height <= u32::MAX
    &&& 4 * (cols * width) * (rows * height) <= usize::MAX
}

/// Every name of the selection is a tag of the document.
pub open spec fn all_resolve(doc: &Document, tags: Seq<String>) -> bool {
    forall|j: int| 0 <= j < tags.len() ==> (#[trigger] doc.tag_range(tags[j]@)) is Some
}

/// Entry `i` is the first name of the selection that is no tag of the
/// document.
pub open spec fn first_missing(doc: &Document, tags: Seq<String>, i: int) -> bool {
    &&& 0 <= i < tags.len()
    &&& doc.tag_range(tags[i]@) is None
    &&& forall|j: int| 0 <= j < i ==> (#[trigger] doc.tag_range(tags[j]@)) is Some
}

/// Number of frames that the tag called `name` spans.
pub open spec fn tag_frames(doc: &Document, name: Seq<char>) -> int {
    let range = doc.tag_range(name).unwrap();
    range.1 - range.0 + 1
}

/// Entry `i` is the first name of the selection whose tag spans fewer than
/// `frames_per_tag` frames.
pub open spec fn first_short(
    doc: &Document,
    tags: Seq<String>,
    frames_per_tag: int,
    i: int,
) -> bool {
    &&& 0 <= i < tags.len()
    &&& tag_frames(doc, tags[i]@) < frames_per_tag
    &&& forall|j: int| 0 <= j < i ==> #[trigger] tag_frames(doc, tags[j]@) >= frames_per_tag
}

/// Every selected tag spans at least `frames_per_tag` frames.
pub open spec fn all_sufficient(doc: &Document, tags: Seq<String>, frames_per_tag: int) -> bool {
    forall|j: int|
        0 <= j < tags.len() ==> #[trigger] tag_frames(doc, tags[j]@) >= frames_per_tag
}

/// The selection can be laid out: every name is a tag of the document, and
/// every one of these tags spans at least `frames_per_tag` frames.
pub open spec fn accepts(doc: &Document, tags: Seq<String>, frames_per_tag: int) -> bool {
    all_resolve(doc, tags) && all_sufficient(doc, tags, frames_per_tag)
}

/// The selection fails with the error `e`: with `TagMissing` for the first
/// name that is no tag of the document; where there is no such name, with
/// `InsufficientFrames` for the first tag that spans too few frames.
pub open spec fn rejects(
    doc: &Document,
    tags: Seq<String>,
    frames_per_tag: int,
    e: SheetError,
) -> bool {
    match e {
        SheetError::TagMissing { name } => exists|i: int|
            first_missing(doc, tags, i) && name@ == tags[i]@,
        SheetError::InsufficientFrames { tag, have, need } => {
            &&& all_resolve(doc, tags)
            &&& need == frames_per_tag
            &&& exists|i: int|
                first_short(doc, tags, frames_per_tag, i) && tag@ == tags[i]@ && have
                    == tag_frames(doc, tags[i]@)
        },
        SheetError::WrongFrameCount { .. } => false,
    }
}

/// The first frame of each selected tag, in the order of the selection.
pub open spec fn starts(doc: &Document, tags: Seq<String>) -> Seq<int> {
    Seq::new(tags.len(), |j: int| doc.tag_range(tags[j]@).unwrap().0 as int)
}

/// Where one source frame goes: the pixel position of its upper left corner
/// on the sheet.
#[derive(Debug, Clone, PartialEq, Eq)]
pub struct Placement {
    pub src: usize,
    pub dst_x: u32,
    pub dst_y: u32,
}

/// A layout plan: the grid, the pixel size of the sheet and one placement
/// for each tile.
#[derive(Debug, Clone, PartialEq, Eq)]
pub struct Plan {
    pub cols: usize,
    pub rows: usize,
    pub total_w: u32,
    pub total_h: u32,
    pub placements: Vec<Placement>,
}

impl Plan {
    /// The placements fill a grid of `width` by `height` pixel cells row by
    /// row: tile `i` stands in the cell `(i % cols, i / cols)`, the grid has
    /// as many rows as the tiles need, and the sheet is as large as the grid.
    pub open spec fn is_grid(&self, width: int, height: int) -> bool {
        let tiles = self.placements@.len() as int;
        let cols = self.cols as int;
        &&& cols >= 1
        &&& self.rows == ceil_div(tiles, cols)
        &&& self.total_w == cols * width
        &&& self.total_h == ceil_div(tiles, cols) * height
        &&& forall|i: int|
            0 <= i < tiles ==> {
                let p = #[trigger] self.placements@[i];
                p.dst_x == (i % cols) * width && p.dst_y == (i / cols) * height
            }
    }

    /// Every placement names one of `frames` frames.
    pub open spec fn reads_from(&self, frames: int) -> bool {
        forall|i: int|
            0 <= i < self.placements@.len() ==> (#[trigger] self.placements@[i]).src < frames
    }

    /// This plan is the row-major layout, `cols` cells wide, of
    /// `frames_per_tag` consecutive frames from each of `starts`, with cells
    /// of `width` by `height` pixels: tile `i` shows the frame
    /// `starts[i / frames_per_tag] + i % frames_per_tag`.
    pub open spec fn lays_out(
        &self,
        starts: Seq<int>,
        frames_per_tag: int,
        cols: int,
        width: int,
        height: int,
    ) -> bool {
        let tiles = starts.len() * frames_per_tag;
        &&& self.cols == cols
        &&& self.placements@.len() == tiles
        &&& self.is_grid(width, height)
        &&& forall|i: int|
            0 <= i < tiles ==> (#[trigger] self.placements@[i]).src == starts[i / frames_per_tag]
                + i % frames_per_tag
    }
}

/// Tile `i` of `count * each` belongs to one of the `count` groups and is one
/// of the `each` members of it.
pub proof fn lemma_tile_of_group(i: int, count: int, each: int)
    requires
        0 <= i < count * each,
        each > 0,
    ensures
        0 <= i / each < count,
        0 <= i % each < each,
{
    lemma_mul_is_commutative(count, each);
    lemma_multiply_divide_lt(i, each, count);
    lemma_div_pos_is_pos(i, each);
    lemma_mod_bound(i, each);
}

/// Tile `i` of `tiles` lies in a cell of the grid that is `cols` wide and
/// `ceil_div(tiles, cols)` high.
pub proof fn lemma_cell_of_tile(i: int, tiles: int, cols: int)
    requires
        0 <= i < tiles,
        cols > 0,
    ensures
        0 <= i % cols < cols,
        0 <= i / cols < ceil_div(tiles, cols),
        i == (i / cols) * cols + i % cols,
{
    lemma_mod_bound(i, cols);
    lemma_div_pos_is_pos(i, cols);
    lemma_fundamental_div_mod(i, cols);
    lemma_mul_is_commutative(cols, i / cols);
    if tiles % cols == 0 {
        lemma_fundamental_div_mod(tiles, cols);
        lemma_multiply_divide_lt(i, cols, tiles / cols);
    } else {
        lemma_div_is_ordered(i, tiles, cols);
    }
}

/// Cell `q` of `n` cells of `size` pixels each ends within `n * size` pixels.
pub proof fn lemma_cell_extent(q: int, n: int, size: int)
    by (nonlinear_arith)
    requires
        0 <= q < n,
        size >= 0,
    ensures
        0 <= q * size,
        q * size + size <= n * size,
{
}

/// On a grid no two tiles share a corner, and every tile lies wholly within
/// the sheet.
pub proof fn lemma_tiles_apart_and_inside(plan: &Plan, width: int, height: int, i: int, j: int)
    requires
        plan.is_grid(width, height),
        width >= 1,
        height >= 1,
        0 <= i < plan.placements@.len(),
        0 <= j < plan.placements@.len(),
    ensures
        plan.placements@[i].dst_x + width <= plan.total_w,
        plan.placements@[i].dst_y + height <= plan.total_h,
        i != j ==> plan.placements@[i].dst_x != plan.placements@[j].dst_x
            || plan.placements@[i].dst_y != plan.placements@[j].dst_y,
{
    let tiles = plan.placements@.len() as int;
    let cols = plan.cols as int;
    lemma_cell_of_tile(i, tiles, cols);
    lemma_cell_of_tile(j, tiles, cols);
    lemma_cell_extent(i % cols, cols, width);
    lemma_cell_extent(i / cols, ceil_div(tiles, cols), height);
    if i != j {
        if i % cols != j % cols {
            assert((i % cols) * width != (j % cols) * width) by (nonlinear_arith)
                requires
                    i % cols != j % cols,
                    width >= 1,
            ;
        } else {
            assert((i / cols) * height != (j / cols) * height) by (nonlinear_arith)
                requires
                    i / cols != j / cols,
                    height >= 1,
            ;
        }
    }
}

/// Pixel size `(total_w, total_h)` of the sheet that a selection calls for,
/// or `None` where such a sheet cannot be held.
pub fn sheet_size(
    tag_count: usize,
    frames_per_tag: usize,
    columns: Option<usize>,
    width: u32,
    height: u32,
) -> (r: Option<(u32, u32)>)
    requires
        tag_count >= 1,
        frames_per_tag >= 1,
        columns matches Some(c) ==> c >= 1,
    ensures
        r is Some <==> sheet_fits(
            tag_count as int,
            frames_per_tag as int,
            columns,
            width as int,
            height as int,
        ),
        r matches Some((total_w, total_h)) ==> {
            let tiles = tag_count * frames_per_tag;
            let cols = column_count(tiles, columns);
            total_w == cols * width && total_h == ceil_div(tiles, cols) * height
        },
{
    assert(tag_count * frames_per_tag >= 1) by (nonlinear_arith)
        requires
            tag_count >= 1,
            frames_per_tag >= 1,
    ;
    let tiles = match tag_count.checked_mul(frames_per_tag) {
        Some(tiles) => tiles,
        None => {
            return None;
        },
    };
    let cols = match columns {
        Some(c) => c,
        None => tiles,
    };
    let rows: u128 = if tiles % cols == 0 {
        (tiles / cols) as u128
    } else {
        (tiles / cols) as u128 + 1
    };
    assert(cols * width <= 0xffff_ffff_ffff_ffff * 0xffff_ffff && rows * height
        <= 0x1_0000_0000_0000_0000 * 0xffff_ffff) by (nonlinear_arith)
        requires
            0 <= cols <= 0xffff_ffff_ffff_ffff,
            0 <= rows <= 0x1_0000_0000_0000_0000,
            0 <= width <= 0xffff_ffff,
            0 <= height <= 0xffff_ffff,
    ;
    let total_w: u128 = (cols as u128) * (width as u128);
    let total_h: u128 = rows * (height as u128);
    if total_w > u32::MAX as u128 || total_h > u32::MAX as u128 {
        return None;
    }
    assert(4 * total_w * total_h <= 4 * 0xffff_ffff * 0xffff_ffff) by (nonlinear_arith)
        requires
            0 <= total_w <= 0xffff_ffff,
            0 <= total_h <= 0xffff_ffff,
    ;
    let bytes: u128 = 4 * total_w * total_h;
    if bytes > usize::MAX as u128 {
        return None;
    }
    Some((total_w as u32, total_h as u32))
}

/// Plans the sheet for a selection of tags: `frames_per_tag` frames from the
/// start of each tag, in the order of the selection, `columns` to a row.
///
/// All names are resolved first, and the first one that the document does
/// not define is reported. Then the length of each tag is checked, and the
/// first one that is too short is reported.
pub fn plan_sheet(
    doc: &Document,
    tags: &Vec<String>,
    frames_per_tag: usize,
    columns: Option<usize>,
) -> (r: Result<Plan, SheetError>)
    requires
        doc.wf(),
        tags@.len() >= 1,
        frames_per_tag >= 1,
        columns matches Some(c) ==> c >= 1,
        sheet_fits(
            tags@.len() as int,
            frames_per_tag as int,
            columns,
            doc.width as int,
            doc.height as int,
        ),
    ensures
        r is Ok <==> accepts(doc, tags@, frames_per_tag as int),
        match r {
            Ok(plan) => {
                &&& plan.lays_out(
                    starts(doc, tags@),
                    frames_per_tag as int,
                    column_count(tags@.len() * frames_per_tag, columns),
                    doc.width as int,
                    doc.height as int,
                )
                &&& plan.reads_from(doc.frames@.len() as int)
            },
            Err(e) => rejects(doc, tags@, frames_per_tag as int, e),
        },
{
    let count = tags.len();
    let mut ranges: Vec<(usize, usize)> = Vec::new();
    let mut i: usize = 0;
    while i < count
        invariant
            i <= count,
            count == tags@.len(),
            ranges@.len() == i,
            forall|j: int| 0 <= j < i ==> #[trigger] doc.tag_range(tags@[j]@) == Some(ranges@[j]),
        decreases count - i,
    {
        match doc.tag(&tags[i]) {
            Some(range) => {
                ranges.push(range);
            },
            None => {
                assert(first_missing(doc, tags@, i as int));
                return Err(SheetError::TagMissing { name: tags[i].clone() });
            },
        }
        i += 1;
    }
    let frame_count = doc.frames.len();
    let mut i: usize = 0;
    while i < count
        invariant
            i <= count,
            frame_count == doc.frames@.len(),
            count == tags@.len(),
            ranges@.len() == count,
            doc.wf(),
            all_resolve(doc, tags@),
            forall|j: int|
                0 <= j < count ==> #[trigger] doc.tag_range(tags@[j]@) == Some(ranges@[j]),
            forall|j: int|
                0 <= j < i ==> #[trigger] tag_frames(doc, tags@[j]@) >= frames_per_tag,
        decreases count - i,
    {
        let (from, to) = ranges[i];
        proof {
            doc.lemma_tag_range_in_frames(tags@[i as int]@);
        }
        let have = to - from + 1;
        if have < frames_per_tag {
            assert(first_short(doc, tags@, frames_per_tag as int, i as int));
            return Err(
                SheetError::InsufficientFrames {
                    tag: tags[i].clone(),
                    have,
                    need: frames_per_tag,
                },
            );
        }
        i += 1;
    }
    let tiles = count * frames_per_tag;
    let cols = match columns {
        Some(c) => c,
        None => tiles,
    };
    assert(tiles >= 1) by (nonlinear_arith)
        requires
            tiles == count * frames_per_tag,
            count >= 1,
            frames_per_tag >= 1,
    ;
    assert(ceil_div(tiles as int, cols as int) <= u32::MAX) by (nonlinear_arith)
        requires
            ceil_div(tiles as int, cols as int) * doc.height <= u32::MAX,
            doc.height >= 1,
    ;
    let rows = if tiles % cols == 0 {
        tiles / cols
    } else {
        tiles / cols + 1
    };
    let width = doc.width as usize;
    let height = doc.height as usize;
    let total_w = (cols * width) as u32;
    let total_h = (rows * height) as u32;
    let ghost starts = starts(doc, tags@);
    let mut placements: Vec<Placement> = Vec::new();
    let mut i: usize = 0;
    while i < tiles
        invariant
            i <= tiles,
            tiles == count * frames_per_tag,
            frames_per_tag >= 1,
            cols >= 1,
            rows == ceil_div(tiles as int, cols as int),
            width == doc.width,
            height == doc.height,
            cols * width <= u32::MAX,
            rows * height <= u32::MAX,
            count == tags@.len(),
            ranges@.len() == count,
            starts == self::starts(doc, tags@),
            doc.wf(),
            forall|j: int|
                0 <= j < count ==> #[trigger] doc.tag_range(tags@[j]@) == Some(ranges@[j]),
            all_sufficient(doc, tags@, frames_per_tag as int),
            placements@.len() == i,
            forall|j: int|
                0 <= j < i ==> {
                    let p = #[trigger] placements@[j];
                    &&& p.src == starts[j / (frames_per_tag as int)] + j % (frames_per_tag as int)
                    &&& p.src < doc.frames@.len()
                    &&& p.dst_x == (j % (cols as int)) * width
                    &&& p.dst_y == (j / (cols as int)) * height
                },
        decreases tiles - i,
    {
        let group = i / frames_per_tag;
        let member = i % frames_per_tag;
        let col = i % cols;
        let row = i / cols;
        proof {
            lemma_tile_of_group(i as int, count as int, frames_per_tag as int);
            lemma_cell_of_tile(i as int, tiles as int, cols as int);
            lemma_cell_extent(col as int, cols as int, width as int);
            lemma_cell_extent(row as int, rows as int, height as int);
            doc.lemma_tag_range_in_frames(tags@[group as int]@);
            assert(tag_frames(doc, tags@[group as int]@) >= frames_per_tag);
        }
        let src = ranges[group].0 + member;
        let dst_x = (col * width) as u32;
        let dst_y = (row * height) as u32;
        placements.push(Placement { src, dst_x, dst_y });
        i += 1;
    }
    Ok(Plan { cols, rows, total_w, total_h, placements })
}

} // verus!

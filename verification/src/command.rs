//! The three requests that can be made of a document: convert its single
//! frame, assemble a sheet from tags, and separate the first frame of each
//! tag.

use crate::compose::{
    compose, lemma_composed_is_tiled, lemma_tile_not_negative, tile_of_byte, tiled_byte,
};
use crate::document::Document;
use crate::error::SheetError;
use crate::plan::{
    accepts, all_resolve, ceil_div, column_count, first_missing, plan_sheet, rejects, sheet_fits,
    starts,
};
use crate::raster::{pixel_x, pixel_y, Raster};
use vstd::prelude::*;
use vstd::string::StringExecFns;

verus! {

/// The image that a document of a single frame converts to: that frame.
pub fn convert(doc: &Document) -> (r: Result<&Raster, SheetError>)
    ensures
        doc.frames@.len() == 1 ==> r == Ok::<&Raster, SheetError>(&doc.frames@[0]),
        doc.frames@.len() != 1 ==> r == Err::<&Raster, SheetError>(
            SheetError::WrongFrameCount { found: doc.frames@.len() as usize },
        ),
{
    let found = doc.frames.len();
    if found != 1 {
        return Err(SheetError::WrongFrameCount { found });
    }
    Ok(&doc.frames[0])
}

/// The bytes of the sheet that shows `frames_per_tag` frames from the start
/// of each selected tag, `cols` tiles to a row: the pixel `(px, py)` lies in
/// the tile `(py / height) * cols + px / width`, and shows the pixel
/// `(px % width, py % height)` of that tile's frame. Tile `i` shows the frame
/// `i % frames_per_tag` of the tag `i / frames_per_tag`. What lies beyond the
/// last tile is transparent.
pub open spec fn assembled(
    doc: &Document,
    tags: Seq<String>,
    frames_per_tag: int,
    cols: int,
) -> Seq<u8> {
    let tiles = tags.len() * frames_per_tag;
    let width = doc.width as int;
    let height = doc.height as int;
    let total_w = cols * width;
    let total_h = ceil_div(tiles, cols) * height;
    Seq::new(
        (4 * total_w * total_h) as nat,
        |b: int|
            {
                let px = pixel_x(total_w, b);
                let py = pixel_y(total_w, b);
                let tile = (py / height) * cols + px / width;
                if tile < tiles {
                    let src = starts(doc, tags)[tile / frames_per_tag] + tile % frames_per_tag;
                    doc.frames@[src].channel(px % width, py % height, b % 4)
                } else {
                    0u8
                }
            },
    )
}

/// Assembles the sheet for a selection of tags: plans it and composes it.
pub fn assemble(
    doc: &Document,
    tags: &Vec<String>,
    frames_per_tag: usize,
    columns: Option<usize>,
) -> (r: Result<Raster, SheetError>)
    requires
        doc.wf(),
        tags@.len() >= 1,
        frames_per_tag >= 1,
        columns matches Some(c) ==> c >= 1,
        sheet_fits(
            tags@.len() as int,
            frames_per_tag as int,
            columns,
            doc.width as int,
            doc.height as int,
        ),
    ensures
        r is Ok <==> accepts(doc, tags@, frames_per_tag as int),
        match r {
            Ok(sheet) => {
                let tiles = tags@.len() * frames_per_tag;
                let cols = column_count(tiles, columns);
                &&& sheet.wf()
                &&& sheet.width == cols * doc.width
                &&& sheet.height == ceil_div(tiles, cols) * doc.height
                &&& sheet.data@ == assembled(doc, tags@, frames_per_tag as int, cols)
            },
            Err(e) => rejects(doc, tags@, frames_per_tag as int, e),
        },
{
    let plan = match plan_sheet(doc, tags, frames_per_tag, columns) {
        Ok(plan) => plan,
        Err(e) => {
            return Err(e);
        },
    };
    let sheet = compose(&plan, doc);
    proof {
        let tiles = tags@.len() * frames_per_tag;
        let cols = column_count(tiles, columns);
        let expected = assembled(doc, tags@, frames_per_tag as int, cols);
        lemma_composed_is_tiled(doc, &plan, plan.placements@.len());
        assert forall|b: int| 0 <= b < sheet.data@.len() implies sheet.data@[b] == expected[b] by {
            let tile = tile_of_byte(doc, &plan, b);
            lemma_tile_not_negative(doc, &plan, b);
            assert(sheet.data@[b] == tiled_byte(doc, &plan, tiles, b));
            if tile < tiles {
                assert(plan.placements@[tile].src == starts(doc, tags@)[tile / (
                frames_per_tag as int)] + tile % (frames_per_tag as int));
            }
        }
    }
    Ok(sheet)
}

/// One image to write out: the first frame of a tag, under the tag's name
/// with `.png` behind it.
#[derive(Debug, Clone, PartialEq, Eq)]
pub struct Export<'a> {
    pub file_name: String,
    pub image: &'a Raster,
}

/// The first frame of each selected tag, in the order of the selection, up
/// to the first name that is no tag of the document, and the failure that
/// this name is reported with. The images before it are still to be written.
pub fn separate<'a>(doc: &'a Document, tags: &Vec<String>) -> (r: (
    Vec<Export<'a>>,
    Option<SheetError>,
))
    requires
        doc.wf(),
    ensures
        forall|j: int|
            0 <= j < r.0@.len() ==> {
                let export = #[trigger] r.0@[j];
                &&& j < tags@.len()
                &&& doc.tag_range(tags@[j]@) matches Some((from, to))
                &&& export.file_name@ == tags@[j]@ + ".png"@
                &&& *export.image == doc.frames@[from as int]
            },
        r.1 is None <==> all_resolve(doc, tags@),
        match r.1 {
            None => r.0@.len() == tags@.len(),
            Some(SheetError::TagMissing { name }) => first_missing(doc, tags@, r.0@.len() as int)
                && name@ == tags@[r.0@.len() as int]@,
            Some(_) => false,
        },
{
    let mut exports: Vec<Export<'a>> = Vec::new();
    let mut i: usize = 0;
    while i < tags.len()
        invariant
            i <= tags@.len(),
            doc.wf(),
            exports@.len() == i,
            forall|j: int|
                0 <= j < i ==> {
                    let export = #[trigger] exports@[j];
                    &&& doc.tag_range(tags@[j]@) matches Some((from, to))
                    &&& export.file_name@ == tags@[j]@ + ".png"@
                    &&& *export.image == doc.frames@[from as int]
                },
            forall|j: int| 0 <= j < i ==> (#[trigger] doc.tag_range(tags@[j]@)) is Some,
        decreases tags@.len() - i,
    {
        match doc.tag(&tags[i]) {
            Some((from, to)) => {
                proof {
                    doc.lemma_tag_range_in_frames(tags@[i as int]@);
                }
                let file_name = tags[i].clone().concat(".png");
                exports.push(Export { file_name, image: &doc.frames[from] });
            },
            None => {
                return (exports, Some(SheetError::TagMissing { name: tags[i].clone() }));
            },
        }
        i += 1;
    }
    (exports, None)
}

} // verus!

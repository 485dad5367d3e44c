use ase_sheet::command::{assemble, convert, separate};
use ase_sheet::document::{Document, Tag};
use ase_sheet::error::SheetError;
use ase_sheet::plan::sheet_size;
use ase_sheet::raster::Raster;

const W: u32 = 2;
const H: u32 = 3;

/// A frame whose bytes all differ from those of every other frame.
fn frame(index: u8) -> Raster {
    let len = (4 * W * H) as u8;
    let data: Vec<u8> = (0..len).map(|b| index * 40 + b + 1).collect();
    Raster::new(W, H, data).unwrap()
}

fn tag(name: &str, from: usize, to: usize) -> Tag {
    Tag { name: name.to_string(), from, to }
}

fn document(frames: u8, tags: Vec<Tag>) -> Document {
    Document::new(W, H, (0..frames).map(frame).collect(), tags).unwrap()
}

fn names(list: &[&str]) -> Vec<String> {
    list.iter().map(|s| s.to_string()).collect()
}

/// The `W` by `H` region of `sheet` whose upper left corner is `(x0, y0)`.
fn region(sheet: &Raster, x0: u32, y0: u32) -> Vec<u8> {
    let mut out = Vec::new();
    for y in y0..y0 + H {
        for x in x0..x0 + W {
            let at = 4 * (y as usize * sheet.width as usize + x as usize);
            out.extend_from_slice(&sheet.data[at..at + 4]);
        }
    }
    out
}

fn png_round_trip(raster: &Raster) -> Raster {
    let source = image::RgbaImage::from_raw(raster.width, raster.height, raster.data.clone())
        .unwrap();
    let mut encoded = std::io::Cursor::new(Vec::new());
    source.write_to(&mut encoded, image::ImageFormat::Png).unwrap();
    let decoded = image::load_from_memory_with_format(encoded.get_ref(), image::ImageFormat::Png)
        .unwrap()
        .into_rgba8();
    Raster::new(decoded.width(), decoded.height(), decoded.into_raw()).unwrap()
}

#[test]
fn convert_yields_the_single_frame() {
    let doc = document(1, vec![]);
    let image = convert(&doc).unwrap();
    assert_eq!(*image, frame(0));
    assert_eq!(png_round_trip(image), frame(0));
}

#[test]
fn convert_rejects_a_source_of_several_frames() {
    let doc = document(3, vec![]);
    assert_eq!(convert(&doc), Err(SheetError::WrongFrameCount { found: 3 }));
}

#[test]
fn assemble_puts_four_frames_in_one_row() {
    let doc = document(4, vec![tag("walk", 0, 3)]);
    let tags = names(&["walk"]);
    assert_eq!(sheet_size(1, 4, None, W, H), Some((4 * W, H)));
    let sheet = assemble(&doc, &tags, 4, None).unwrap();
    assert_eq!((sheet.width, sheet.height), (4 * W, H));
    for i in 0..4u8 {
        assert_eq!(region(&sheet, i as u32 * W, 0), frame(i).data);
    }
    assert_eq!(png_round_trip(&sheet), sheet);
}

#[test]
fn assemble_wraps_after_two_columns() {
    let doc = document(4, vec![tag("walk", 0, 3)]);
    let tags = names(&["walk"]);
    assert_eq!(sheet_size(1, 4, Some(2), W, H), Some((2 * W, 2 * H)));
    let sheet = assemble(&doc, &tags, 4, Some(2)).unwrap();
    assert_eq!((sheet.width, sheet.height), (2 * W, 2 * H));
    assert_eq!(region(&sheet, 0, 0), frame(0).data);
    assert_eq!(region(&sheet, W, 0), frame(1).data);
    assert_eq!(region(&sheet, 0, H), frame(2).data);
    assert_eq!(region(&sheet, W, H), frame(3).data);
}

#[test]
fn assemble_reports_a_tag_with_too_few_frames() {
    let doc = document(3, vec![tag("walk", 0, 1), tag("jump", 2, 2)]);
    let tags = names(&["walk", "jump"]);
    assert!(sheet_size(2, 2, None, W, H).is_some());
    assert_eq!(
        assemble(&doc, &tags, 2, None),
        Err(SheetError::InsufficientFrames { tag: "jump".to_string(), have: 1, need: 2 })
    );
}

#[test]
fn assemble_reports_a_missing_tag() {
    let doc = document(3, vec![tag("walk", 0, 1), tag("jump", 2, 2)]);
    let tags = names(&["missing"]);
    assert!(sheet_size(1, 1, None, W, H).is_some());
    assert_eq!(
        assemble(&doc, &tags, 1, None),
        Err(SheetError::TagMissing { name: "missing".to_string() })
    );
}

#[test]
fn assemble_reports_a_missing_tag_before_a_short_one() {
    let doc = document(3, vec![tag("walk", 0, 1), tag("jump", 2, 2)]);
    let tags = names(&["jump", "walk", "missing"]);
    assert!(sheet_size(3, 2, None, W, H).is_some());
    assert_eq!(
        assemble(&doc, &tags, 2, None),
        Err(SheetError::TagMissing { name: "missing".to_string() })
    );
}

#[test]
fn assemble_leaves_the_last_cell_transparent() {
    let doc = document(3, vec![tag("a", 0, 0), tag("b", 1, 1), tag("c", 2, 2)]);
    let tags = names(&["a", "b", "c"]);
    assert_eq!(sheet_size(3, 1, Some(2), W, H), Some((2 * W, 2 * H)));
    let sheet = assemble(&doc, &tags, 1, Some(2)).unwrap();
    assert_eq!((sheet.width, sheet.height), (2 * W, 2 * H));
    assert_eq!(region(&sheet, 0, 0), frame(0).data);
    assert_eq!(region(&sheet, W, 0), frame(1).data);
    assert_eq!(region(&sheet, 0, H), frame(2).data);
    assert_eq!(region(&sheet, W, H), vec![0u8; (4 * W * H) as usize]);
}

#[test]
fn assemble_repeats_a_tag_that_is_named_twice() {
    let doc = document(3, vec![tag("a", 1, 2)]);
    let tags = names(&["a", "a"]);
    assert_eq!(sheet_size(2, 1, None, W, H), Some((2 * W, H)));
    let sheet = assemble(&doc, &tags, 1, None).unwrap();
    assert_eq!(region(&sheet, 0, 0), frame(1).data);
    assert_eq!(region(&sheet, W, 0), frame(1).data);
}

#[test]
fn assemble_keeps_the_width_of_more_columns_than_tiles() {
    let doc = document(2, vec![tag("a", 0, 1)]);
    let tags = names(&["a"]);
    assert_eq!(sheet_size(1, 2, Some(5), W, H), Some((5 * W, H)));
    let sheet = assemble(&doc, &tags, 2, Some(5)).unwrap();
    assert_eq!((sheet.width, sheet.height), (5 * W, H));
    assert_eq!(region(&sheet, 0, 0), frame(0).data);
    assert_eq!(region(&sheet, W, 0), frame(1).data);
    for col in 2..5 {
        assert_eq!(region(&sheet, col * W, 0), vec![0u8; (4 * W * H) as usize]);
    }
}

#[test]
fn assemble_stacks_a_single_column() {
    let doc = document(3, vec![tag("a", 0, 2)]);
    let tags = names(&["a"]);
    assert_eq!(sheet_size(1, 3, Some(1), W, H), Some((W, 3 * H)));
    let sheet = assemble(&doc, &tags, 3, Some(1)).unwrap();
    assert_eq!((sheet.width, sheet.height), (W, 3 * H));
    let mut stacked = frame(0).data;
    stacked.extend(frame(1).data);
    stacked.extend(frame(2).data);
    assert_eq!(sheet.data, stacked);
}

#[test]
fn separate_yields_the_first_frame_of_each_tag() {
    let doc = document(4, vec![tag("idle", 0, 1), tag("hurt", 2, 3)]);
    let (exports, failure) = separate(&doc, &names(&["idle", "hurt"]));
    assert_eq!(failure, None);
    assert_eq!(exports.len(), 2);
    assert_eq!(exports[0].file_name, "idle.png");
    assert_eq!(*exports[0].image, frame(0));
    assert_eq!(exports[1].file_name, "hurt.png");
    assert_eq!(*exports[1].image, frame(2));
    assert_eq!(png_round_trip(exports[1].image), frame(2));
}

#[test]
fn separate_stops_at_the_first_missing_tag() {
    let doc = document(4, vec![tag("idle", 0, 1), tag("hurt", 2, 3)]);
    let (exports, failure) = separate(&doc, &names(&["hurt", "gone", "idle"]));
    assert_eq!(failure, Some(SheetError::TagMissing { name: "gone".to_string() }));
    assert_eq!(exports.len(), 1);
    assert_eq!(exports[0].file_name, "hurt.png");
    assert_eq!(*exports[0].image, frame(2));
}

#[test]
fn separate_of_nothing_yields_nothing() {
    let doc = document(1, vec![]);
    let (exports, failure) = separate(&doc, &names(&[]));
    assert_eq!(failure, None);
    assert!(exports.is_empty());
}

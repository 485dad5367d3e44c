use ase_sheet::compose::compose;
use ase_sheet::document::{Document, Tag};
use ase_sheet::plan::{plan_sheet, sheet_size, Placement, Plan};
use ase_sheet::raster::Raster;

/// A `width` by `height` image whose pixel `(x, y)` is `[seed, x, y, 255]`.
fn marked(width: u32, height: u32, seed: u8) -> Raster {
    let mut data = Vec::new();
    for y in 0..height {
        for x in 0..width {
            data.extend_from_slice(&[seed, x as u8, y as u8, 255]);
        }
    }
    Raster::new(width, height, data).unwrap()
}

fn pixel(image: &Raster, x: u32, y: u32) -> [u8; 4] {
    let at = 4 * (y as usize * image.width as usize + x as usize);
    [image.data[at], image.data[at + 1], image.data[at + 2], image.data[at + 3]]
}

fn document(width: u32, height: u32, frames: u8) -> Document {
    let tags = vec![Tag { name: "all".to_string(), from: 0, to: frames as usize - 1 }];
    let frames = (0..frames).map(|i| marked(width, height, 10 + i)).collect();
    Document::new(width, height, frames, tags).unwrap()
}

#[test]
fn raster_new_wants_four_bytes_for_each_pixel() {
    assert_eq!(
        Raster::new(2, 3, vec![9; 24]),
        Some(Raster { width: 2, height: 3, data: vec![9; 24] })
    );
    assert_eq!(Raster::new(2, 3, vec![9; 23]), None);
    assert_eq!(Raster::new(2, 3, vec![9; 25]), None);
    assert_eq!(Raster::new(0, 3, vec![]), Some(Raster { width: 0, height: 3, data: vec![] }));
}

#[test]
fn transparent_raster_is_all_zero() {
    let image = Raster::transparent(3, 2);
    assert_eq!(image, Raster { width: 3, height: 2, data: vec![0; 24] });
    assert_eq!(Raster::transparent(0, 5).data, Vec::<u8>::new());
}

#[test]
fn replace_copies_the_pixels_of_the_top_image() {
    let mut bottom = marked(4, 3, 1);
    let top = marked(2, 2, 2);
    bottom.replace(&top, 1, 1);
    for y in 0..3 {
        for x in 0..4 {
            let inside = (1..3).contains(&x) && (1..3).contains(&y);
            let expected = if inside { [2, x as u8 - 1, y as u8 - 1, 255] } else { [1, x as u8, y as u8, 255] };
            assert_eq!(pixel(&bottom, x, y), expected);
        }
    }
}

#[test]
fn replace_does_not_blend() {
    let mut bottom = marked(2, 2, 200);
    let top = Raster::new(1, 1, vec![7, 8, 9, 0]).unwrap();
    bottom.replace(&top, 1, 0);
    assert_eq!(pixel(&bottom, 1, 0), [7, 8, 9, 0]);
    assert_eq!(pixel(&bottom, 0, 0), [200, 0, 0, 255]);
}

#[test]
fn replace_drops_what_falls_outside() {
    let mut bottom = marked(3, 3, 1);
    let top = marked(2, 2, 2);
    bottom.replace(&top, 2, 2);
    assert_eq!(pixel(&bottom, 2, 2), [2, 0, 0, 255]);
    assert_eq!(pixel(&bottom, 1, 2), [1, 1, 2, 255]);
    assert_eq!(pixel(&bottom, 0, 0), [1, 0, 0, 255]);
    let before = bottom.clone();
    bottom.replace(&top, 3, 0);
    assert_eq!(bottom, before);
    bottom.replace(&top, 0, 7);
    assert_eq!(bottom, before);
}

#[test]
fn compose_copies_each_frame_into_its_cell() {
    let doc = document(3, 2, 5);
    assert_eq!(sheet_size(1, 5, Some(2), 3, 2), Some((6, 6)));
    let plan = plan_sheet(&doc, &vec!["all".to_string()], 5, Some(2)).unwrap();
    let sheet = compose(&plan, &doc);
    assert_eq!((sheet.width, sheet.height), (6, 6));
    for (i, p) in plan.placements.iter().enumerate() {
        for y in 0..2 {
            for x in 0..3 {
                assert_eq!(pixel(&sheet, p.dst_x + x, p.dst_y + y), pixel(&doc.frames[i], x, y));
            }
        }
    }
}

#[test]
fn compose_leaves_the_cells_after_the_last_tile_transparent() {
    let doc = document(3, 2, 5);
    assert_eq!(sheet_size(1, 5, Some(3), 3, 2), Some((9, 4)));
    let plan = plan_sheet(&doc, &vec!["all".to_string()], 5, Some(3)).unwrap();
    let sheet = compose(&plan, &doc);
    assert_eq!((sheet.width, sheet.height), (9, 4));
    for y in 2..4 {
        for x in 6..9 {
            assert_eq!(pixel(&sheet, x, y), [0, 0, 0, 0]);
        }
    }
    assert_eq!(pixel(&sheet, 5, 3), [14, 2, 1, 255]);
}

#[test]
fn compose_of_no_placements_is_transparent() {
    let doc = document(3, 2, 1);
    let plan = Plan { cols: 2, rows: 1, total_w: 6, total_h: 2, placements: vec![] };
    assert_eq!(compose(&plan, &doc), Raster { width: 6, height: 2, data: vec![0; 48] });
}

#[test]
fn compose_lets_a_later_placement_replace_an_earlier_one() {
    let doc = document(2, 2, 2);
    let plan = Plan {
        cols: 2,
        rows: 1,
        total_w: 4,
        total_h: 2,
        placements: vec![
            Placement { src: 0, dst_x: 0, dst_y: 0 },
            Placement { src: 1, dst_x: 1, dst_y: 0 },
        ],
    };
    let sheet = compose(&plan, &doc);
    assert_eq!(pixel(&sheet, 0, 1), [10, 0, 1, 255]);
    assert_eq!(pixel(&sheet, 1, 1), [11, 0, 1, 255]);
    assert_eq!(pixel(&sheet, 2, 0), [11, 1, 0, 255]);
    assert_eq!(pixel(&sheet, 3, 0), [0, 0, 0, 0]);
}

use ase_sheet::document::{Document, Tag};
use ase_sheet::raster::Raster;

fn blank(width: u32, height: u32) -> Raster {
    Raster::transparent(width, height)
}

fn tag(name: &str, from: usize, to: usize) -> Tag {
    Tag { name: name.to_string(), from, to }
}

#[test]
fn document_keeps_its_parts() {
    let frames = vec![blank(2, 1), Raster::new(2, 1, vec![1, 2, 3, 4, 5, 6, 7, 8]).unwrap()];
    let tags = vec![tag("both", 0, 1)];
    let doc = Document::new(2, 1, frames.clone(), tags.clone()).unwrap();
    assert_eq!(doc, Document { width: 2, height: 1, frames: frames.clone(), tags });
    assert_eq!(doc.canvas(), (2, 1));
    assert_eq!(doc.frame_count(), 2);
    assert_eq!(*doc.frame(1), frames[1]);
}

#[test]
fn document_needs_a_canvas_and_a_frame() {
    assert_eq!(Document::new(0, 1, vec![blank(0, 1)], vec![]), None);
    assert_eq!(Document::new(1, 0, vec![blank(1, 0)], vec![]), None);
    assert_eq!(Document::new(1, 1, vec![], vec![]), None);
    assert!(Document::new(1, 1, vec![blank(1, 1)], vec![]).is_some());
}

#[test]
fn document_needs_frames_of_the_canvas_size() {
    assert_eq!(Document::new(2, 3, vec![blank(2, 3), blank(3, 2)], vec![]), None);
    assert_eq!(Document::new(2, 3, vec![blank(2, 2)], vec![]), None);
    let short = Raster { width: 2, height: 3, data: vec![0; 20] };
    assert_eq!(Document::new(2, 3, vec![blank(2, 3), short], vec![]), None);
}

#[test]
fn document_needs_tags_within_its_frames() {
    let frames = vec![blank(1, 1), blank(1, 1)];
    assert!(Document::new(1, 1, frames.clone(), vec![tag("a", 0, 1), tag("b", 1, 1)]).is_some());
    assert_eq!(Document::new(1, 1, frames.clone(), vec![tag("a", 0, 2)]), None);
    assert_eq!(Document::new(1, 1, frames.clone(), vec![tag("a", 1, 0)]), None);
    assert_eq!(Document::new(1, 1, frames, vec![tag("a", 0, 0), tag("b", 2, 2)]), None);
}

#[test]
fn tag_is_found_by_its_exact_name() {
    let frames = vec![blank(1, 1), blank(1, 1), blank(1, 1)];
    let tags = vec![tag("walk", 0, 1), tag("Walk", 2, 2), tag("", 1, 2)];
    let doc = Document::new(1, 1, frames, tags).unwrap();
    assert_eq!(doc.tag(&"walk".to_string()), Some((0, 1)));
    assert_eq!(doc.tag(&"Walk".to_string()), Some((2, 2)));
    assert_eq!(doc.tag(&"".to_string()), Some((1, 2)));
    assert_eq!(doc.tag(&"WALK".to_string()), None);
    assert_eq!(doc.tag(&"walk ".to_string()), None);
}

#[test]
fn tag_named_twice_is_the_first_of_them() {
    let frames = vec![blank(1, 1), blank(1, 1), blank(1, 1)];
    let tags = vec![tag("other", 2, 2), tag("twice", 1, 2), tag("twice", 0, 0)];
    let doc = Document::new(1, 1, frames, tags).unwrap();
    assert_eq!(doc.tag(&"twice".to_string()), Some((1, 2)));
}

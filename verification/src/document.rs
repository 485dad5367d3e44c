//! A decoded animation source: its frames and its tag table.

use crate::raster::Raster;
use vstd::prelude::*;

verus! {

/// A named, inclusive range of frame indices.
#[derive(Debug, Clone, PartialEq, Eq)]
pub struct Tag {
    pub name: String,
    pub from: usize,
    pub to: usize,
}

/// Every frame of an animation, flattened to RGBA8 at the canvas size, and
/// the tags that name ranges of them.
#[derive(Debug, Clone, PartialEq, Eq)]
pub struct Document {
    pub width: u32,
    pub height: u32,
    pub frames: Vec<Raster>,
    pub tags: Vec<Tag>,
}

impl Document {
    /// The canvas is not empty, there is at least one frame, every frame has
    /// the canvas size, and every tag names a range of existing frames.
    pub open spec fn wf(&self) -> bool {
        &&& self.width >= 1
        &&& self.height >= 1
        &&& self.frames@.len() >= 1
        &&& forall|i: int|
            0 <= i < self.frames@.len() ==> {
                let f = #[trigger] self.frames@[i];
                f.wf() && f.width == self.width && f.height == self.height
            }
        &&& forall|i: int|
            0 <= i < self.tags@.len() ==> {
                let t = #[trigger] self.tags@[i];
                t.from <= t.to < self.frames@.len()
            }
    }

    /// Entry `i` of the tag table is the first one called `name`.
    pub open spec fn first_named(&self, name: Seq<char>, i: int) -> bool {
        &&& 0 <= i < self.tags@.len()
        &&& self.tags@[i].name@ == name
        &&& forall|j: int| 0 <= j < i ==> self.tags@[j].name@ != name
    }

    /// The frame range `(from, to)` of the tag called `name`. Names are
    /// compared exactly; where several tags share a name, the one that
    /// comes first in the table is meant.
    pub open spec fn tag_range(&self, name: Seq<char>) -> Option<(usize, usize)> {
        if exists|i: int| self.first_named(name, i) {
            let i = choose|i: int| self.first_named(name, i);
            Some((self.tags@[i].from, self.tags@[i].to))
        } else {
            None
        }
    }

    /// A tag that is found names frames that exist.
    pub proof fn lemma_tag_range_in_frames(&self, name: Seq<char>)
        requires
            self.wf(),
        ensures
            self.tag_range(name) matches Some((from, to)) ==> from <= to < self.frames@.len(),
    {
        if exists|i: int| self.first_named(name, i) {
            let i = choose|i: int| self.first_named(name, i);
            let t = self.tags@[i];
        }
    }

    /// Puts a document together from its parts, or returns `None` where they
    /// do not fit each other.
    pub fn new(width: u32, height: u32, frames: Vec<Raster>, tags: Vec<Tag>) -> (r: Option<
        Document,
    >)
        ensures
            (Document { width, height, frames, tags }).wf() ==> r == Some(
                Document { width, height, frames, tags },
            ),
            !(Document { width, height, frames, tags }).wf() ==> r is None,
    {
        if width == 0 || height == 0 || frames.len() == 0 {
            return None;
        }
        assert(width * height <= 0xffff_ffff * 0xffff_ffff) by (nonlinear_arith)
            requires
                width <= 0xffff_ffff,
                height <= 0xffff_ffff,
        ;
        assert(4 * width * height == 4 * (width * height)) by (nonlinear_arith);
        let bytes: u128 = 4 * ((width as u64) * (height as u64)) as u128;
        let mut i: usize = 0;
        while i < frames.len()
            invariant
                i <= frames.len(),
                bytes == 4 * width * height,
                forall|j: int|
                    0 <= j < i ==> {
                        let f = #[trigger] frames@[j];
                        f.wf() && f.width == width && f.height == height
                    },
            decreases frames.len() - i,
        {
            let f = &frames[i];
            if f.width != width || f.height != height || f.data.len() as u128 != bytes {
                assert(!(Document { width, height, frames, tags }).wf()) by {
                    let d = Document { width, height, frames, tags };
                    let f = d.frames@[i as int];
                }
                return None;
            }
            i += 1;
        }
        let mut k: usize = 0;
        while k < tags.len()
            invariant
                k <= tags.len(),
                forall|j: int|
                    0 <= j < k ==> {
                        let t = #[trigger] tags@[j];
                        t.from <= t.to < frames@.len()
                    },
            decreases tags.len() - k,
        {
            let t = &tags[k];
            if t.from > t.to || t.to >= frames.len() {
                assert(!(Document { width, height, frames, tags }).wf()) by {
                    let d = Document { width, height, frames, tags };
                    let t = d.tags@[k as int];
                }
                return None;
            }
            k += 1;
        }
        Some(Document { width, height, frames, tags })
    }

    /// Canvas size `(width, height)`, shared by every frame.
    pub fn canvas(&self) -> (r: (u32, u32))
        ensures
            r == (self.width, self.height),
    {
        (self.width, self.height)
    }

    /// Number of frames.
    pub fn frame_count(&self) -> (n: usize)
        ensures
            n == self.frames@.len(),
    {
        self.frames.len()
    }

    /// Frame `index`.
    pub fn frame(&self, index: usize) -> (f: &Raster)
        requires
            index < self.frames@.len(),
        ensures
            *f == self.frames@[index as int],
    {
        &self.frames[index]
    }

    /// Looks a tag up by name and returns its frame range `(from, to)`.
    pub fn tag(&self, name: &String) -> (r: Option<(usize, usize)>)
        ensures
            r == self.tag_range(name@),
    {
        let mut i: usize = 0;
        while i < self.tags.len()
            invariant
                i <= self.tags.len(),
                forall|j: int| 0 <= j < i ==> self.tags@[j].name@ != name@,
            decreases self.tags.len() - i,
        {
            if self.tags[i].name == *name {
                assert(self.first_named(name@, i as int));
                return Some((self.tags[i].from, self.tags[i].to));
            }
            i += 1;
        }
        None
    }
}

} // verus!

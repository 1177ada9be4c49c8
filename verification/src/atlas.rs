//! The atlas layout: an ordered sequence of pixel rectangles carved out of
//! one bitmap, bound to the bitmap's pixel size at construction. A
//! rectangle's position in the sequence is its atlas index, and insertion
//! order is the only ordering.

use vstd::prelude::*;

use crate::parser::{regions_view, SubTexture, SubTextureView};

verus! {

/// One pixel rectangle, spanning `[min_x, max_x) x [min_y, max_y)`. The
/// corners are wide enough that `x + width` of any region fits without
/// overflow.
#[derive(Debug, Clone, Copy, PartialEq, Eq, Structural)]
pub struct AtlasRect {
    pub min_x: u64,
    pub min_y: u64,
    pub max_x: u64,
    pub max_y: u64,
}

/// The rectangle a region spans: its offsets as the lower corner, offsets
/// plus dimensions as the upper corner.
pub open spec fn spec_rect_of(t: SubTextureView) -> AtlasRect {
    AtlasRect {
        min_x: t.x as u64,
        min_y: t.y as u64,
        max_x: (t.x + t.width) as u64,
        max_y: (t.y + t.height) as u64,
    }
}

/// The ordered rectangles of an atlas over `regions`: rectangle `i` is the
/// span of region `i`.
pub open spec fn spec_rects_of(regions: Seq<SubTextureView>) -> Seq<AtlasRect> {
    Seq::new(regions.len(), |i: int| spec_rect_of(regions[i]))
}

/// An ordered list of rectangles within a fixed canvas. `width` and
/// `height` are the canvas (companion bitmap) pixel dimensions.
#[derive(Debug, Clone)]
pub struct AtlasLayout {
    pub width: u32,
    pub height: u32,
    pub textures: Vec<AtlasRect>,
}

/// The mathematical value of an `AtlasLayout`.
pub ghost struct AtlasLayoutView {
    pub width: u32,
    pub height: u32,
    pub textures: Seq<AtlasRect>,
}

impl View for AtlasLayout {
    type V = AtlasLayoutView;

    open spec fn view(&self) -> AtlasLayoutView {
        AtlasLayoutView { width: self.width, height: self.height, textures: self.textures@ }
    }
}

impl AtlasLayout {
    /// An empty layout bound to a canvas of the given pixel size.
    pub fn new_empty(width: u32, height: u32) -> (l: Self)
        ensures
            l@.width == width,
            l@.height == height,
            l@.textures == Seq::<AtlasRect>::empty(),
    {
        AtlasLayout { width, height, textures: Vec::new() }
    }

    /// Register one rectangle; its atlas index is the number of rectangles
    /// registered before it.
    pub fn add_texture(&mut self, rect: AtlasRect) -> (index: usize)
        ensures
            final(self)@.width == old(self)@.width,
            final(self)@.height == old(self)@.height,
            final(self)@.textures == old(self)@.textures.push(rect),
            index == old(self)@.textures.len(),
    {
        let index = self.textures.len();
        self.textures.push(rect);
        index
    }

    /// How many rectangles the layout holds.
    pub fn len(&self) -> (n: usize)
        ensures
            n == self@.textures.len(),
    {
        self.textures.len()
    }

    /// The rectangle at an atlas index, if the index is in range.
    pub fn get(&self, index: usize) -> (r: Option<AtlasRect>)
        ensures
            match r {
                Some(rect) => index < self@.textures.len() && rect == self@.textures[index as int],
                None => index >= self@.textures.len(),
            },
    {
        if index < self.textures.len() {
            Some(self.textures[index])
        } else {
            None
        }
    }
}

/// Build the atlas layout for `regions` over a canvas of the given size:
/// one rectangle per region, in order, rectangle `i` spanning
/// `[x_i, x_i + width_i) x [y_i, y_i + height_i)`.
pub fn build_layout(width: u32, height: u32, regions: &Vec<SubTexture>) -> (l: AtlasLayout)
    ensures
        l@.width == width,
        l@.height == height,
        l@.textures == spec_rects_of(regions_view(regions@)),
{
    let mut layout = AtlasLayout::new_empty(width, height);
    let n = regions.len();
    let mut i: usize = 0;
    while i < n
        invariant
            n == regions@.len(),
            0 <= i <= n,
            layout@.width == width,
            layout@.height == height,
            layout@.textures =~= spec_rects_of(regions_view(regions@.take(i as int))),
        decreases n - i,
    {
        let r = &regions[i];
        let rect = AtlasRect {
            min_x: r.x as u64,
            min_y: r.y as u64,
            max_x: r.x as u64 + r.width as u64,
            max_y: r.y as u64 + r.height as u64,
        };
        layout.add_texture(rect);
        proof {
            assert(regions@.take(i as int + 1) =~= regions@.take(i as int).push(regions@[i as int]));
            assert(layout@.textures =~= spec_rects_of(regions_view(regions@.take(i as int + 1))));
        }
        i += 1;
    }
    proof {
        assert(regions@.take(n as int) =~= regions@);
        assert(layout@.textures =~= spec_rects_of(regions_view(regions@)));
    }
    layout
}

} // verus!

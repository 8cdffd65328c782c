//! Building a glyph atlas: each rasterized glyph in turn is given its place
//! in a bin of fixed size and recorded.

use vstd::prelude::*;
use crate::binpack::{BinPack, Rect};
use crate::glyph::Glyph;
use crate::layout::GlyphTable;
use crate::placement::{lies_under, overlaps};
use crate::skyline::Skyline;

verus! {

/// The width of the atlas in pixels.
pub const ATLAS_WIDTH: i32 = 512;

/// The height of the atlas in pixels.
pub const ATLAS_HEIGHT: i32 = 512;

/// The first character code of the atlas: the space.
pub const CHAR_BEGIN: u32 = 0x20;

/// The character code at which the atlas ends; this code itself is not in
/// it.
pub const CHAR_END: u32 = 0xFF;

/// The glyph's bitmap holds at least one pixel.
pub open spec fn has_pixels(g: Glyph) -> bool {
    g.width > 0 && g.height > 0
}

/// The rectangle of the atlas that holds the glyph's bitmap.
pub open spec fn glyph_rect(g: Glyph) -> Rect {
    Rect { x: g.u as i32, y: g.v as i32, width: g.width, height: g.height }
}

/// Every glyph with pixels lies inside the atlas, and no two of them share a
/// pixel of it.
pub open spec fn well_packed(glyphs: Seq<Glyph>) -> bool {
    &&& forall|i: int|
        0 <= i < glyphs.len() && has_pixels(#[trigger] glyphs[i]) ==> glyphs[i].u + glyphs[i].width
            <= ATLAS_WIDTH && glyphs[i].v + glyphs[i].height <= ATLAS_HEIGHT
    &&& forall|i: int, j: int|
        0 <= i < j < glyphs.len() && has_pixels(#[trigger] glyphs[i]) && has_pixels(#[trigger] glyphs[j])
            ==> !overlaps(glyph_rect(glyphs[i]), glyph_rect(glyphs[j]))
}

/// An atlas under construction: the packer that hands out its room, and the
/// glyphs recorded so far, in the order in which they were added.
pub struct AtlasBuilder {
    packer: BinPack,
    glyphs: Vec<Glyph>,
}

impl AtlasBuilder {
    /// The skyline of the atlas.
    pub closed spec fn skyline(&self) -> Skyline {
        self.packer@
    }

    /// The glyphs recorded so far.
    pub closed spec fn glyphs(&self) -> Seq<Glyph> {
        self.glyphs@
    }

    /// The builder's invariant: the skyline is that of a well-formed bin of
    /// the atlas's size, the recorded glyphs are well packed, and each of
    /// them lies under the skyline.
    pub open spec fn wf(&self) -> bool {
        &&& self.skyline().wf()
        &&& self.skyline().width == ATLAS_WIDTH
        &&& self.skyline().height == ATLAS_HEIGHT
        &&& well_packed(self.glyphs())
        &&& forall|i: int|
            0 <= i < self.glyphs().len() && has_pixels(#[trigger] self.glyphs()[i]) ==> lies_under(
                glyph_rect(self.glyphs()[i]),
                self.skyline(),
            )
    }

    /// An empty atlas.
    pub fn new() -> (b: AtlasBuilder)
        ensures
            b.wf(),
            b.skyline() == Skyline::empty_bin(ATLAS_WIDTH as int, ATLAS_HEIGHT as int),
            b.glyphs() == Seq::<Glyph>::empty(),
    {
        AtlasBuilder { packer: BinPack::new(ATLAS_WIDTH, ATLAS_HEIGHT), glyphs: Vec::new() }
    }

    /// The number of glyphs recorded so far.
    pub fn len(&self) -> (n: usize)
        ensures
            n == self.glyphs().len(),
    {
        self.glyphs.len()
    }

    /// Gives the next glyph its place in the atlas and records it.
    ///
    /// A glyph with pixels is placed by the packer and recorded with
    /// `(u, v)` set to the corner of its place; the place is returned, for
    /// the bitmap to be copied there. `None` means that the atlas has no
    /// room for the glyph: nothing is recorded and nothing changes. A glyph
    /// without pixels takes no room: it is recorded as it is, and its place
    /// is the empty rectangle.
    pub fn add_glyph(&mut self, glyph: Glyph) -> (res: Option<Rect>)
        requires
            old(self).wf(),
        ensures
            final(self).wf(),
            has_pixels(glyph) ==> {
                &&& old(self).skyline().inserts(
                    glyph.width as int,
                    glyph.height as int,
                    res,
                    final(self).skyline(),
                )
                &&& match res {
                    Some(r) => {
                        &&& r.x == r.x as u16
                        &&& r.y == r.y as u16
                        &&& final(self).glyphs() == old(self).glyphs().push(
                            Glyph { u: r.x as u16, v: r.y as u16, ..glyph },
                        )
                    },
                    None => final(self).glyphs() == old(self).glyphs(),
                }
            },
            !has_pixels(glyph) ==> {
                &&& res == Some(Rect { x: 0, y: 0, width: 0, height: 0 })
                &&& final(self).skyline() == old(self).skyline()
                &&& final(self).glyphs() == old(self).glyphs().push(glyph)
            },
    {
        let ghost before = self.packer@;
        let ghost recorded = self.glyphs@;
        if glyph.width > 0 && glyph.height > 0 {
            match self.packer.insert(glyph.width, glyph.height) {
                Some(rect) => {
                    let placed = Glyph {
                        u: rect.x as u16,
                        v: rect.y as u16,
                        width: glyph.width,
                        height: glyph.height,
                        advance: glyph.advance,
                        offset_x: glyph.offset_x,
                        offset_y: glyph.offset_y,
                    };
                    self.glyphs.push(placed);
                    proof {
                        let w = glyph.width as int;
                        let h = glyph.height as int;
                        let after = self.packer@;
                        assert(glyph_rect(placed) == rect);
                        before.lemma_raised_not_lower(w, h, rect, after);
                        assert forall|i: int|
                            0 <= i < self.glyphs@.len() && has_pixels(
                                #[trigger] self.glyphs@[i],
                            ) implies lies_under(glyph_rect(self.glyphs@[i]), after) by {
                            if i < recorded.len() {
                                let a = glyph_rect(recorded[i]);
                                assert(lies_under(a, before));
                                assert forall|px: int| a.x <= px < a.x + a.width implies a.y + a.height
                                    <= #[trigger] after.level_at(px) by {
                                    assert(a.y + a.height <= before.level_at(px));
                                }
                            }
                        }
                        assert forall|i: int, j: int|
                            0 <= i < j < self.glyphs@.len() && has_pixels(#[trigger] self.glyphs@[i])
                                && has_pixels(#[trigger] self.glyphs@[j]) implies !overlaps(
                            glyph_rect(self.glyphs@[i]),
                            glyph_rect(self.glyphs@[j]),
                        ) by {
                            if j == recorded.len() {
                                assert(lies_under(glyph_rect(recorded[i]), before));
                                before.lemma_placed_clear(w, h, rect, glyph_rect(recorded[i]));
                            } else {
                                assert(!overlaps(glyph_rect(recorded[i]), glyph_rect(recorded[j])));
                            }
                        }
                    }
                    Some(rect)
                },
                None => None,
            }
        } else {
            self.glyphs.push(glyph);
            proof {
                assert forall|i: int|
                    0 <= i < self.glyphs@.len() && has_pixels(#[trigger] self.glyphs@[i]) implies lies_under(
                    glyph_rect(self.glyphs@[i]),
                    self.packer@,
                ) by {
                    assert(lies_under(glyph_rect(recorded[i]), before));
                }
                assert forall|i: int, j: int|
                    0 <= i < j < self.glyphs@.len() && has_pixels(#[trigger] self.glyphs@[i]) && has_pixels(
                        #[trigger] self.glyphs@[j],
                    ) implies !overlaps(glyph_rect(self.glyphs@[i]), glyph_rect(self.glyphs@[j])) by {
                    assert(!overlaps(glyph_rect(recorded[i]), glyph_rect(recorded[j])));
                }
                assert forall|i: int|
                    0 <= i < self.glyphs@.len() && has_pixels(#[trigger] self.glyphs@[i]) implies self.glyphs@[i].u
                    + self.glyphs@[i].width <= ATLAS_WIDTH && self.glyphs@[i].v + self.glyphs@[i].height
                    <= ATLAS_HEIGHT by {
                    assert(has_pixels(recorded[i]));
                }
            }
            Some(Rect::new(0, 0, 0, 0))
        }
    }

    /// The table of the recorded glyphs, the first of which stands for the
    /// character code `begin_index`.
    pub fn finish(self, begin_index: usize, line_height: i32) -> (t: GlyphTable)
        requires
            self.wf(),
            self.glyphs().len() > 0,
        ensures
            t@.glyphs == self.glyphs(),
            t@.begin_index == begin_index,
            t@.line_height == line_height,
            well_packed(t@.glyphs),
    {
        GlyphTable::new(self.glyphs, begin_index, line_height)
    }
}

} // verus!

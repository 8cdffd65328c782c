//! Laying out a line of text from an atlas: which atlas rectangle is copied
//! where for each character, and how the pen moves.

use vstd::prelude::*;
use crate::binpack::Rect;
use crate::glyph::Glyph;

verus! {

/// A point on the drawing surface, in pixels.
#[derive(Clone, Copy, Debug, PartialEq, Eq, Structural)]
pub struct Vec2 {
    pub x: i32,
    pub y: i32,
}

impl Vec2 {
    pub fn new(x: i32, y: i32) -> (p: Vec2)
        ensures
            p == (Vec2 { x, y }),
    {
        Vec2 { x, y }
    }
}

/// One copy from the atlas to the drawing surface: the rectangle `src` of
/// the atlas goes to the rectangle `dst` of the surface.
#[derive(Clone, Copy, Debug, PartialEq, Eq, Structural)]
pub struct Blit {
    pub src: Rect,
    pub dst: Rect,
}

/// The 32-bit coordinate that stands for `v`: `v` itself where it is in
/// range, else `v` wrapped around by a multiple of 2^32.
pub open spec fn wrap(v: int) -> i32 {
    let m = v % 0x1_0000_0000;
    if m > i32::MAX {
        (m - 0x1_0000_0000) as i32
    } else {
        m as i32
    }
}

/// The glyphs of a font as they lie in its atlas, as a mathematical value.
pub struct Table {
    pub glyphs: Seq<Glyph>,
    pub begin_index: int,
    pub line_height: i32,
}

impl Table {
    /// The table's slot for `character`: its code less `begin_index`, taken
    /// as an unsigned machine word, where that is a slot of the table; slot 0
    /// for every other character.
    pub open spec fn slot_of(self, character: char) -> int {
        let d = character as u32 - self.begin_index;
        let index = if d < 0 {
            d + usize::MAX + 1
        } else {
            d
        };
        if index >= self.glyphs.len() {
            0
        } else {
            index
        }
    }

    /// The glyph drawn for `character`.
    pub open spec fn glyph_for(self, character: char) -> Glyph {
        self.glyphs[self.slot_of(character)]
    }

    /// The copy that draws `glyph` with the pen at `(x, y)`: the glyph's
    /// rectangle in the atlas goes, at the same size, to the pen moved right
    /// by the glyph's `offset_x` and down by the line height less its
    /// `offset_y`.
    pub open spec fn blit_at(self, glyph: Glyph, x: int, y: int) -> Blit {
        Blit {
            src: Rect { x: glyph.u as i32, y: glyph.v as i32, width: glyph.width, height: glyph.height },
            dst: Rect {
                x: wrap(x + glyph.offset_x),
                y: wrap(y - glyph.offset_y + self.line_height),
                width: glyph.width,
                height: glyph.height,
            },
        }
    }

    /// Where the pen is after `character`, drawn with the pen at `pos` and
    /// `kerning` before it, in a text that began at `initial_pos`. A newline
    /// takes the pen back to the initial column, one line height down; any
    /// other character moves it right by the kerning and the glyph's
    /// advance.
    pub open spec fn pen_after(self, character: char, pos: Vec2, initial_pos: Vec2, kerning: i32) -> Vec2 {
        if character == '\n' {
            Vec2 { x: initial_pos.x, y: wrap(pos.y + self.line_height) }
        } else {
            Vec2 { x: wrap(pos.x + self.glyph_for(character).advance + kerning), y: pos.y }
        }
    }

    /// The copy that draws `character` with the pen at `pos` and `kerning`
    /// before it: none for a newline, else the character's glyph at the pen
    /// moved right by the kerning.
    pub open spec fn blit_of(self, character: char, pos: Vec2, kerning: i32) -> Option<Blit> {
        if character == '\n' {
            None
        } else {
            Some(self.blit_at(self.glyph_for(character), pos.x + kerning, pos.y as int))
        }
    }

    /// The kerning before character `i` of a text: entry `i - 1` of the
    /// kernings between neighbours, and 0 where there is none.
    pub open spec fn kerning_before(kerning: Seq<i32>, i: int) -> i32 {
        if 0 < i <= kerning.len() {
            kerning[i - 1]
        } else {
            0
        }
    }

    /// The pen after the first `n` characters of `text`, begun at `origin`.
    pub open spec fn pen_at(self, text: Seq<char>, kerning: Seq<i32>, origin: Vec2, n: nat) -> Vec2
        decreases n,
    {
        if n == 0 {
            origin
        } else {
            self.pen_after(
                text[n - 1],
                self.pen_at(text, kerning, origin, (n - 1) as nat),
                origin,
                Self::kerning_before(kerning, n - 1),
            )
        }
    }

    /// The copies that draw the first `n` characters of `text`, begun at
    /// `origin`, in the order of the text.
    pub open spec fn blits_upto(self, text: Seq<char>, kerning: Seq<i32>, origin: Vec2, n: nat) -> Seq<Blit>
        decreases n,
    {
        if n == 0 {
            Seq::empty()
        } else {
            let before = self.blits_upto(text, kerning, origin, (n - 1) as nat);
            match self.blit_of(
                text[n - 1],
                self.pen_at(text, kerning, origin, (n - 1) as nat),
                Self::kerning_before(kerning, n - 1),
            ) {
                Some(b) => before.push(b),
                None => before,
            }
        }
    }
}

/// The glyphs of a font as they lie in its atlas: one glyph for each
/// character code from `begin_index` on, and the height of a line.
pub struct GlyphTable {
    glyphs: Vec<Glyph>,
    begin_index: usize,
    line_height: i32,
}

impl View for GlyphTable {
    type V = Table;

    closed spec fn view(&self) -> Table {
        Table {
            glyphs: self.glyphs@,
            begin_index: self.begin_index as int,
            line_height: self.line_height,
        }
    }
}

impl GlyphTable {
    /// A table is never empty: its first glyph stands in for every
    /// character that has none of its own.
    #[verifier::type_invariant]
    spec fn inv(self) -> bool {
        self.glyphs@.len() > 0
    }

    /// A table of the given glyphs, the first of which stands for the
    /// character code `begin_index` and for every character without a glyph
    /// of its own.
    pub fn new(glyphs: Vec<Glyph>, begin_index: usize, line_height: i32) -> (t: GlyphTable)
        requires
            glyphs@.len() > 0,
        ensures
            t@ == (Table { glyphs: glyphs@, begin_index: begin_index as int, line_height }),
    {
        GlyphTable { glyphs, begin_index, line_height }
    }

    /// The glyph drawn for `character`.
    pub fn get_glyph(&self, character: char) -> (g: Glyph)
        ensures
            self@.glyphs.len() > 0,
            g == self@.glyph_for(character),
    {
        proof {
            use_type_invariant(self);
        }
        let index = (character as u32 as usize).wrapping_sub(self.begin_index);
        let char_index = if index >= self.glyphs.len() {
            0
        } else {
            index
        };
        self.glyphs[char_index]
    }

    /// The copy that draws `glyph` with the pen at `(x, y)`.
    pub fn blit_glyph(&self, glyph: &Glyph, x: i32, y: i32) -> (b: Blit)
        ensures
            b == self@.blit_at(*glyph, x as int, y as int),
    {
        let u = glyph.u as i32;
        let v = glyph.v as i32;
        let offset_x = glyph.offset_x as i32;
        let offset_y = glyph.offset_y as i32;
        let src_rect = Rect::new(u, v, glyph.width, glyph.height);
        let dst_x = x.wrapping_add(offset_x);
        let dst_y = y.wrapping_sub(offset_y).wrapping_add(self.get_line_height());
        let dst_rect = Rect::new(dst_x, dst_y, glyph.width, glyph.height);
        Blit { src: src_rect, dst: dst_rect }
    }

    /// Draws one character: returns where the pen is after it and the copy
    /// that draws it, if it has one.
    pub fn render_char(&self, character: char, pos: Vec2, initial_pos: Vec2, kerning: i32) -> (res: (
        Vec2,
        Option<Blit>,
    ))
        ensures
            res.0 == self@.pen_after(character, pos, initial_pos, kerning),
            res.1 == self@.blit_of(character, pos, kerning),
    {
        if character == '\n' {
            (Vec2::new(initial_pos.x, pos.y.wrapping_add(self.get_line_height())), None)
        } else {
            let glyph = self.get_glyph(character);
            let blit = self.blit_glyph(&glyph, pos.x.wrapping_add(kerning), pos.y);
            let advance = glyph.advance as i32;
            (Vec2::new(pos.x.wrapping_add(advance).wrapping_add(kerning), pos.y), Some(blit))
        }
    }

    /// Lays out `text` from the pen position `(x, y)`. `kerning` holds the
    /// kerning between each character and the next. Returns the copies that
    /// draw the text, in order, and the pen position after it.
    pub fn draw_str(&self, text: &Vec<char>, kerning: &Vec<i32>, x: i32, y: i32) -> (res: (Vec<Blit>, (i32, i32)))
        ensures
            res.0@ == self@.blits_upto(text@, kerning@, Vec2 { x, y }, text@.len()),
            res.1.0 == self@.pen_at(text@, kerning@, Vec2 { x, y }, text@.len()).x,
            res.1.1 == self@.pen_at(text@, kerning@, Vec2 { x, y }, text@.len()).y,
    {
        let initial_pos = Vec2::new(x, y);
        let mut pen_pos = initial_pos;
        let mut blits: Vec<Blit> = Vec::new();
        let mut i: usize = 0;
        while i < text.len()
            invariant
                i <= text.len(),
                initial_pos == (Vec2 { x, y }),
                pen_pos == self@.pen_at(text@, kerning@, initial_pos, i as nat),
                blits@ == self@.blits_upto(text@, kerning@, initial_pos, i as nat),
            decreases text.len() - i,
        {
            let k = if 0 < i && i <= kerning.len() {
                kerning[i - 1]
            } else {
                0
            };
            let (next_pos, blit) = self.render_char(text[i], pen_pos, initial_pos, k);
            match blit {
                Some(b) => {
                    blits.push(b);
                },
                None => {},
            }
            pen_pos = next_pos;
            i += 1;
        }
        (blits, (pen_pos.x, pen_pos.y))
    }

    /// The height of a line in pixels.
    pub fn get_line_height(&self) -> (h: i32)
        ensures
            h == self@.line_height,
    {
        self.line_height
    }
}

} // verus!

use sdl2_text::atlas::{AtlasBuilder, ATLAS_HEIGHT, ATLAS_WIDTH, CHAR_BEGIN, CHAR_END};
use sdl2_text::binpack::Rect;
use sdl2_text::glyph::{coverage_to_rgba, kerning_pixels, make_glyph, to_pixels, Glyph, FT_SCALE_SHIFT};

fn glyph(width: i32, height: i32) -> Glyph {
    make_glyph(width, height, 1, 2, 3 * 64)
}

#[test]
fn atlas_constants() {
    assert_eq!(ATLAS_WIDTH, 512);
    assert_eq!(ATLAS_HEIGHT, 512);
    assert_eq!(CHAR_BEGIN, 0x20);
    assert_eq!(CHAR_END, 0xFF);
    assert_eq!(FT_SCALE_SHIFT, 6);
}

#[test]
fn to_pixels_rounds_down() {
    assert_eq!(to_pixels(0), 0);
    assert_eq!(to_pixels(63), 0);
    assert_eq!(to_pixels(64), 1);
    assert_eq!(to_pixels(703), 10);
    assert_eq!(to_pixels(-1), -1);
    assert_eq!(to_pixels(-64), -1);
    assert_eq!(to_pixels(-65), -2);
    assert_eq!(to_pixels(i64::MAX), i64::MAX / 64);
    assert_eq!(to_pixels(i64::MIN), i64::MIN / 64);
}

#[test]
fn make_glyph_takes_over_the_metrics() {
    let g = make_glyph(5, 7, 1, 6, 640);
    assert_eq!(
        g,
        Glyph { u: 0, v: 0, width: 5, height: 7, advance: 10, offset_x: 1, offset_y: 6 }
    );
    let h = make_glyph(0, 0, -3, -4, 8 * 64 + 63);
    assert_eq!(
        h,
        Glyph { u: 0, v: 0, width: 0, height: 0, advance: 8, offset_x: -3, offset_y: -4 }
    );
}

#[test]
fn make_glyph_cuts_values_to_their_fields() {
    let g = make_glyph(5, 7, 200, -129, 256 * 64);
    assert_eq!(g.advance, 0);
    assert_eq!(g.offset_x, -56);
    assert_eq!(g.offset_y, 127);
    let h = make_glyph(5, 7, 127, -128, 255 * 64);
    assert_eq!(h.advance, 255);
    assert_eq!(h.offset_x, 127);
    assert_eq!(h.offset_y, -128);
    assert_eq!(make_glyph(1, 1, 0, 0, -64).advance, 255);
}

#[test]
fn kerning_in_whole_pixels() {
    assert_eq!(kerning_pixels(Some(128)), 2);
    assert_eq!(kerning_pixels(Some(-64)), -1);
    assert_eq!(kerning_pixels(Some(-1)), -1);
    assert_eq!(kerning_pixels(Some(63)), 0);
    assert_eq!(kerning_pixels(None), 0);
    assert_eq!(kerning_pixels(Some((1i64 << 31) * 64)), i32::MIN);
}

#[test]
fn coverage_becomes_white_with_alpha() {
    assert_eq!(
        coverage_to_rgba(&[0, 128, 255]),
        vec![255, 255, 255, 0, 255, 255, 255, 128, 255, 255, 255, 255]
    );
    assert_eq!(coverage_to_rgba(&[7]), vec![255, 255, 255, 7]);
    assert_eq!(coverage_to_rgba(&[]), Vec::<u8>::new());
}

#[test]
fn builder_places_glyphs_and_records_their_corners() {
    let mut b = AtlasBuilder::new();
    assert_eq!(b.len(), 0);
    assert_eq!(b.add_glyph(glyph(10, 12)), Some(Rect { x: 0, y: 0, width: 10, height: 12 }));
    assert_eq!(b.add_glyph(glyph(8, 12)), Some(Rect { x: 10, y: 0, width: 8, height: 12 }));
    assert_eq!(b.add_glyph(glyph(500, 20)), Some(Rect { x: 0, y: 12, width: 500, height: 20 }));
    assert_eq!(b.len(), 3);
    let t = b.finish(CHAR_BEGIN as usize, 16);
    assert_eq!(
        t.get_glyph(' '),
        Glyph { u: 0, v: 0, width: 10, height: 12, advance: 3, offset_x: 1, offset_y: 2 }
    );
    assert_eq!(
        t.get_glyph('!'),
        Glyph { u: 10, v: 0, width: 8, height: 12, advance: 3, offset_x: 1, offset_y: 2 }
    );
    assert_eq!(
        t.get_glyph('"'),
        Glyph { u: 0, v: 12, width: 500, height: 20, advance: 3, offset_x: 1, offset_y: 2 }
    );
    assert_eq!(t.get_line_height(), 16);
}

#[test]
fn glyph_without_pixels_takes_no_room() {
    let mut b = AtlasBuilder::new();
    assert_eq!(b.add_glyph(glyph(10, 12)), Some(Rect { x: 0, y: 0, width: 10, height: 12 }));
    assert_eq!(b.add_glyph(glyph(0, 0)), Some(Rect { x: 0, y: 0, width: 0, height: 0 }));
    assert_eq!(b.add_glyph(glyph(0, 5)), Some(Rect { x: 0, y: 0, width: 0, height: 0 }));
    assert_eq!(b.add_glyph(glyph(5, 0)), Some(Rect { x: 0, y: 0, width: 0, height: 0 }));
    assert_eq!(b.add_glyph(glyph(-1, 5)), Some(Rect { x: 0, y: 0, width: 0, height: 0 }));
    assert_eq!(b.len(), 5);
    // The next glyph with pixels goes where it would have gone without them.
    assert_eq!(b.add_glyph(glyph(8, 12)), Some(Rect { x: 10, y: 0, width: 8, height: 12 }));
    let t = b.finish(0, 16);
    assert_eq!(t.get_glyph('\u{1}'), glyph(0, 0));
    assert_eq!(t.get_glyph('\u{2}'), glyph(0, 5));
}

#[test]
fn full_atlas_refuses_the_glyph() {
    let mut b = AtlasBuilder::new();
    assert_eq!(b.add_glyph(glyph(513, 1)), None);
    assert_eq!(b.add_glyph(glyph(1, 513)), None);
    assert_eq!(b.len(), 0);
    assert_eq!(b.add_glyph(glyph(512, 512)), Some(Rect { x: 0, y: 0, width: 512, height: 512 }));
    assert_eq!(b.add_glyph(glyph(1, 1)), None);
    assert_eq!(b.len(), 1);
}

#[test]
fn glyphs_of_an_atlas_share_no_pixel() {
    let mut b = AtlasBuilder::new();
    let mut a: i32 = 5;
    let mut n = 0;
    for _ in 0..223 {
        a = (a * 37 + 11) % 101;
        let w = a % 30;
        a = (a * 37 + 11) % 101;
        let h = a % 40;
        if b.add_glyph(glyph(w, h)).is_some() {
            n += 1;
        }
    }
    assert_eq!(b.len(), n);
    let t = b.finish(0, 16);
    let mut glyphs: Vec<Glyph> = Vec::new();
    for c in 0..n as u32 {
        glyphs.push(t.get_glyph(char::from_u32(c).unwrap()));
    }
    for i in 0..glyphs.len() {
        let g = glyphs[i];
        if g.width > 0 && g.height > 0 {
            assert!(g.u as i32 + g.width <= 512 && g.v as i32 + g.height <= 512);
            for j in 0..i {
                let h = glyphs[j];
                if h.width > 0 && h.height > 0 {
                    let apart = g.u as i32 + g.width <= h.u as i32
                        || h.u as i32 + h.width <= g.u as i32
                        || g.v as i32 + g.height <= h.v as i32
                        || h.v as i32 + h.height <= g.v as i32;
                    assert!(apart);
                }
            }
        }
    }
}

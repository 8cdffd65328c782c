use sdl2_text::binpack::Rect;
use sdl2_text::glyph::Glyph;
use sdl2_text::layout::{Blit, GlyphTable, Vec2};

fn glyph(u: u16, advance: u8, offset_x: i8, offset_y: i8) -> Glyph {
    Glyph { u, v: 3, width: 5, height: 7, advance, offset_x, offset_y }
}

/// Glyphs for ' ', '!' and '"', and a line height of 12.
fn table() -> GlyphTable {
    GlyphTable::new(vec![glyph(0, 4, 0, 0), glyph(10, 6, 1, 9), glyph(20, 8, -2, 11)], 0x20, 12)
}

fn blit(u: i32, x: i32, y: i32) -> Blit {
    Blit {
        src: Rect { x: u, y: 3, width: 5, height: 7 },
        dst: Rect { x, y, width: 5, height: 7 },
    }
}

#[test]
fn vec2_new_keeps_its_arguments() {
    assert_eq!(Vec2::new(3, -4), Vec2 { x: 3, y: -4 });
}

#[test]
fn line_height_is_kept() {
    assert_eq!(table().get_line_height(), 12);
}

#[test]
fn get_glyph_by_character_code() {
    let t = table();
    assert_eq!(t.get_glyph(' '), glyph(0, 4, 0, 0));
    assert_eq!(t.get_glyph('!'), glyph(10, 6, 1, 9));
    assert_eq!(t.get_glyph('"'), glyph(20, 8, -2, 11));
}

#[test]
fn get_glyph_falls_back_to_the_first() {
    let t = table();
    assert_eq!(t.get_glyph('#'), glyph(0, 4, 0, 0));
    assert_eq!(t.get_glyph('\u{10FFFF}'), glyph(0, 4, 0, 0));
    assert_eq!(t.get_glyph('\u{1F}'), glyph(0, 4, 0, 0));
    assert_eq!(t.get_glyph('\0'), glyph(0, 4, 0, 0));
}

#[test]
fn get_glyph_counts_in_machine_words() {
    // Code 1 less the largest word wraps around to slot 2.
    let t = GlyphTable::new(vec![glyph(0, 4, 0, 0), glyph(10, 6, 1, 9), glyph(20, 8, -2, 11)], usize::MAX, 12);
    assert_eq!(t.get_glyph('\u{1}'), glyph(20, 8, -2, 11));
    assert_eq!(t.get_glyph('\u{3}'), glyph(0, 4, 0, 0));
}

#[test]
fn blit_glyph_offsets_the_pen() {
    let t = table();
    assert_eq!(t.blit_glyph(&glyph(10, 6, 1, 9), 100, 50), blit(10, 101, 53));
    assert_eq!(t.blit_glyph(&glyph(20, 8, -2, 11), 100, 50), blit(20, 98, 51));
    assert_eq!(t.blit_glyph(&glyph(20, 8, -2, -11), 0, 0), blit(20, -2, 23));
}

#[test]
fn blit_glyph_wraps_around() {
    let t = table();
    assert_eq!(t.blit_glyph(&glyph(10, 6, 1, 9), i32::MAX, 50), blit(10, i32::MIN, 53));
    assert_eq!(t.blit_glyph(&glyph(10, 6, 1, 9), 0, i32::MIN), blit(10, 1, i32::MIN + 3));
    assert_eq!(t.blit_glyph(&glyph(10, 6, 1, 9), 0, i32::MAX), blit(10, 1, i32::MIN + 2));
}

#[test]
fn render_char_advances_the_pen() {
    let t = table();
    let start = Vec2 { x: 7, y: 9 };
    assert_eq!(
        t.render_char('!', Vec2 { x: 30, y: 40 }, start, 0),
        (Vec2 { x: 36, y: 40 }, Some(blit(10, 31, 43)))
    );
    assert_eq!(
        t.render_char('!', Vec2 { x: 30, y: 40 }, start, -2),
        (Vec2 { x: 34, y: 40 }, Some(blit(10, 29, 43)))
    );
    assert_eq!(
        t.render_char('!', Vec2 { x: i32::MAX, y: 40 }, start, 0),
        (Vec2 { x: i32::MIN + 5, y: 40 }, Some(blit(10, i32::MIN, 43)))
    );
}

#[test]
fn render_char_newline_returns_to_the_first_column() {
    let t = table();
    let start = Vec2 { x: 7, y: 9 };
    assert_eq!(t.render_char('\n', Vec2 { x: 30, y: 40 }, start, 5), (Vec2 { x: 7, y: 52 }, None));
    assert_eq!(
        t.render_char('\n', Vec2 { x: 30, y: i32::MAX }, start, 0),
        (Vec2 { x: 7, y: i32::MIN + 11 }, None)
    );
}

#[test]
fn draw_str_of_nothing() {
    let t = table();
    assert_eq!(t.draw_str(&vec![], &vec![], 5, 6), (vec![], (5, 6)));
    assert_eq!(t.draw_str(&vec![], &vec![1, 2], 5, 6), (vec![], (5, 6)));
}

#[test]
fn draw_str_lays_out_a_line() {
    let t = table();
    let text = vec!['!', '"', ' '];
    let (blits, pen) = t.draw_str(&text, &vec![1, -3], 100, 50);
    assert_eq!(blits, vec![blit(10, 101, 53), blit(20, 105, 51), blit(0, 112, 62)]);
    assert_eq!(pen, (116, 50));
}

#[test]
fn draw_str_breaks_lines() {
    let t = table();
    let text = vec!['!', '\n', '!', '\n', '\n', '"'];
    let (blits, pen) = t.draw_str(&text, &vec![9, 2, 9, 9, 1], 100, 50);
    assert_eq!(blits, vec![blit(10, 101, 53), blit(10, 103, 65), blit(20, 99, 87)]);
    assert_eq!(pen, (109, 86));
}

#[test]
fn draw_str_takes_missing_kerning_as_none() {
    let t = table();
    let text = vec!['!', '!', '!'];
    assert_eq!(t.draw_str(&text, &vec![], 0, 0).1, (18, 0));
    assert_eq!(t.draw_str(&text, &vec![2], 0, 0).1, (20, 0));
    assert_eq!(t.draw_str(&text, &vec![2, 3, 50], 0, 0).1, (23, 0));
    assert_eq!(
        t.draw_str(&text, &vec![2], 0, 0).0,
        vec![blit(10, 1, 3), blit(10, 9, 3), blit(10, 15, 3)]
    );
}

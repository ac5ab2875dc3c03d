use pcd68_display::error::GlyphError;
use pcd68_display::font::GlyphSource;
use pcd68_display::glyph::Glyph;

fn glyph_from(rows: &[&str]) -> Glyph {
    let height = rows.len();
    let width = if height == 0 { 0 } else { rows[0].len() };
    let ink: Vec<bool> = rows.iter().flat_map(|r| r.chars().map(|c| c == '#')).collect();
    Glyph::new(width, height, ink).unwrap()
}

#[test]
fn glyph_keeps_its_size_and_ink() {
    let glyph = glyph_from(&["#..", ".#.", "..#", "###"]);
    assert_eq!(glyph.width(), 3);
    assert_eq!(glyph.height(), 4);
    assert_eq!(glyph.area(), 12);
    assert_eq!(glyph.ink(0, 0), Some(true));
    assert_eq!(glyph.ink(1, 0), Some(false));
    assert_eq!(glyph.ink(2, 0), Some(false));
    assert_eq!(glyph.ink(1, 1), Some(true));
    assert_eq!(glyph.ink(2, 2), Some(true));
    assert_eq!(glyph.ink(0, 3), Some(true));
    assert_eq!(glyph.ink(2, 3), Some(true));
    assert_eq!(glyph.ink(0, 2), Some(false));
}

#[test]
fn ink_reads_column_then_row() {
    let glyph = glyph_from(&[".#", "..", ".."]);
    assert_eq!(glyph.ink(1, 0), Some(true));
    assert_eq!(glyph.ink(0, 1), Some(false));
    assert_eq!(glyph.ink(1, 2), Some(false));
    assert_eq!(glyph.ink(2, 1), None);
}

#[test]
fn ink_outside_the_box_is_none() {
    let glyph = glyph_from(&["##", "##"]);
    assert_eq!(glyph.ink(2, 0), None);
    assert_eq!(glyph.ink(0, 2), None);
    assert_eq!(glyph.ink(usize::MAX, usize::MAX), None);
}

#[test]
fn glyph_with_wrong_number_of_flags_is_refused() {
    assert_eq!(Glyph::new(2, 2, vec![true; 3]).err(), Some(GlyphError::BadBitmapLength));
    assert_eq!(Glyph::new(2, 2, vec![true; 5]).err(), Some(GlyphError::BadBitmapLength));
    assert_eq!(Glyph::new(0, 3, vec![true]).err(), Some(GlyphError::BadBitmapLength));
    assert_eq!(
        Glyph::new(usize::MAX, usize::MAX, vec![false; 1]).err(),
        Some(GlyphError::BadBitmapLength)
    );
    assert!(Glyph::new(2, 2, vec![true; 4]).is_ok());
    assert!(Glyph::new(0, 3, vec![]).is_ok());
    assert!(Glyph::new(5, 13, vec![false; 65]).is_ok());
}

#[test]
fn pixel_walks_the_box_row_by_row() {
    let glyph = glyph_from(&["#.#", ".#."]);
    assert_eq!(glyph.pixel(0), Some((0, 0, true)));
    assert_eq!(glyph.pixel(1), Some((1, 0, false)));
    assert_eq!(glyph.pixel(2), Some((2, 0, true)));
    assert_eq!(glyph.pixel(3), Some((0, 1, false)));
    assert_eq!(glyph.pixel(4), Some((1, 1, true)));
    assert_eq!(glyph.pixel(5), Some((2, 1, false)));
    assert_eq!(glyph.pixel(6), None);
    assert_eq!(glyph.pixel(usize::MAX), None);
}

#[test]
fn pixels_cover_the_whole_box_ink_or_not() {
    let glyph = glyph_from(&["#.", "..", ".#"]);
    assert_eq!(
        glyph.pixels(),
        vec![
            (0, 0, true),
            (1, 0, false),
            (0, 1, false),
            (1, 1, false),
            (0, 2, false),
            (1, 2, true),
        ]
    );
    assert_eq!(glyph.pixels(), glyph.pixels());
    for (i, p) in glyph.pixels().into_iter().enumerate() {
        assert_eq!(glyph.pixel(i), Some(p));
        assert_eq!(glyph.ink(p.0, p.1), Some(p.2));
    }
}

#[test]
fn empty_glyph_has_no_pixels() {
    let glyph = Glyph::new(0, 0, vec![]).unwrap();
    assert_eq!(glyph.area(), 0);
    assert_eq!(glyph.pixels(), vec![]);
    assert_eq!(glyph.pixel(0), None);
    assert_eq!(glyph.ink(0, 0), None);
}

#[test]
fn unmapped_character_gets_the_glyph_of_the_blank() {
    let mut font = GlyphSource::new(glyph_from(&["..", ".."]));
    font.insert('a', glyph_from(&["##", "##"])).unwrap();
    assert_eq!(font.glyph_for('a').pixels(), glyph_from(&["##", "##"]).pixels());
    let blank = font.glyph_for(' ').pixels();
    for c in ['b', 'A', '\n', '\u{0}', '\u{e9}', '\u{10ffff}'] {
        assert!(!font.contains(c));
        assert_eq!(font.glyph_for(c).pixels(), blank);
    }
    assert_eq!(blank, glyph_from(&["..", ".."]).pixels());
}

#[test]
fn fallback_follows_a_new_glyph_for_the_blank() {
    let mut font = GlyphSource::new(glyph_from(&["..", ".."]));
    font.insert(' ', glyph_from(&["#.", ".#"])).unwrap();
    assert_eq!(font.glyph_for(' ').pixels(), glyph_from(&["#.", ".#"]).pixels());
    assert_eq!(font.glyph_for('x').pixels(), glyph_from(&["#.", ".#"]).pixels());
}

#[test]
fn new_font_maps_only_the_blank() {
    let font = GlyphSource::new(glyph_from(&["...", "..."]));
    assert!(font.contains(' '));
    assert!(!font.contains('a'));
    assert!(!font.contains('\u{0}'));
    assert_eq!(font.width(), 3);
    assert_eq!(font.height(), 2);
}

#[test]
fn insert_maps_and_replaces() {
    let mut font = GlyphSource::new(glyph_from(&["."]));
    assert_eq!(font.insert('a', glyph_from(&["#"])), Ok(()));
    assert!(font.contains('a'));
    assert!(!font.contains('b'));
    assert_eq!(font.glyph_for('a').ink(0, 0), Some(true));
    assert_eq!(font.insert('a', glyph_from(&["."])), Ok(()));
    assert_eq!(font.glyph_for('a').ink(0, 0), Some(false));
    assert_eq!(font.insert('b', glyph_from(&["#"])), Ok(()));
    assert_eq!(font.glyph_for('b').ink(0, 0), Some(true));
    assert_eq!(font.glyph_for('a').ink(0, 0), Some(false));
    assert_eq!(font.glyph_for(' ').ink(0, 0), Some(false));
}

#[test]
fn glyph_of_another_size_is_refused() {
    let mut font = GlyphSource::new(glyph_from(&["..", ".."]));
    font.insert('a', glyph_from(&["#.", ".#"])).unwrap();
    assert_eq!(font.insert('a', glyph_from(&["###", "###"])), Err(GlyphError::SizeMismatch));
    assert_eq!(font.insert('b', glyph_from(&["##"])), Err(GlyphError::SizeMismatch));
    assert_eq!(font.insert(' ', glyph_from(&["#", "#"])), Err(GlyphError::SizeMismatch));
    assert_eq!(font.insert('c', Glyph::new(0, 0, vec![]).unwrap()), Err(GlyphError::SizeMismatch));
    assert!(!font.contains('b'));
    assert!(!font.contains('c'));
    assert_eq!(font.glyph_for('a').pixels(), glyph_from(&["#.", ".#"]).pixels());
    assert_eq!(font.glyph_for(' ').pixels(), glyph_from(&["..", ".."]).pixels());
    assert_eq!((font.width(), font.height()), (2, 2));
}

#[test]
fn every_glyph_of_a_font_has_the_size_of_the_font() {
    let mut font = GlyphSource::new(Glyph::new(5, 13, vec![false; 65]).unwrap());
    font.insert('a', Glyph::new(5, 13, vec![true; 65]).unwrap()).unwrap();
    for c in [' ', 'a', 'z'] {
        assert_eq!(font.glyph_for(c).width(), 5);
        assert_eq!(font.glyph_for(c).height(), 13);
        assert_eq!(font.glyph_for(c).area(), 65);
    }
}

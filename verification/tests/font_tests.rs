use raycaster::font::{glyph_from_parts, glyph_request, rasterize_glyph, GlyphError};
use raycaster::glyph::{fill_glyph_alpha, glyph_is_drawable, GLYPH_SIZE};

const FONT: &str = "/usr/share/fonts/truetype/dejavu/DejaVuSansMono.ttf";

#[test]
fn rasterized_glyph_has_coverage() {
    let lib = freetype::Library::init().unwrap();
    let face = lib.new_face(FONT, 0).unwrap();
    let g = rasterize_glyph(&face, '8').unwrap();
    assert!(g.width > 0 && g.width <= GLYPH_SIZE);
    assert!(g.rows > 0 && g.rows <= GLYPH_SIZE);
    assert_eq!(g.buffer.len(), g.pitch * g.rows);
    assert!(g.below_top <= g.rows);
    assert!(g.buffer.iter().any(|&b| b > 0));

    let pitch = 4 * GLYPH_SIZE;
    let mut tex = vec![7u8; pitch * GLYPH_SIZE];
    assert!(glyph_is_drawable(tex.len(), pitch, GLYPH_SIZE, g.buffer.len(), g.width, g.rows, g.pitch));
    fill_glyph_alpha(&mut tex, pitch, GLYPH_SIZE, &g.buffer, g.width, g.rows, g.pitch);
    let alpha: Vec<u8> = (0..GLYPH_SIZE * GLYPH_SIZE).map(|k| tex[4 * (k % GLYPH_SIZE) + (k / GLYPH_SIZE) * pitch + 3]).collect();
    assert!(alpha.iter().any(|&a| a > 0));
    assert_eq!(tex[4 * (GLYPH_SIZE - 1) + (GLYPH_SIZE - 1) * pitch + 3], 0);
}

#[test]
fn different_digits_render_differently() {
    let lib = freetype::Library::init().unwrap();
    let face = lib.new_face(FONT, 0).unwrap();
    let one = rasterize_glyph(&face, '1').unwrap();
    let zero = rasterize_glyph(&face, '0').unwrap();
    assert_ne!(one.buffer, zero.buffer);
    // A space renders to an empty bitmap.
    let space = rasterize_glyph(&face, ' ');
    match space {
        Ok(g) => assert!(g.buffer.iter().all(|&b| b == 0)),
        Err(GlyphError::TopBelowRows) => {}
        Err(e) => panic!("{:?}", e),
    }
}

#[test]
fn glyph_request_is_24_pixels_and_char_code() {
    assert_eq!(glyph_request('7'), (24, 24, 0x37));
    assert_eq!(glyph_request('é'), (24, 24, 0xe9));
}

#[test]
fn glyph_from_parts_converts_numbers() {
    let g = glyph_from_parts(3, 4, 5, &[1, 2, 3], 2, 4).unwrap();
    assert_eq!((g.width, g.rows, g.pitch, g.left, g.below_top), (3, 4, 5, 2, 0));
    assert_eq!(g.buffer, vec![1, 2, 3]);
    let g = glyph_from_parts(3, 10, 4, &[], -1, 7).unwrap();
    assert_eq!(g.below_top, 3);
    assert_eq!(g.left, usize::MAX);
    // A top bearing above the rows, or negative, is refused.
    assert!(matches!(glyph_from_parts(3, 4, 5, &[], 0, 5), Err(GlyphError::TopBelowRows)));
    assert!(matches!(glyph_from_parts(3, 4, 5, &[], 0, -1), Err(GlyphError::TopBelowRows)));
}

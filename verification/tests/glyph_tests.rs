use raycaster::glyph::{fill_glyph_alpha, glyph_is_drawable, GLYPH_SIZE};

#[test]
fn glyph_alpha_from_bitmap() {
    let size = 3;
    let pitch = 16;
    let mut buf = vec![9u8; pitch * size];
    // 2 x 2 bitmap with a pitch of 4.
    let glyph = vec![10, 20, 0, 0, 30, 40, 0, 0];
    assert!(glyph_is_drawable(buf.len(), pitch, size, glyph.len(), 2, 2, 4));
    fill_glyph_alpha(&mut buf, pitch, size, &glyph, 2, 2, 4);
    for j in 0..size {
        for i in 0..size {
            let p = 4 * i + j * pitch;
            assert_eq!(&buf[p..p + 3], &[0, 0, 0]);
            let expected = if i < 2 && j < 2 { glyph[i + j * 4] } else { 0 };
            assert_eq!(buf[p + 3], expected);
        }
        // Padding at the end of each row is left alone.
        assert_eq!(&buf[j * pitch + 12..(j + 1) * pitch], &[9, 9, 9, 9]);
    }
}

#[test]
fn glyph_square_size() {
    assert_eq!(GLYPH_SIZE, 24);
    let pitch = 4 * GLYPH_SIZE;
    let mut buf = vec![1u8; pitch * GLYPH_SIZE];
    let glyph = vec![255u8; 5 * 5];
    fill_glyph_alpha(&mut buf, pitch, GLYPH_SIZE, &glyph, 5, 5, 5);
    assert_eq!(buf[3], 255);
    assert_eq!(buf[4 * 4 + 4 * pitch + 3], 255);
    assert_eq!(buf[4 * 5 + 3], 0);
    assert_eq!(buf[4 * 23 + 23 * pitch + 3], 0);
}

#[test]
fn glyph_drawability_checks() {
    // Rows narrower than the square are drawn over one another.
    assert!(glyph_is_drawable(1000, 8, 3, 4, 2, 2, 2));
    // Buffer too short.
    assert!(!glyph_is_drawable(40, 16, 3, 4, 2, 2, 2));
    // Bitmap shorter than its pitch says.
    assert!(!glyph_is_drawable(48, 16, 3, 3, 2, 2, 2));
    assert!(glyph_is_drawable(48, 16, 3, 4, 2, 2, 2));
    // Nothing to draw.
    assert!(glyph_is_drawable(0, 0, 0, 0, 0, 0, 0));
}

fn draw_like_the_game(buf: &mut [u8], pitch: usize, size: usize, b_buf: &[u8], b_width: usize, b_height: usize, b_pitch: usize) {
    for j in 0..size {
        for i in 0..size {
            buf[(4 * i + j * pitch) + 0] = 0;
            buf[(4 * i + j * pitch) + 1] = 0;
            buf[(4 * i + j * pitch) + 2] = 0;
            if i < b_width && j < b_height {
                buf[(4 * i + j * pitch) + 3] = b_buf[i + j * b_pitch];
            } else {
                buf[(4 * i + j * pitch) + 3] = 0;
            }
        }
    }
}

#[test]
fn overlapping_rows_keep_later_row() {
    let glyph: Vec<u8> = (1..=30).collect();
    for pitch in [0usize, 2, 4, 6, 8, 12, 13, 20] {
        for (size, w, h, gp) in [(3usize, 3usize, 3usize, 4usize), (4, 2, 5, 5), (2, 5, 1, 3)] {
            let len = (size - 1) * pitch + 4 * size + 3;
            assert!(glyph_is_drawable(len, pitch, size, glyph.len(), w, h, gp));
            let mut expected = vec![77u8; len];
            draw_like_the_game(&mut expected, pitch, size, &glyph, w, h, gp);
            let mut got = vec![77u8; len];
            fill_glyph_alpha(&mut got, pitch, size, &glyph, w, h, gp);
            assert_eq!(got, expected, "pitch {} size {}", pitch, size);
        }
    }
}

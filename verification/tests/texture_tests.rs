use raycaster::texture::{
    decode_png, load_textures, textures_from_images, RgbImage, Texture, TextureError, TEX_BYTES,
    TEX_HEIGHT, TEX_WIDTH,
};

fn png_of(bytes: &[u8], w: usize, h: usize) -> Vec<u8> {
    lodepng::encode24(bytes, w, h).unwrap()
}

fn pattern(m: usize) -> Vec<u8> {
    (0..TEX_BYTES).map(|i| (i % m) as u8).collect()
}

#[test]
fn texture_sizes() {
    assert_eq!(TEX_WIDTH, 128);
    assert_eq!(TEX_HEIGHT, 128);
    assert_eq!(TEX_BYTES, 128 * 128 * 3);
}

#[test]
fn textures_decode_their_png_files() {
    let a = pattern(256);
    let b = pattern(7);
    let c = vec![42u8; TEX_BYTES];
    let pa = png_of(&a, TEX_WIDTH, TEX_HEIGHT);
    let pb = png_of(&b, TEX_WIDTH, TEX_HEIGHT);
    let pc = png_of(&c, TEX_WIDTH, TEX_HEIGHT);
    // The files hold compressed data, not the pixels themselves.
    assert_ne!(pc.len(), TEX_BYTES);
    let t = load_textures(&pa, &pb, &pc).unwrap();
    assert_eq!(t.len(), 3);
    for i in [0usize, 1, 255, 256, 1000, TEX_BYTES - 1] {
        assert_eq!(t[0].byte(i), a[i]);
        assert_eq!(t[1].byte(i), b[i]);
        assert_eq!(t[2].byte(i), 42);
    }
}

#[test]
fn undecodable_file_is_reported_first() {
    let good = png_of(&pattern(9), TEX_WIDTH, TEX_HEIGHT);
    let small = png_of(&[1, 2, 3, 4, 5, 6], 2, 1);
    let garbage = vec![0u8, 1, 2, 3, 4];
    // A decode error wins over a wrong size, even in a later file.
    match load_textures(&small, &good, &garbage) {
        Err(TextureError::Decode(k, _)) => assert_eq!(k, 2),
        other => panic!("unexpected {:?}", other.map(|v| v.len())),
    }
    match load_textures(&good, &garbage, &good) {
        Err(TextureError::Decode(k, _)) => assert_eq!(k, 1),
        other => panic!("unexpected {:?}", other.map(|v| v.len())),
    }
}

#[test]
fn wrong_sized_image_is_reported() {
    let good = png_of(&pattern(9), TEX_WIDTH, TEX_HEIGHT);
    let small = png_of(&[1, 2, 3, 4, 5, 6], 2, 1);
    match load_textures(&good, &good, &small) {
        Err(TextureError::WrongSize(k, n)) => {
            assert_eq!(k, 2);
            assert_eq!(n, 6);
        }
        other => panic!("unexpected {:?}", other.map(|v| v.len())),
    }
    let wide = png_of(&vec![0u8; 3 * 256 * 64], 256, 64);
    // Same number of bytes as a texture: accepted, as a byte copy would be.
    assert_eq!(load_textures(&wide, &good, &good).unwrap().len(), 3);
}

#[test]
fn texture_from_raw_bytes() {
    let b = pattern(7);
    let single = Texture::from_rgb_bytes(&b);
    assert_eq!(single.len(), TEX_BYTES);
    assert_eq!(single.byte(13), 6);
}

#[test]
fn decode_png_gives_pixels_and_size() {
    let pixels = [1u8, 2, 3, 4, 5, 6, 7, 8, 9, 10, 11, 12];
    let img = decode_png(&png_of(&pixels, 2, 2)).unwrap();
    assert_eq!(img.bytes, pixels.to_vec());
    assert_eq!((img.width, img.height), (2, 2));
    assert!(decode_png(&[1, 2, 3]).is_err());
}

#[test]
fn textures_from_images_checks_sizes_in_order() {
    let img = |n: usize, v: u8| RgbImage { bytes: vec![v; n], width: 0, height: 0 };
    let t = textures_from_images(img(TEX_BYTES, 1), img(TEX_BYTES, 2), img(TEX_BYTES, 3)).unwrap();
    assert_eq!((t[0].byte(5), t[1].byte(5), t[2].byte(5)), (1, 2, 3));
    match textures_from_images(img(TEX_BYTES, 1), img(10, 2), img(20, 3)) {
        Err(TextureError::WrongSize(k, n)) => assert_eq!((k, n), (1, 10)),
        other => panic!("unexpected {:?}", other.map(|v| v.len())),
    }
}

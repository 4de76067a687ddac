use vstd::prelude::*;

use rgb::ComponentBytes;

verus! {

/// Width of a wall texture, in pixels.
pub const TEX_WIDTH: usize = 128;

/// Height of a wall texture, in pixels.
pub const TEX_HEIGHT: usize = TEX_WIDTH;

/// Size of a wall texture in bytes: three bytes (red, green, blue) per pixel.
pub const TEX_BYTES: usize = TEX_WIDTH * TEX_HEIGHT * 3;

/// A square RGB wall texture of `TEX_BYTES` bytes, row after row.
pub struct Texture {
    bytes: Vec<u8>,
}

impl View for Texture {
    type V = Seq<u8>;

    closed spec fn view(&self) -> Seq<u8> {
        self.bytes@
    }
}

impl Texture {
    #[verifier::type_invariant]
    spec fn inv(self) -> bool {
        self.bytes.len() == TEX_BYTES
    }

    /// Copies the RGB bytes of a decoded `TEX_WIDTH` by `TEX_HEIGHT` image
    /// into a texture.
    pub fn from_rgb_bytes(bytes: &[u8]) -> (t: Texture)
        requires
            bytes@.len() == TEX_BYTES,
        ensures
            t@ == bytes@,
    {
        let mut v: Vec<u8> = Vec::with_capacity(TEX_BYTES);
        let n = bytes.len();
        for i in 0..n
            invariant
                n == bytes@.len(),
                v@ == bytes@.take(i as int),
        {
            v.push(bytes[i]);
            assert(bytes@.take(i + 1) == bytes@.take(i as int).push(bytes@[i as int]));
        }
        assert(bytes@.take(n as int) == bytes@);
        Texture { bytes: v }
    }

    /// The texture's byte at position `i`.
    pub fn byte(&self, i: usize) -> (b: u8)
        requires
            i < TEX_BYTES,
        ensures
            b == self@[i as int],
    {
        proof {
            use_type_invariant(self);
        }
        self.bytes[i]
    }

    /// Every texture holds `TEX_BYTES` bytes.
    pub fn len(&self) -> (n: usize)
        ensures
            n == self@.len(),
            n == TEX_BYTES,
    {
        proof {
            use_type_invariant(self);
        }
        self.bytes.len()
    }
}

/// The declared type of lodepng's decoding error, carried through as is.
#[verifier::external_type_specification]
#[verifier::external_body]
pub struct ExPngError(lodepng::Error);

/// What lodepng's `decode24` makes of the bytes of a PNG file: `None` where
/// it rejects them, and else the image's RGB bytes (three per pixel, row
/// after row), its width and its height.
pub uninterp spec fn png_rgb24(png: Seq<u8>) -> Option<(Seq<u8>, nat, nat)>;

/// Decodes a PNG file held in memory to 8-bit RGB with `lodepng::decode24`,
/// and hands its pixels on as bytes (`rgb`'s `as_bytes`). Trusted: the
/// result is `png_rgb24` of the input bytes; nothing is said of how the
/// decoder reaches it.
#[verifier::external_body]
fn decode_png_rgb24(png: &[u8]) -> (r: Result<(Vec<u8>, usize, usize), lodepng::Error>)
    ensures
        r is Err <==> png_rgb24(png@) is None,
        r matches Ok((bytes, w, h)) ==> png_rgb24(png@) == Some((bytes@, w as nat, h as nat)),
{
    match lodepng::decode24(png) {
        Ok(bitmap) => Ok((bitmap.buffer.as_bytes().to_vec(), bitmap.width, bitmap.height)),
        Err(e) => Err(e),
    }
}

/// A decoded image: its RGB bytes (three per pixel, row after row), width
/// and height.
pub struct RgbImage {
    pub bytes: Vec<u8>,
    pub width: usize,
    pub height: usize,
}

/// Decodes the bytes of a PNG file to an 8-bit RGB image; lodepng's error
/// where it rejects them.
pub fn decode_png(png: &[u8]) -> (r: Result<RgbImage, lodepng::Error>)
    ensures
        r is Err <==> png_rgb24(png@) is None,
        r matches Ok(img) ==> png_rgb24(png@) == Some(
            (img.bytes@, img.width as nat, img.height as nat),
        ),
{
    match decode_png_rgb24(png) {
        Ok((bytes, width, height)) => Ok(RgbImage { bytes, width, height }),
        Err(e) => Err(e),
    }
}

/// Why the wall textures could not be built.
#[derive(Debug)]
pub enum TextureError {
    /// The image numbered `0` (bluestone), `1` (red brick) or `2` (eagle)
    /// is not a PNG file that lodepng decodes.
    Decode(usize, lodepng::Error),
    /// The image numbered as above decoded to this many RGB bytes, not
    /// `TEX_BYTES`.
    WrongSize(usize, usize),
}

/// Whether a PNG file decodes to an image of exactly `TEX_BYTES` RGB bytes.
pub open spec fn png_fits_texture(png: Seq<u8>) -> bool {
    &&& png_rgb24(png) is Some
    &&& png_rgb24(png).unwrap().0.len() == TEX_BYTES
}

/// Builds the three wall textures, in the order in which tiles name them:
/// bluestone (0), red brick (1) and eagle (2), from decoded images. The
/// first image whose bytes are not `TEX_BYTES` long is reported; the
/// bytes are taken as they are, whatever the image's width and height.
pub fn textures_from_images(bluestone: RgbImage, redbrick: RgbImage, eagle: RgbImage) -> (r: Result<
    Vec<Texture>,
    TextureError,
>)
    ensures
        ({
            let imgs = seq![bluestone.bytes@, redbrick.bytes@, eagle.bytes@];
            &&& r is Ok <==> (forall|k: int| 0 <= k < 3 ==> (#[trigger] imgs[k]).len() == TEX_BYTES)
            &&& r matches Ok(v) ==> {
                &&& v.len() == 3
                &&& forall|k: int| 0 <= k < 3 ==> #[trigger] v@[k]@ == imgs[k]
            }
            &&& r matches Err(e) ==> e matches TextureError::WrongSize(k, n) && {
                &&& k < 3
                &&& imgs[k as int].len() == n
                &&& n != TEX_BYTES
                &&& forall|j: int| 0 <= j < k ==> (#[trigger] imgs[j]).len() == TEX_BYTES
            }
        }),
{
    let ghost imgs = seq![bluestone.bytes@, redbrick.bytes@, eagle.bytes@];
    assert(imgs[0] == bluestone.bytes@ && imgs[1] == redbrick.bytes@ && imgs[2] == eagle.bytes@);
    if bluestone.bytes.len() != TEX_BYTES {
        return Err(TextureError::WrongSize(0, bluestone.bytes.len()));
    }
    if redbrick.bytes.len() != TEX_BYTES {
        return Err(TextureError::WrongSize(1, redbrick.bytes.len()));
    }
    if eagle.bytes.len() != TEX_BYTES {
        return Err(TextureError::WrongSize(2, eagle.bytes.len()));
    }
    let mut v: Vec<Texture> = Vec::new();
    v.push(Texture { bytes: bluestone.bytes });
    v.push(Texture { bytes: redbrick.bytes });
    v.push(Texture { bytes: eagle.bytes });
    Ok(v)
}

/// Builds the three wall textures, in the order in which tiles name them:
/// bluestone (0), red brick (1) and eagle (2), each from the bytes of a PNG
/// file. All three files are decoded first; the first that does not decode
/// is reported, else the first whose image is not `TEX_BYTES` bytes of RGB
/// (see `textures_from_images`).
pub fn load_textures(bluestone_png: &[u8], redbrick_png: &[u8], eagle_png: &[u8]) -> (r: Result<
    Vec<Texture>,
    TextureError,
>)
    ensures
        ({
            let files = seq![bluestone_png@, redbrick_png@, eagle_png@];
            &&& r is Ok <==> (forall|k: int| 0 <= k < 3 ==> png_fits_texture(#[trigger] files[k]))
            &&& r matches Ok(v) ==> {
                &&& v.len() == 3
                &&& forall|k: int| 0 <= k < 3 ==> #[trigger] v@[k]@ == png_rgb24(files[k]).unwrap().0
            }
            &&& r matches Err(TextureError::Decode(k, _)) ==> {
                &&& k < 3
                &&& png_rgb24(files[k as int]) is None
                &&& forall|j: int| 0 <= j < k ==> #[trigger] png_rgb24(files[j]) is Some
            }
            &&& r matches Err(TextureError::WrongSize(k, n)) ==> {
                &&& k < 3
                &&& forall|j: int| 0 <= j < 3 ==> #[trigger] png_rgb24(files[j]) is Some
                &&& png_rgb24(files[k as int]).unwrap().0.len() == n
                &&& n != TEX_BYTES
                &&& forall|j: int| 0 <= j < k ==> png_fits_texture(#[trigger] files[j])
            }
        }),
{
    let ghost files = seq![bluestone_png@, redbrick_png@, eagle_png@];
    assert(files[0] == bluestone_png@ && files[1] == redbrick_png@ && files[2] == eagle_png@);
    let b0 = match decode_png(bluestone_png) {
        Ok(img) => img,
        Err(e) => {
            return Err(TextureError::Decode(0, e));
        },
    };
    let b1 = match decode_png(redbrick_png) {
        Ok(img) => img,
        Err(e) => {
            return Err(TextureError::Decode(1, e));
        },
    };
    let b2 = match decode_png(eagle_png) {
        Ok(img) => img,
        Err(e) => {
            return Err(TextureError::Decode(2, e));
        },
    };
    let ghost imgs = seq![b0.bytes@, b1.bytes@, b2.bytes@];
    assert forall|k: int| 0 <= k < 3 implies #[trigger] png_rgb24(files[k]) is Some && imgs[k]
        == png_rgb24(files[k]).unwrap().0 by {
        if k == 0 {
        } else if k == 1 {
        } else {
        }
    }
    let r = textures_from_images(b0, b1, b2);
    assert forall|k: int| 0 <= k < 3 implies (png_fits_texture(#[trigger] files[k]) <==> imgs[k].len()
        == TEX_BYTES) by {
        assert(png_rgb24(files[k]) is Some);
    }
    r
}

} // verus!

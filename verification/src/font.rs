use vstd::prelude::*;

use crate::glyph::{glyph_buffer_byte, GLYPH_SIZE};

verus! {

/// The declared type of a FreeType font face.
#[verifier::external_type_specification]
#[verifier::external_body]
#[verifier::reject_recursive_types(BYTES)]
pub struct ExFace<BYTES>(freetype::Face<BYTES>);

/// The declared type of a FreeType glyph slot.
#[verifier::external_type_specification]
#[verifier::external_body]
pub struct ExGlyphSlot(freetype::GlyphSlot);

/// The declared type of a FreeType bitmap.
#[verifier::external_type_specification]
#[verifier::external_body]
pub struct ExBitmap(freetype::Bitmap);

/// The declared type of FreeType's pixel modes.
#[verifier::external_type_specification]
#[verifier::external_body]
pub struct ExPixelMode(freetype::bitmap::PixelMode);

/// The declared type of FreeType's glyph loading flags.
#[verifier::external_type_specification]
#[verifier::external_body]
pub struct ExLoadFlag(freetype::face::LoadFlag);

/// The declared type of FreeType's errors.
#[verifier::external_type_specification]
#[verifier::external_body]
pub struct ExFtError(freetype::Error);

/// `Face::set_pixel_sizes`: asks FreeType for glyphs of this many pixels.
/// Nothing is claimed of the outcome, which rests on the font.
#[verifier::external_body]
fn ft_set_pixel_sizes(face: &freetype::Face, width: u32, height: u32) -> Result<(), freetype::Error> {
    face.set_pixel_sizes(width, height)
}

/// `LoadFlag::RENDER`: the flag that makes FreeType render a glyph as it
/// loads it.
#[verifier::external_body]
fn ft_load_flag_render() -> freetype::face::LoadFlag {
    freetype::face::LoadFlag::RENDER
}

/// `Face::load_char`: loads the glyph of a character code into the face's
/// glyph slot. Nothing is claimed of the outcome, which rests on the font.
#[verifier::external_body]
fn ft_load_char(face: &freetype::Face, code: usize, flags: freetype::face::LoadFlag) -> Result<
    (),
    freetype::Error,
> {
    face.load_char(code, flags)
}

/// `Face::glyph`: the face's glyph slot.
#[verifier::external_body]
fn ft_glyph(face: &freetype::Face) -> &freetype::GlyphSlot {
    face.glyph()
}

/// `GlyphSlot::bitmap`: the bitmap of the glyph in the slot.
#[verifier::external_body]
fn ft_slot_bitmap(slot: &freetype::GlyphSlot) -> freetype::Bitmap {
    slot.bitmap()
}

/// `GlyphSlot::bitmap_left`: the glyph's left bearing in pixels. Nothing is
/// claimed of its value.
#[verifier::external_body]
fn ft_slot_bitmap_left(slot: &freetype::GlyphSlot) -> i32 {
    slot.bitmap_left()
}

/// `GlyphSlot::bitmap_top`: the glyph's top bearing in pixels. Nothing is
/// claimed of its value.
#[verifier::external_body]
fn ft_slot_bitmap_top(slot: &freetype::GlyphSlot) -> i32 {
    slot.bitmap_top()
}

/// `Bitmap::pixel_mode`: how the bitmap stores its pixels; an error for a
/// mode FreeType-rs does not know.
#[verifier::external_body]
fn ft_bitmap_pixel_mode(bitmap: &freetype::Bitmap) -> Result<
    freetype::bitmap::PixelMode,
    freetype::Error,
> {
    bitmap.pixel_mode()
}

/// `Bitmap::width`: pixels per bitmap row. Nothing is claimed of its value.
#[verifier::external_body]
fn ft_bitmap_width(bitmap: &freetype::Bitmap) -> i32 {
    bitmap.width()
}

/// `Bitmap::rows`: the number of bitmap rows. Nothing is claimed of its
/// value.
#[verifier::external_body]
fn ft_bitmap_rows(bitmap: &freetype::Bitmap) -> i32 {
    bitmap.rows()
}

/// `Bitmap::pitch`: bytes from one bitmap row to the next. Nothing is
/// claimed of its value.
#[verifier::external_body]
fn ft_bitmap_pitch(bitmap: &freetype::Bitmap) -> i32 {
    bitmap.pitch()
}

/// `Bitmap::buffer`: the bitmap's bytes. FreeType-rs makes it
/// `|pitch| * rows` bytes long, read from the same bitmap; that is not
/// stated here, as the bitmap's fields are read through a pointer into
/// FreeType's glyph slot and have no name in the library.
#[verifier::external_body]
fn ft_bitmap_buffer(bitmap: &freetype::Bitmap) -> &[u8] {
    bitmap.buffer()
}

/// A glyph rendered by FreeType, as the game reads it: the coverage bitmap
/// (`width` by `rows` pixels, rows `pitch` bytes apart, one byte per pixel)
/// and the bearings, converted to `usize` the way the game converts them.
pub struct GlyphBitmap {
    pub width: usize,
    pub rows: usize,
    pub pitch: usize,
    pub buffer: Vec<u8>,
    /// The left bearing, as `usize`.
    pub left: usize,
    /// `rows` less the top bearing.
    pub below_top: usize,
}

/// Why a glyph could not be rendered.
#[derive(Debug)]
pub enum GlyphError {
    /// FreeType refused the pixel size.
    PixelSize(freetype::Error),
    /// FreeType could not load or render the character.
    LoadChar(freetype::Error),
    /// The rendered bitmap has a pixel mode FreeType-rs does not know.
    PixelMode(freetype::Error),
    /// The glyph's top bearing lies below its bitmap's last row.
    TopBelowRows,
}

/// The bytes of `s`, copied.
fn copy_bytes(s: &[u8]) -> (v: Vec<u8>)
    ensures
        v@ == s@,
{
    let mut v: Vec<u8> = Vec::new();
    let n = s.len();
    for i in 0..n
        invariant
            n == s@.len(),
            v@ == s@.take(i as int),
    {
        v.push(s[i]);
        assert(s@.take(i + 1) == s@.take(i as int).push(s@[i as int]));
    }
    assert(s@.take(n as int) == s@);
    v
}

/// What the game asks FreeType for when it draws `ch`: glyphs of
/// `GLYPH_SIZE` by `GLYPH_SIZE` pixels, then the character's code.
pub fn glyph_request(ch: char) -> (r: (u32, u32, usize))
    ensures
        r == (GLYPH_SIZE as u32, GLYPH_SIZE as u32, ch as usize),
{
    (GLYPH_SIZE as u32, GLYPH_SIZE as u32, ch as usize)
}

/// Whether `g` is the glyph read back from a bitmap of `width` by `rows`
/// pixels, `pitch` bytes per row, holding `buffer`, with bearings `left`
/// and `top`: each number converted to `usize` as the game converts it,
/// and `below_top` the rows less the top bearing.
pub open spec fn glyph_of_parts(
    g: GlyphBitmap,
    width: i32,
    rows: i32,
    pitch: i32,
    buffer: Seq<u8>,
    left: i32,
    top: i32,
) -> bool {
    &&& g.width == width as usize
    &&& g.rows == rows as usize
    &&& g.pitch == pitch as usize
    &&& g.buffer@ == buffer
    &&& g.left == left as usize
    &&& g.below_top == (rows as usize - top as usize) as usize
}

/// Builds the glyph the game reads back from a rendered bitmap: `width`,
/// `rows` and `pitch` of the bitmap, its bytes, and the left and top
/// bearings. The top bearing, as `usize`, may not exceed the rows, as
/// `usize`: where it does, `TopBelowRows`.
pub fn glyph_from_parts(
    width: i32,
    rows: i32,
    pitch: i32,
    buffer: &[u8],
    left: i32,
    top: i32,
) -> (r: Result<GlyphBitmap, GlyphError>)
    ensures
        r is Err <==> top as usize > rows as usize,
        r matches Err(e) ==> e is TopBelowRows,
        r matches Ok(g) ==> glyph_of_parts(g, width, rows, pitch, buffer@, left, top),
{
    let rows_u = rows as usize;
    let top_u = top as usize;
    if top_u > rows_u {
        return Err(GlyphError::TopBelowRows);
    }
    Ok(
        GlyphBitmap {
            width: width as usize,
            rows: rows_u,
            pitch: pitch as usize,
            buffer: copy_bytes(buffer),
            left: left as usize,
            below_top: rows_u - top_u,
        },
    )
}

/// Renders `ch` with FreeType: sets the face's pixel size to
/// `glyph_request(ch)`'s `GLYPH_SIZE` square, then loads and renders the
/// character code `ch as usize`, and reads back the bitmap and bearings
/// through `glyph_from_parts`. Each failing FreeType step gives its own
/// error and stops the steps after it. What the bitmap holds rests on the
/// font and on FreeType: the result is the glyph of some bitmap and
/// bearings whose top bearing does not exceed the rows.
pub fn rasterize_glyph(face: &freetype::Face, ch: char) -> (r: Result<GlyphBitmap, GlyphError>)
    ensures
        r matches Ok(g) ==> exists|width: i32, rows: i32, pitch: i32, left: i32, top: i32|
            top as usize <= rows as usize && #[trigger] glyph_of_parts(
                g,
                width,
                rows,
                pitch,
                g.buffer@,
                left,
                top,
            ),
{
    let (size_w, size_h, code) = glyph_request(ch);
    if let Err(e) = ft_set_pixel_sizes(face, size_w, size_h) {
        return Err(GlyphError::PixelSize(e));
    }
    if let Err(e) = ft_load_char(face, code, ft_load_flag_render()) {
        return Err(GlyphError::LoadChar(e));
    }
    let slot = ft_glyph(face);
    let bitmap = ft_slot_bitmap(slot);
    if let Err(e) = ft_bitmap_pixel_mode(&bitmap) {
        return Err(GlyphError::PixelMode(e));
    }
    let width = ft_bitmap_width(&bitmap);
    let rows = ft_bitmap_rows(&bitmap);
    let pitch = ft_bitmap_pitch(&bitmap);
    let buffer = ft_bitmap_buffer(&bitmap);
    let left = ft_slot_bitmap_left(slot);
    let top = ft_slot_bitmap_top(slot);
    let r = glyph_from_parts(width, rows, pitch, buffer, left, top);
    if let Ok(g) = &r {
        assert(glyph_of_parts(*g, width, rows, pitch, g.buffer@, left, top));
    }
    r
}

/// The bearings of a glyph never shift it: two glyphs with the same bitmap
/// (width, rows, pitch and bytes) draw the same bytes into any buffer,
/// whatever their bearings.
pub proof fn lemma_bearings_do_not_shift(
    g1: GlyphBitmap,
    g2: GlyphBitmap,
    old: Seq<u8>,
    pitch: int,
    size: int,
)
    requires
        g1.width == g2.width,
        g1.rows == g2.rows,
        g1.pitch == g2.pitch,
        g1.buffer@ == g2.buffer@,
    ensures
        forall|p: int|
            #[trigger] glyph_buffer_byte(
                old,
                p,
                pitch,
                size,
                g1.buffer@,
                g1.width as int,
                g1.rows as int,
                g1.pitch as int,
            ) == glyph_buffer_byte(
                old,
                p,
                pitch,
                size,
                g2.buffer@,
                g2.width as int,
                g2.rows as int,
                g2.pitch as int,
            ),
{
}

} // verus!

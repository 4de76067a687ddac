use vstd::prelude::*;

use vstd::arithmetic::div_mod::{lemma_fundamental_div_mod, lemma_fundamental_div_mod_converse};

verus! {

/// Side of the square texture a glyph is drawn into, in pixels.
pub const GLYPH_SIZE: usize = 24;

/// Byte `off` of the pixels of row `row` of a glyph square: the colour
/// bytes are 0 and the alpha byte is the glyph's coverage where the glyph
/// bitmap (`glyph_width` by `glyph_rows`, rows of `glyph_pitch` bytes) has
/// a pixel, and 0 elsewhere.
pub open spec fn glyph_pixel_byte(
    off: int,
    row: int,
    glyph: Seq<u8>,
    glyph_width: int,
    glyph_rows: int,
    glyph_pitch: int,
) -> u8 {
    let i = off / 4;
    let c = off % 4;
    if c < 3 {
        0
    } else if i < glyph_width && row < glyph_rows {
        glyph[i + row * glyph_pitch]
    } else {
        0
    }
}

/// The last of the first `rows` rows of a `size` by `size` square, drawn at
/// `pitch` bytes from one another, whose pixels cover byte `p`; -1 if none
/// does.
pub open spec fn last_covering_row(p: int, pitch: int, size: int, rows: int) -> int {
    let r = if pitch == 0 {
        rows - 1
    } else {
        min_int(rows - 1, p / pitch)
    };
    if 0 <= r && p - r * pitch < 4 * size {
        r
    } else {
        -1
    }
}

/// Byte `p` of an ARGB texture buffer after the first `rows` rows of a
/// glyph square were drawn into it, row after row: the byte that the last
/// row covering it wrote, or its old value where no row covers it.
pub open spec fn glyph_rows_byte(
    old: Seq<u8>,
    p: int,
    pitch: int,
    size: int,
    rows: int,
    glyph: Seq<u8>,
    glyph_width: int,
    glyph_rows: int,
    glyph_pitch: int,
) -> u8 {
    let r = last_covering_row(p, pitch, size, rows);
    if r >= 0 {
        glyph_pixel_byte(p - r * pitch, r, glyph, glyph_width, glyph_rows, glyph_pitch)
    } else {
        old[p]
    }
}

/// Byte `p` of an ARGB texture buffer (rows of `pitch` bytes) after a
/// `size` by `size` glyph was drawn into it. Where rows of the buffer are
/// at least `4 * size` bytes long, this is the glyph pixel's byte inside
/// the square and the old byte outside it; where they are shorter, rows of
/// the square overlap and the later row's bytes are the ones that remain.
pub open spec fn glyph_buffer_byte(
    old: Seq<u8>,
    p: int,
    pitch: int,
    size: int,
    glyph: Seq<u8>,
    glyph_width: int,
    glyph_rows: int,
    glyph_pitch: int,
) -> u8 {
    glyph_rows_byte(old, p, pitch, size, size, glyph, glyph_width, glyph_rows, glyph_pitch)
}

/// The smaller of two integers.
pub open spec fn min_int(a: int, b: int) -> int {
    if a < b {
        a
    } else {
        b
    }
}

/// What drawing a glyph asks of its inputs: the square, drawn at `pitch`
/// bytes per row, fits in the buffer, and every bitmap pixel that lands in
/// the square lies within the bitmap.
pub open spec fn glyph_drawable(
    buf_len: int,
    pitch: int,
    size: int,
    glyph_len: int,
    glyph_width: int,
    glyph_rows: int,
    glyph_pitch: int,
) -> bool {
    size > 0 ==> {
        &&& (size - 1) * pitch + 4 * size <= buf_len
        &&& (min_int(size, glyph_width) > 0 && min_int(size, glyph_rows) > 0) ==> (min_int(
            size,
            glyph_rows,
        ) - 1) * glyph_pitch + min_int(size, glyph_width) - 1 < glyph_len
    }
}

/// Whether `fill_glyph_alpha` can draw with these inputs (see
/// `glyph_drawable`); where it cannot, drawing would index past the buffer
/// or the glyph bitmap.
pub fn glyph_is_drawable(
    buf_len: usize,
    pitch: usize,
    size: usize,
    glyph_len: usize,
    glyph_width: usize,
    glyph_rows: usize,
    glyph_pitch: usize,
) -> (b: bool)
    ensures
        b == glyph_drawable(
            buf_len as int,
            pitch as int,
            size as int,
            glyph_len as int,
            glyph_width as int,
            glyph_rows as int,
            glyph_pitch as int,
        ),
{
    if size == 0 {
        return true;
    }
    let size_w: u128 = size as u128;
    let pitch_w: u128 = pitch as u128;
    assert((size_w - 1) * pitch_w <= 0xffff_ffff_ffff_ffff * 0xffff_ffff_ffff_ffff)
        by (nonlinear_arith)
        requires
            1 <= size_w <= 0xffff_ffff_ffff_ffff,
            pitch_w <= 0xffff_ffff_ffff_ffff,
    ;
    if (size_w - 1) * pitch_w > buf_len as u128 {
        return false;
    }
    if (size_w - 1) * pitch_w + 4 * size_w > buf_len as u128 {
        return false;
    }
    let w: u128 = if size < glyph_width {
        size as u128
    } else {
        glyph_width as u128
    };
    let h: u128 = if size < glyph_rows {
        size as u128
    } else {
        glyph_rows as u128
    };
    if w > 0 && h > 0 {
        assert((h - 1) * (glyph_pitch as u128) <= 0xffff_ffff_ffff_fffe * 0xffff_ffff_ffff_ffff)
            by (nonlinear_arith)
            requires
                1 <= h <= 0xffff_ffff_ffff_ffff,
                glyph_pitch <= 0xffff_ffff_ffff_ffff,
        ;
        (h - 1) * (glyph_pitch as u128) + w - 1 < glyph_len as u128
    } else {
        true
    }
}

/// Where the first `j + 1` rows of the square are drawn, byte `p` was last
/// written by row `j` if that row covers it, and else by the same row as
/// when only the first `j` rows were drawn.
proof fn lemma_next_covering_row(p: int, pitch: int, size: int, j: int)
    requires
        0 <= p,
        0 <= pitch,
        0 <= j,
        0 < size,
    ensures
        last_covering_row(p, pitch, size, j + 1) == if 0 <= p - j * pitch < 4 * size {
            j
        } else {
            last_covering_row(p, pitch, size, j)
        },
{
    if pitch == 0 {
        assert(j * pitch == 0) by (nonlinear_arith)
            requires
                pitch == 0,
        ;
        assert((j - 1) * pitch == 0) by (nonlinear_arith)
            requires
                pitch == 0,
        ;
    } else {
        lemma_fundamental_div_mod(p, pitch);
        let q = p / pitch;
        let r = p % pitch;
        assert(0 <= r < pitch);
        assert(p == q * pitch + r) by (nonlinear_arith)
            requires
                p == pitch * q + r,
        ;
        assert(q >= 0) by (nonlinear_arith)
            requires
                p >= 0,
                pitch > 0,
                p == q * pitch + r,
                r < pitch,
        ;
        assert((j - 1) * pitch == j * pitch - pitch) by (nonlinear_arith);
        if q >= j {
            assert(j * pitch <= q * pitch) by (nonlinear_arith)
                requires
                    j <= q,
                    pitch > 0,
            ;
        } else {
            assert(j * pitch >= (q + 1) * pitch) by (nonlinear_arith)
                requires
                    j >= q + 1,
                    pitch > 0,
            ;
            assert((q + 1) * pitch == q * pitch + pitch) by (nonlinear_arith);
        }
    }
}

/// Where each buffer row holds at least the `4 * size` bytes of a square
/// row, drawing a glyph writes pixel `(i, j)` of the square, at byte
/// `4 i + j pitch`, as black with the bitmap's coverage at `(i, j)` as
/// alpha (0 off the bitmap), and leaves every byte outside the square as
/// it was.
pub proof fn lemma_glyph_square(
    old: Seq<u8>,
    pitch: int,
    size: int,
    glyph: Seq<u8>,
    glyph_width: int,
    glyph_rows: int,
    glyph_pitch: int,
)
    requires
        0 < size,
        4 * size <= pitch,
    ensures
        forall|i: int, j: int, c: int|
            0 <= i < size && 0 <= j < size && 0 <= c < 4 ==> #[trigger] glyph_buffer_byte(
                old,
                4 * i + j * pitch + c,
                pitch,
                size,
                glyph,
                glyph_width,
                glyph_rows,
                glyph_pitch,
            ) == if c < 3 {
                0u8
            } else if i < glyph_width && j < glyph_rows {
                glyph[i + j * glyph_pitch]
            } else {
                0u8
            },
        forall|p: int|
            0 <= p && (p >= size * pitch || p % pitch >= 4 * size) ==> #[trigger] glyph_buffer_byte(
                old,
                p,
                pitch,
                size,
                glyph,
                glyph_width,
                glyph_rows,
                glyph_pitch,
            ) == old[p],
{
    assert forall|i: int, j: int, c: int|
        0 <= i < size && 0 <= j < size && 0 <= c < 4 implies #[trigger] glyph_buffer_byte(
        old,
        4 * i + j * pitch + c,
        pitch,
        size,
        glyph,
        glyph_width,
        glyph_rows,
        glyph_pitch,
    ) == if c < 3 {
        0u8
    } else if i < glyph_width && j < glyph_rows {
        glyph[i + j * glyph_pitch]
    } else {
        0u8
    } by {
        let p = 4 * i + j * pitch + c;
        lemma_fundamental_div_mod_converse(p, pitch, j, 4 * i + c);
        assert(p / pitch == j);
        assert(last_covering_row(p, pitch, size, size) == j);
        assert(p - j * pitch == 4 * i + c);
        assert((4 * i + c) / 4 == i);
        assert((4 * i + c) % 4 == c);
    }
    assert forall|p: int|
        0 <= p && (p >= size * pitch || p % pitch >= 4 * size) implies #[trigger] glyph_buffer_byte(
        old,
        p,
        pitch,
        size,
        glyph,
        glyph_width,
        glyph_rows,
        glyph_pitch,
    ) == old[p] by {
        lemma_fundamental_div_mod(p, pitch);
        let q = p / pitch;
        let r = p % pitch;
        assert(p == q * pitch + r) by (nonlinear_arith)
            requires
                p == pitch * q + r,
        ;
        if q >= size {
            assert((size - 1) * pitch + pitch <= q * pitch) by (nonlinear_arith)
                requires
                    q >= size,
                    pitch > 0,
            ;
            assert(p - (size - 1) * pitch >= pitch);
        } else {
            assert(q >= 0) by (nonlinear_arith)
                requires
                    p >= 0,
                    pitch > 0,
                    p == q * pitch + r,
                    0 <= r < pitch,
            ;
            if p >= size * pitch {
                assert(q * pitch <= (size - 1) * pitch) by (nonlinear_arith)
                    requires
                        q <= size - 1,
                        pitch > 0,
                ;
                assert((size - 1) * pitch + pitch == size * pitch) by (nonlinear_arith);
            }
        }
    }
}

/// Draws a glyph into a locked ARGB texture buffer of rows of `pitch`
/// bytes: for each of the `size` by `size` pixels, black colour with the
/// glyph bitmap's coverage as alpha where the bitmap has a pixel, and fully
/// transparent elsewhere.
pub fn fill_glyph_alpha(
    buf: &mut [u8],
    pitch: usize,
    size: usize,
    glyph: &[u8],
    glyph_width: usize,
    glyph_rows: usize,
    glyph_pitch: usize,
)
    requires
        glyph_drawable(
            old(buf)@.len() as int,
            pitch as int,
            size as int,
            glyph@.len() as int,
            glyph_width as int,
            glyph_rows as int,
            glyph_pitch as int,
        ),
    ensures
        final(buf)@ == Seq::new(
            old(buf)@.len(),
            |p: int|
                glyph_buffer_byte(
                    old(buf)@,
                    p,
                    pitch as int,
                    size as int,
                    glyph@,
                    glyph_width as int,
                    glyph_rows as int,
                    glyph_pitch as int,
                ),
        ),
{
    let ghost old_buf = buf@;
    if size == 0 {
        assert(buf@ =~= Seq::new(
            old_buf.len(),
            |p: int|
                glyph_buffer_byte(
                    old_buf,
                    p,
                    pitch as int,
                    size as int,
                    glyph@,
                    glyph_width as int,
                    glyph_rows as int,
                    glyph_pitch as int,
                ),
        ));
        return;
    }
    let len = buf.len();
    let glyph_len = glyph.len();
    let mut j: usize = 0;
    while j < size
        invariant
            0 < size,
            j <= size,
            len == buf@.len(),
            len == old_buf.len(),
            glyph_len == glyph@.len(),
            (size - 1) * pitch + 4 * size <= len,
            glyph_drawable(
                len as int,
                pitch as int,
                size as int,
                glyph@.len() as int,
                glyph_width as int,
                glyph_rows as int,
                glyph_pitch as int,
            ),
            forall|p: int|
                0 <= p < len ==> #[trigger] buf@[p] == glyph_rows_byte(
                    old_buf,
                    p,
                    pitch as int,
                    size as int,
                    j as int,
                    glyph@,
                    glyph_width as int,
                    glyph_rows as int,
                    glyph_pitch as int,
                ),
        decreases size - j,
    {
        let mut i: usize = 0;
        while i < size
            invariant
                0 < size,
                j < size,
                i <= size,
                len == buf@.len(),
                len == old_buf.len(),
                glyph_len == glyph@.len(),
                (size - 1) * pitch + 4 * size <= len,
                glyph_drawable(
                    len as int,
                    pitch as int,
                    size as int,
                    glyph@.len() as int,
                    glyph_width as int,
                    glyph_rows as int,
                    glyph_pitch as int,
                ),
                forall|p: int|
                    0 <= p < len ==> #[trigger] buf@[p] == if 0 <= p - j * pitch < 4 * i {
                        glyph_pixel_byte(
                            p - j * pitch,
                            j as int,
                            glyph@,
                            glyph_width as int,
                            glyph_rows as int,
                            glyph_pitch as int,
                        )
                    } else {
                        glyph_rows_byte(
                            old_buf,
                            p,
                            pitch as int,
                            size as int,
                            j as int,
                            glyph@,
                            glyph_width as int,
                            glyph_rows as int,
                            glyph_pitch as int,
                        )
                    },
            decreases size - i,
        {
            assert(j * pitch <= (size - 1) * pitch) by (nonlinear_arith)
                requires
                    j <= size - 1,
                    pitch >= 0,
            ;
            let row = j * pitch;
            let base = 4 * i + row;
            buf[base] = 0;
            buf[base + 1] = 0;
            buf[base + 2] = 0;
            let alpha: u8 = if i < glyph_width && j < glyph_rows {
                proof {
                    let w = min_int(size as int, glyph_width as int);
                    let h = min_int(size as int, glyph_rows as int);
                    assert(j * glyph_pitch <= (h - 1) * glyph_pitch) by (nonlinear_arith)
                        requires
                            j <= h - 1,
                            glyph_pitch >= 0,
                    ;
                    assert(w > 0 && h > 0);
                    assert(i + j * glyph_pitch < glyph@.len());
                }
                glyph[i + j * glyph_pitch]
            } else {
                0
            };
            buf[base + 3] = alpha;
            proof {
                assert forall|p: int| 0 <= p < len implies #[trigger] buf@[p] == if 0 <= p - j
                    * pitch < 4 * (i + 1) {
                    glyph_pixel_byte(
                        p - j * pitch,
                        j as int,
                        glyph@,
                        glyph_width as int,
                        glyph_rows as int,
                        glyph_pitch as int,
                    )
                } else {
                    glyph_rows_byte(
                        old_buf,
                        p,
                        pitch as int,
                        size as int,
                        j as int,
                        glyph@,
                        glyph_width as int,
                        glyph_rows as int,
                        glyph_pitch as int,
                    )
                } by {
                    if base <= p < base + 4 {
                        let off = p - j * pitch;
                        assert(off == 4 * i + (p - base));
                        assert(off / 4 == i);
                        assert(off % 4 == p - base);
                    }
                }
            }
            i = i + 1;
        }
        proof {
            assert forall|p: int| 0 <= p < len implies #[trigger] buf@[p] == glyph_rows_byte(
                old_buf,
                p,
                pitch as int,
                size as int,
                j + 1,
                glyph@,
                glyph_width as int,
                glyph_rows as int,
                glyph_pitch as int,
            ) by {
                lemma_next_covering_row(p, pitch as int, size as int, j as int);
            }
        }
        j = j + 1;
    }
    assert(buf@ =~= Seq::new(
        old_buf.len(),
        |p: int|
            glyph_buffer_byte(
                old_buf,
                p,
                pitch as int,
                size as int,
                glyph@,
                glyph_width as int,
                glyph_rows as int,
                glyph_pitch as int,
            ),
    ));
}

} // verus!

use vstd::prelude::*;

use vstd::arithmetic::div_mod::lemma_div_is_ordered;

use crate::level::SolidTile;
use crate::texture::{Texture, TEX_BYTES, TEX_HEIGHT, TEX_WIDTH};

verus! {

/// Grey level of the ceiling (all three components).
pub const CEIL_SHADE: u8 = 50;

/// Grey level of the floor (all three components).
pub const FLOOR_SHADE: u8 = 100;

/// `v / 2` rounded towards zero, as integer division does.
pub open spec fn half_toward_zero(v: int) -> int {
    if v >= 0 {
        v / 2
    } else {
        -((-v) / 2)
    }
}

/// The number of pixels left above a wall slice of `line_height` pixels
/// on a screen `height` pixels high; negative when the slice is taller
/// than the screen.
pub open spec fn gap_top(height: int, line_height: int) -> int {
    half_toward_zero(height - line_height)
}

/// Bytes of ceiling at the start of a column.
pub open spec fn top_len(height: int, line_height: int) -> int {
    let g = gap_top(height, line_height);
    3 * if g > 0 {
        g
    } else {
        0
    }
}

/// Bytes given to the wall after the ceiling in a column of `len` bytes:
/// the slice, or all that is left when the slice does not fit.
pub open spec fn middle_len(len: int, height: int, line_height: int) -> int {
    let rem = len - top_len(height, line_height);
    if line_height < rem / 3 {
        3 * line_height
    } else {
        rem
    }
}

/// `v` held within `lo..=hi`.
pub open spec fn clamp(v: int, lo: int, hi: int) -> int {
    if v < lo {
        lo
    } else if v > hi {
        hi
    } else {
        v
    }
}

/// The texture row shown at pixel `y` of a wall slice of `line_height`
/// pixels whose top lies `gap` pixels below the top of the screen.
pub open spec fn tex_row(y: int, gap: int, line_height: int) -> int {
    let yy = if gap < 0 {
        y - gap
    } else {
        y
    };
    (TEX_HEIGHT - 1) - clamp((TEX_HEIGHT * yy) / line_height, 0, TEX_HEIGHT - 1)
}

/// Component `c` (0 red, 1 green, 2 blue) of wall pixel `y`: the tile's
/// colour, or the texture's pixel in row `tex_row` of texture line `tex_x`.
pub open spec fn wall_byte(
    tile: SolidTile,
    tex: Seq<u8>,
    tex_x: int,
    y: int,
    c: int,
    gap: int,
    line_height: int,
) -> u8 {
    match tile {
        SolidTile::Color(r, g, b) => if c == 0 {
            r
        } else if c == 1 {
            g
        } else {
            b
        },
        SolidTile::Textured(_) => tex[tex_x * 3 * TEX_WIDTH + tex_row(y, gap, line_height) * 3 + c],
    }
}

/// Byte `k` of a column of `old.len()` bytes after a wall slice of
/// `line_height` pixels was drawn into it: ceiling, then the wall, then
/// floor, each written three bytes at a time; bytes that do not make up a
/// whole pixel at the end of a part keep their old value.
pub open spec fn column_byte(
    old: Seq<u8>,
    k: int,
    height: int,
    line_height: int,
    tile: SolidTile,
    tex: Seq<u8>,
    tex_x: int,
) -> u8 {
    let top = top_len(height, line_height);
    let mid = middle_len(old.len() as int, height, line_height);
    let bottom = old.len() - (top + mid);
    if k < top {
        CEIL_SHADE
    } else if k < top + 3 * (mid / 3) {
        wall_byte(
            tile,
            tex,
            tex_x,
            (k - top) / 3,
            (k - top) % 3,
            gap_top(height, line_height),
            line_height,
        )
    } else if k < top + mid {
        old[k]
    } else if k < top + mid + 3 * (bottom / 3) {
        FLOOR_SHADE
    } else {
        old[k]
    }
}

/// The whole column after a wall slice was drawn into it.
pub open spec fn rendered_column(
    old: Seq<u8>,
    height: int,
    line_height: int,
    tile: SolidTile,
    tex: Seq<u8>,
    tex_x: int,
) -> Seq<u8> {
    Seq::new(old.len(), |k: int| column_byte(old, k, height, line_height, tile, tex, tex_x))
}

/// The texture a tile draws from, or no bytes for a coloured tile.
pub open spec fn tile_texture(tile: SolidTile, textures: Seq<Texture>) -> Seq<u8> {
    match tile {
        SolidTile::Textured(i) => textures[i as int]@,
        SolidTile::Color(..) => Seq::empty(),
    }
}

/// Whether drawing a textured slice stays within `i32` when it scales the
/// pixel rows of the slice to texture rows.
pub open spec fn texture_rows_fit(len: int, height: int, line_height: int) -> bool {
    let n = middle_len(len, height, line_height) / 3;
    let g = gap_top(height, line_height);
    n > 0 ==> TEX_HEIGHT * ((n - 1) + if g < 0 {
        -g
    } else {
        0
    }) <= i32::MAX
}

/// What drawing a column asks of its inputs: the slice height is not
/// negative, the ceiling fits in the column, the pixels left below the
/// ceiling can be counted in an `i32`, and a textured tile names a loaded
/// texture and a texture line.
pub open spec fn column_drawable(
    len: int,
    height: int,
    line_height: int,
    tile: SolidTile,
    texture_count: int,
    tex_x: int,
) -> bool {
    &&& line_height >= 0
    &&& height - line_height >= i32::MIN
    &&& top_len(height, line_height) <= len
    &&& (len - top_len(height, line_height)) / 3 <= i32::MAX
    &&& (tile matches SolidTile::Textured(i) ==> {
        &&& i < texture_count
        &&& tex_x < TEX_WIDTH
        &&& texture_rows_fit(len, height, line_height)
    })
}

/// Draws one screen column (rotated: `column` runs from the top of the
/// screen down, three bytes per pixel) for a wall slice `line_height`
/// pixels high on a screen `height` pixels high: ceiling above, the wall
/// in the middle, floor below. A textured wall shows line `tex_x` of its
/// texture, stretched over the slice.
pub fn fill_column(
    column: &mut [u8],
    height: i32,
    line_height: i32,
    tile: SolidTile,
    textures: &Vec<Texture>,
    tex_x: usize,
)
    requires
        column_drawable(
            old(column)@.len() as int,
            height as int,
            line_height as int,
            tile,
            textures.len() as int,
            tex_x as int,
        ),
    ensures
        final(column)@ == rendered_column(
            old(column)@,
            height as int,
            line_height as int,
            tile,
            tile_texture(tile, textures@),
            tex_x as int,
        ),
{
    let ghost old_col = column@;
    let ghost tex = tile_texture(tile, textures@);
    let ghost expected = rendered_column(
        old_col,
        height as int,
        line_height as int,
        tile,
        tex,
        tex_x as int,
    );
    let len = column.len();
    // Gap above the slice, rounded towards zero.
    let diff: i64 = height as i64 - line_height as i64;
    let gap: i64 = if diff >= 0 {
        diff / 2
    } else {
        -((-diff) / 2)
    };
    assert(gap == gap_top(height as int, line_height as int));
    let gap_u: usize = if gap > 0 {
        gap as usize
    } else {
        0
    };
    let top = gap_u * 3;
    let rem = len - top;
    let mid: usize = if (line_height as i64) < ((rem / 3) as i64) {
        3 * (line_height as usize)
    } else {
        rem
    };
    assert(top == top_len(height as int, line_height as int));
    assert(mid == middle_len(len as int, height as int, line_height as int));
    let mid_end = top + 3 * (mid / 3);
    let bottom_start = top + mid;
    let bottom_end = bottom_start + 3 * ((len - bottom_start) / 3);

    // Ceiling.
    let mut k: usize = 0;
    while k < top
        invariant
            k <= top <= len,
            len == column@.len(),
            len == old_col.len(),
            expected.len() == len,
            top == top_len(height as int, line_height as int),
            mid == middle_len(len as int, height as int, line_height as int),
            expected == rendered_column(
                old_col,
                height as int,
                line_height as int,
                tile,
                tex,
                tex_x as int,
            ),
            forall|i: int| 0 <= i < k ==> column@[i] == expected[i],
            forall|i: int| k <= i < len ==> column@[i] == old_col[i],
        decreases top - k,
    {
        column[k] = CEIL_SHADE;
        k = k + 1;
    }

    // Wall.
    let mut y: usize = 0;
    while y < mid / 3
        invariant
            top + 3 * y <= mid_end,
            mid_end == top + 3 * (mid / 3),
            mid_end <= len,
            len == column@.len(),
            len == old_col.len(),
            expected.len() == len,
            top == top_len(height as int, line_height as int),
            mid == middle_len(len as int, height as int, line_height as int),
            gap == gap_top(height as int, line_height as int),
            expected == rendered_column(
                old_col,
                height as int,
                line_height as int,
                tile,
                tex,
                tex_x as int,
            ),
            tex == tile_texture(tile, textures@),
            column_drawable(
                len as int,
                height as int,
                line_height as int,
                tile,
                textures.len() as int,
                tex_x as int,
            ),
            forall|i: int| 0 <= i < top + 3 * y ==> column@[i] == expected[i],
            forall|i: int| top + 3 * y <= i < len ==> column@[i] == old_col[i],
        decreases mid / 3 - y,
    {
        let base = top + 3 * y;
        match tile {
            SolidTile::Color(r, g, b) => {
                column[base] = r;
                column[base + 1] = g;
                column[base + 2] = b;
            },
            SolidTile::Textured(index) => {
                let yy: i64 = if gap < 0 {
                    y as i64 - gap
                } else {
                    y as i64
                };
                assert(line_height > 0);
                let scaled: i64 = (TEX_HEIGHT as i64) * yy / (line_height as i64);
                let clamped: i64 = if scaled < 0 {
                    0
                } else if scaled > (TEX_HEIGHT - 1) as i64 {
                    (TEX_HEIGHT - 1) as i64
                } else {
                    scaled
                };
                let row: usize = (TEX_HEIGHT - 1) - (clamped as usize);
                assert(row == tex_row(y as int, gap as int, line_height as int));
                let pos = tex_x * 3 * TEX_WIDTH + row * 3;
                let t = &textures[index];
                assert(t@ == tex);
                column[base] = t.byte(pos);
                column[base + 1] = t.byte(pos + 1);
                column[base + 2] = t.byte(pos + 2);
            },
        }
        proof {
            assert forall|i: int| 0 <= i < base + 3 implies column@[i] == expected[i] by {
                if i >= base {
                    assert((i - top) / 3 == y);
                    assert((i - top) % 3 == i - base);
                }
            }
        }
        y = y + 1;
    }

    // Floor.
    let mut j: usize = bottom_start;
    while j < bottom_end
        invariant
            bottom_start <= j <= bottom_end <= len,
            (j - bottom_start) % 3 == 0,
            bottom_end == bottom_start + 3 * ((len - bottom_start) / 3),
            bottom_start == top + mid,
            mid_end == top + 3 * (mid / 3),
            len == column@.len(),
            len == old_col.len(),
            expected.len() == len,
            top == top_len(height as int, line_height as int),
            mid == middle_len(len as int, height as int, line_height as int),
            expected == rendered_column(
                old_col,
                height as int,
                line_height as int,
                tile,
                tex,
                tex_x as int,
            ),
            forall|i: int| 0 <= i < mid_end ==> column@[i] == expected[i],
            forall|i: int| mid_end <= i < bottom_start ==> column@[i] == old_col[i],
            forall|i: int| bottom_start <= i < j ==> column@[i] == expected[i],
            forall|i: int| j <= i < len ==> column@[i] == old_col[i],
        decreases bottom_end - j,
    {
        column[j] = FLOOR_SHADE;
        column[j + 1] = FLOOR_SHADE;
        column[j + 2] = FLOOR_SHADE;
        j = j + 3;
    }
    proof {
        assert forall|i: int| 0 <= i < len implies column@[i] == expected[i] by {}
        assert(column@ == expected);
    }
}

/// Whether `fill_column` can draw a slice with these inputs (see
/// `column_drawable`); where it cannot, drawing would overflow or index
/// past the column or the texture.
pub fn column_is_drawable(
    len: usize,
    height: i32,
    line_height: i32,
    tile: SolidTile,
    texture_count: usize,
    tex_x: usize,
) -> (b: bool)
    ensures
        b == column_drawable(
            len as int,
            height as int,
            line_height as int,
            tile,
            texture_count as int,
            tex_x as int,
        ),
{
    if line_height < 0 {
        return false;
    }
    let diff: i64 = height as i64 - line_height as i64;
    if diff < i32::MIN as i64 {
        return false;
    }
    let gap: i64 = if diff >= 0 {
        diff / 2
    } else {
        -((-diff) / 2)
    };
    assert(gap == gap_top(height as int, line_height as int));
    let top: i64 = if gap > 0 {
        3 * gap
    } else {
        0
    };
    assert(top == top_len(height as int, line_height as int));
    if top as i128 > len as i128 {
        return false;
    }
    if (len as i128 - top as i128) / 3 > i32::MAX as i128 {
        return false;
    }
    match tile {
        SolidTile::Color(..) => true,
        SolidTile::Textured(i) => {
            if i >= texture_count || tex_x >= TEX_WIDTH {
                return false;
            }
            let rem: i64 = len as i64 - top;
            let mid: i64 = if (line_height as i64) < rem / 3 {
                3 * (line_height as i64)
            } else {
                rem
            };
            assert(mid == middle_len(len as int, height as int, line_height as int));
            let n: i64 = mid / 3;
            if n > 0 {
                let extra: i64 = if gap < 0 {
                    -gap
                } else {
                    0
                };
                (TEX_HEIGHT as i64) * ((n - 1) + extra) <= i32::MAX as i64
            } else {
                true
            }
        },
    }
}

/// On a column of exactly one screen height, a slice no taller than the
/// screen is centred: there are as many floor pixels below it as ceiling
/// pixels above it, and one more when the leftover height is odd.
pub proof fn lemma_slice_centred(height: int, line_height: int)
    requires
        0 <= line_height <= height,
    ensures
        ({
            let len = 3 * height;
            let top = top_len(height, line_height);
            let bottom = len - (top + middle_len(len, height, line_height));
            &&& 0 <= top
            &&& top + middle_len(len, height, line_height) <= len
            &&& middle_len(len, height, line_height) == 3 * line_height
            &&& bottom == top + 3 * ((height - line_height) % 2)
        }),
{
    let g = (height - line_height) / 2;
    assert(gap_top(height, line_height) == g);
    assert(top_len(height, line_height) == 3 * g);
    let rem = 3 * height - 3 * g;
    assert(rem / 3 == height - g);
}

/// A coloured wall slice no taller than the screen, drawn into a column of
/// exactly one screen height: grey 50 for the `(height - line_height) / 2`
/// pixels above it, the tile's red, green and blue for its `line_height`
/// pixels, and grey 100 for every pixel below, down to the bottom.
pub proof fn lemma_coloured_column(
    old: Seq<u8>,
    height: int,
    line_height: int,
    r: u8,
    g: u8,
    b: u8,
    tex: Seq<u8>,
    tex_x: int,
)
    requires
        old.len() == 3 * height,
        0 <= line_height <= height,
    ensures
        forall|k: int|
            0 <= k < 3 * height ==> #[trigger] rendered_column(
                old,
                height,
                line_height,
                SolidTile::Color(r, g, b),
                tex,
                tex_x,
            )[k] == if k < 3 * ((height - line_height) / 2) {
                50u8
            } else if k < 3 * ((height - line_height) / 2 + line_height) {
                if k % 3 == 0 {
                    r
                } else if k % 3 == 1 {
                    g
                } else {
                    b
                }
            } else {
                100u8
            },
{
    lemma_slice_centred(height, line_height);
    let gap = (height - line_height) / 2;
    let top = top_len(height, line_height);
    let mid = middle_len(3 * height, height, line_height);
    assert(top == 3 * gap);
    assert(mid == 3 * line_height);
    assert(gap >= 0);
    let bottom = 3 * height - (top + mid);
    assert(bottom % 3 == 0);
    assert(3 * (bottom / 3) == bottom);
    assert(3 * (mid / 3) == mid);
    assert forall|k: int| 0 <= k < 3 * height implies #[trigger] rendered_column(
        old,
        height,
        line_height,
        SolidTile::Color(r, g, b),
        tex,
        tex_x,
    )[k] == if k < 3 * gap {
        50u8
    } else if k < 3 * (gap + line_height) {
        if k % 3 == 0 {
            r
        } else if k % 3 == 1 {
            g
        } else {
            b
        }
    } else {
        100u8
    } by {
        if top <= k < top + mid {
            assert((k - top) % 3 == k % 3);
        }
    }
}

/// The texture row shown at any pixel of a slice lies within the texture,
/// and rows go up the texture as pixels go down the screen.
pub proof fn lemma_tex_row_in_range(y1: int, y2: int, gap: int, line_height: int)
    requires
        0 <= y1 <= y2,
        line_height > 0,
    ensures
        0 <= tex_row(y1, gap, line_height) < TEX_HEIGHT,
        tex_row(y2, gap, line_height) <= tex_row(y1, gap, line_height),
{
    let yy1 = if gap < 0 { y1 - gap } else { y1 };
    let yy2 = if gap < 0 { y2 - gap } else { y2 };
    assert(TEX_HEIGHT * yy1 <= TEX_HEIGHT * yy2) by (nonlinear_arith)
        requires
            yy1 <= yy2,
    ;
    lemma_div_is_ordered(TEX_HEIGHT * yy1, TEX_HEIGHT * yy2, line_height);
}

} // verus!

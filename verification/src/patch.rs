//! Doom pictures ("patches"): column-post decoding, and composing wall
//! textures out of patches placed on a canvas.

use vstd::prelude::*;
use crate::le::{u16_le, u32_le, i16_le, read_u16_at, read_u32_at, read_i16_at};
use crate::texture::Texture;

verus! {

/*──────────────────────────── grid indices ─────────────────────────*/

/// Cell `(x, y)` of a `w`-wide row-major grid with `h` rows has an index
/// below `w * h`.
pub proof fn lemma_grid_bound(w: int, h: int, x: int, y: int)
    requires
        0 <= x < w,
        0 <= y < h,
    ensures
        0 <= y * w + x < w * h,
        0 <= y * w,
{
    assert(0 <= y * w + x < w * h) by (nonlinear_arith)
        requires
            0 <= x < w,
            0 <= y < h,
    ;
    assert(0 <= y * w) by (nonlinear_arith)
        requires
            0 <= x < w,
            0 <= y,
    ;
}

/// Distinct cells of a `w`-wide row-major grid have distinct indices.
pub proof fn lemma_grid_inj(w: int, x1: int, y1: int, x2: int, y2: int)
    requires
        0 <= x1 < w,
        0 <= x2 < w,
        0 <= y1,
        0 <= y2,
        y1 * w + x1 == y2 * w + x2,
    ensures
        x1 == x2,
        y1 == y2,
{
    if y1 < y2 {
        assert(y1 * w + w <= y2 * w) by (nonlinear_arith)
            requires
                y1 < y2,
                0 <= w,
        ;
    } else if y2 < y1 {
        assert(y2 * w + w <= y1 * w) by (nonlinear_arith)
            requires
                y2 < y1,
                0 <= w,
        ;
    }
}

/*──────────────────────────── patch layout ─────────────────────────*/

/// Width announced by a patch header.
pub open spec fn patch_w(raw: Seq<u8>) -> int {
    u16_le(raw, 0)
}

/// Height announced by a patch header.
pub open spec fn patch_h(raw: Seq<u8>) -> int {
    u16_le(raw, 2)
}

/// Byte offset of the posts of column `x`.
pub open spec fn column_start(raw: Seq<u8>, x: int) -> int {
    u32_le(raw, 8 + 4 * x)
}

/// The posts of a column, starting at byte `p`, can be read up to their
/// `0xFF` terminator in a picture `h` rows high.  A post is a start row, a
/// length, a pad byte, `length` palette indices and a pad byte; the rows it
/// covers lie inside the picture.
pub open spec fn posts_ok(raw: Seq<u8>, p: int, h: int) -> bool
    decreases raw.len() - p,
{
    &&& 0 <= p < raw.len()
    &&& (raw[p] == 0xFF || {
        &&& p + 1 < raw.len()
        &&& (raw[p + 1] == 0 || raw[p] as int + raw[p + 1] as int <= h)
        &&& p + 3 + raw[p + 1] as int <= raw.len()
        &&& p + raw[p + 1] as int + 4 < raw.len()
        &&& posts_ok(raw, p + raw[p + 1] as int + 4, h)
    })
}

/// Value row `y` of a column ends with, when it holds `acc` before the posts
/// that start at byte `p`: each post that covers the row overwrites it.
pub open spec fn column_texel(raw: Seq<u8>, p: int, y: int, acc: u8) -> u8
    decreases raw.len() - p,
{
    if !(0 <= p && p + 1 < raw.len()) || raw[p] == 0xFF {
        acc
    } else {
        let row = raw[p] as int;
        let len = raw[p + 1] as int;
        let v = if row <= y < row + len { raw[p + 3 + y - row] } else { acc };
        let next = p + len + 4;
        if next < raw.len() {
            column_texel(raw, next, y, v)
        } else {
            v
        }
    }
}

/// Palette index at column `x`, row `y` of a patch; 0 where no post covers it.
pub open spec fn patch_texel(raw: Seq<u8>, x: int, y: int) -> u8 {
    column_texel(raw, column_start(raw, x), y, 0)
}

/// The patch header, its column offsets and every column's posts can be read.
pub open spec fn patch_ok(raw: Seq<u8>) -> bool {
    &&& raw.len() >= 8
    &&& 8 + 4 * patch_w(raw) <= raw.len()
    &&& forall|x: int| 0 <= x < patch_w(raw) ==> #[trigger] posts_ok(raw, column_start(raw, x), patch_h(raw))
}

/// `t` is the picture `raw` decodes to, named `name`.
pub open spec fn decodes_patch(t: Texture, raw: Seq<u8>, name: Seq<char>) -> bool {
    &&& t.name@ == name
    &&& t.w as int == patch_w(raw)
    &&& t.h as int == patch_h(raw)
    &&& t.pixels@.len() == t.w * t.h
    &&& forall|x: int, y: int|
        0 <= x < t.w && 0 <= y < t.h ==> #[trigger] t.pixels@[y * t.w + x] == patch_texel(raw, x, y)
}

/// Byte offset of column `x`'s posts: the little-endian 32-bit entry `x`
/// of the offset table that follows the 8-byte header.
pub open spec fn post_offset(raw: Seq<u8>, x: int) -> int {
    raw[8 + 4 * x] as int + 256 * raw[9 + 4 * x] as int + 65536 * raw[10 + 4 * x] as int + 16777216 * raw[11
        + 4 * x] as int
}

/// A decoded patch is as wide and high as its header's first two
/// little-endian words say, and a column made of a single post (start
/// row `r`, length `n`, a pad byte, `n` bytes, a pad byte, then the
/// `0xFF` end mark) holds byte `i` of the post at row `r + i`, row-major,
/// and 0 on every other row.
pub proof fn law_single_post(t: Texture, raw: Seq<u8>, name: Seq<char>, x: int)
    requires
        patch_ok(raw),
        decodes_patch(t, raw, name),
        0 <= x < t.w,
        raw[post_offset(raw, x)] != 0xFF,
        raw[post_offset(raw, x) + raw[post_offset(raw, x) + 1] + 4] == 0xFF,
    ensures
        t.w as int == raw[0] as int + 256 * raw[1] as int,
        t.h as int == raw[2] as int + 256 * raw[3] as int,
        forall|y: int|
            0 <= y < t.h ==> #[trigger] t.pixels@[y * t.w + x] == ({
                let p = post_offset(raw, x);
                let r = raw[p] as int;
                if r <= y < r + raw[p + 1] as int {
                    raw[p + 3 + y - r]
                } else {
                    0u8
                }
            }),
{
    let p = post_offset(raw, x);
    assert(column_start(raw, x) == p);
    assert(posts_ok(raw, column_start(raw, x), patch_h(raw)));
    assert forall|y: int| 0 <= y < t.h implies #[trigger] t.pixels@[y * t.w + x] == ({
        let r = raw[p] as int;
        if r <= y < r + raw[p + 1] as int {
            raw[p + 3 + y - r]
        } else {
            0u8
        }
    }) by {
        assert(t.pixels@[y * t.w + x] == patch_texel(raw, x, y));
        let next = p + raw[p + 1] as int + 4;
        assert(next < raw.len());
        assert(column_texel(raw, p, y, 0) == column_texel(
            raw,
            next,
            y,
            if raw[p] as int <= y < raw[p] as int + raw[p + 1] as int {
                raw[p + 3 + y - raw[p] as int]
            } else {
                0u8
            },
        ));
    }
}

/// Decode a patch (Doom picture format) into a row-major `w`×`h` grid of
/// palette indices; pixels that no post covers are 0.
pub fn decode_patch(raw: &[u8], name: &str) -> (t: Texture)
    requires
        patch_ok(raw@),
    ensures
        decodes_patch(t, raw@, name@),
{
    let w = read_u16_at(raw, 0) as usize;
    let h = read_u16_at(raw, 2) as usize;
    assert(w * h <= 65535 * 65535) by (nonlinear_arith)
        requires
            w <= 65535,
            h <= 65535,
    ;
    let rlen = raw.len();
    let mut pix: Vec<u8> = vec![0u8; w * h];
    proof {
        assert forall|xx: int, yy: int| 0 <= xx < w && 0 <= yy < h implies #[trigger] pix@[yy * w + xx] == 0 by {
            lemma_grid_bound(w as int, h as int, xx, yy);
        }
    }
    let mut x: usize = 0;
    while x < w
        invariant
            patch_ok(raw@),
            w as int == patch_w(raw@),
            h as int == patch_h(raw@),
            w <= 65535,
            h <= 65535,
            x <= w,
            pix@.len() == w * h,
            rlen == raw@.len(),
            w * h <= 4294836225,
            forall|xx: int, yy: int|
                0 <= xx < x && 0 <= yy < h ==> #[trigger] pix@[yy * w + xx] == patch_texel(raw@, xx, yy),
            forall|xx: int, yy: int| x <= xx < w && 0 <= yy < h ==> #[trigger] pix@[yy * w + xx] == 0,
        decreases w - x,
    {
        let p0 = read_u32_at(raw, 8 + x * 4) as usize;
        let ghost start = pix@;
        let mut p: usize = p0;
        assert(posts_ok(raw@, column_start(raw@, x as int), h as int));
        loop
            invariant_except_break
                posts_ok(raw@, p as int, h as int),
            invariant
                patch_ok(raw@),
                w as int == patch_w(raw@),
                h as int == patch_h(raw@),
                w <= 65535,
                h <= 65535,
                x < w,
                p0 as int == column_start(raw@, x as int),
                pix@.len() == w * h,
                start.len() == w * h,
                rlen == raw@.len(),
                w * h <= 4294836225,
                forall|yy: int|
                    0 <= yy < h ==> column_texel(raw@, p0 as int, yy, 0) == column_texel(
                        raw@,
                        p as int,
                        yy,
                        #[trigger] pix@[yy * w + x],
                    ),
                forall|xx: int, yy: int|
                    0 <= xx < w && xx != x && 0 <= yy < h ==> #[trigger] pix@[yy * w + xx] == start[yy * w + xx],
                forall|yy: int| 0 <= yy < h ==> #[trigger] start[yy * w + x] == 0,
            ensures
                forall|yy: int|
                    0 <= yy < h ==> column_texel(raw@, p0 as int, yy, 0) == #[trigger] pix@[yy * w + x],
            decreases raw@.len() - p,
        {
            let row = raw[p] as usize;
            if row == 0xFF {
                break;
            }
            let len = raw[p + 1] as usize;
            let ghost post = p as int;
            let ghost before = pix@;
            p += 3;
            let mut i: usize = 0;
            while i < len
                invariant
                    w as int == patch_w(raw@),
                    h as int == patch_h(raw@),
                    w <= 65535,
                    h <= 65535,
                    x < w,
                    i <= len,
                    0 <= post,
                    rlen == raw@.len(),
                    post + 1 < raw@.len(),
                    raw@[post] != 0xFF,
                    posts_ok(raw@, post, h as int),
                    len == raw@[post + 1],
                    row == raw@[post],
                    w * h <= 4294836225,
                    len == 0 || row + len <= h,
                    p == post + 3,
                    p + len <= raw@.len(),
                    pix@.len() == w * h,
                    forall|yy: int| row <= yy < row + i ==> #[trigger] pix@[yy * w + x] == raw@[p + yy - row],
                    forall|xx: int, yy: int|
                        0 <= xx < w && 0 <= yy < h && !(xx == x && row <= yy < row + i) ==> #[trigger] pix@[yy * w + xx]
                            == before[yy * w + xx],
                decreases len - i,
            {
                proof {
                    lemma_grid_bound(w as int, h as int, x as int, (row + i) as int);
                }
                let k = (row + i) * w + x;
                let ghost prev = pix@;
                pix[k] = raw[p + i];
                proof {
                    assert forall|yy: int| row <= yy < row + i + 1 implies #[trigger] pix@[yy * w + x] == raw@[p + yy - row] by {
                        lemma_grid_bound(w as int, h as int, x as int, yy);
                        if yy < row + i {
                            if yy * w + x == k {
                                lemma_grid_inj(w as int, x as int, yy, x as int, (row + i) as int);
                            }
                            assert(prev[yy * w + x] == raw@[p + yy - row]);
                        }
                    }
                    assert forall|xx: int, yy: int|
                        0 <= xx < w && 0 <= yy < h && !(xx == x && row <= yy < row + i + 1) implies #[trigger] pix@[yy * w + xx]
                        == before[yy * w + xx] by {
                        lemma_grid_bound(w as int, h as int, xx, yy);
                        if yy * w + xx == k {
                            lemma_grid_inj(w as int, xx, yy, x as int, (row + i) as int);
                        }
                        assert(prev[yy * w + xx] == before[yy * w + xx]);
                    }
                }
                i += 1;
            }
            p += len + 1;
            proof {
                assert forall|yy: int| 0 <= yy < h implies column_texel(raw@, p0 as int, yy, 0) == column_texel(
                    raw@,
                    p as int,
                    yy,
                    #[trigger] pix@[yy * w + x],
                ) by {
                    lemma_grid_bound(w as int, h as int, x as int, yy);
                    assert(column_texel(raw@, post, yy, before[yy * w + x]) == column_texel(
                        raw@,
                        p as int,
                        yy,
                        pix@[yy * w + x],
                    ));
                    if row <= yy < row + len {
                        assert(pix@[yy * w + x] == raw@[post + 3 + yy - row]);
                    } else {
                        assert(pix@[yy * w + x] == before[yy * w + x]);
                    }
                }
            }
        }
        proof {
            assert forall|xx: int, yy: int|
                0 <= xx <= x && 0 <= yy < h implies #[trigger] pix@[yy * w + xx] == patch_texel(raw@, xx, yy) by {
                if xx < x {
                    assert(pix@[yy * w + xx] == start[yy * w + xx]);
                }
            }
        }
        x += 1;
    }
    Texture { name: name.to_owned(), w, h, pixels: pix }
}

/*──────────────────────────── composing ────────────────────────────*/

/// The pixel vector of `t` holds its `w`×`h` grid, and both sides fit a
/// 16-bit picture header.
pub open spec fn texture_ok(t: Texture) -> bool {
    &&& t.pixels@.len() == t.w * t.h
    &&& t.w <= 65535
    &&& t.h <= 65535
}

/// The non-transparent palette index of `p` at `(px, py)`, if that point
/// lies inside `p` and is not 0.
pub open spec fn opaque_texel(p: Texture, px: int, py: int) -> Option<u8> {
    if 0 <= px < p.w && 0 <= py < p.h && p.pixels@[py * p.w + px] != 0 {
        Some(p.pixels@[py * p.w + px])
    } else {
        None
    }
}

/// Value of cell `(x, y)` after blitting `p` at `(ox, oy)` onto a grid whose
/// cell held `old`: the patch's non-zero texel lands there, else it stays.
pub open spec fn blit_texel(old: u8, p: Texture, ox: int, oy: int, x: int, y: int) -> u8 {
    match opaque_texel(p, x - ox, y - oy) {
        Some(v) => v,
        None => old,
    }
}

/// Blitting places every non-zero pixel `(px, py)` of the patch at
/// `(ox + px, oy + py)` of the grid when that cell exists, and leaves
/// every cell that no non-zero patch pixel lands on as it was.
pub proof fn law_blit_places(old: Seq<u8>, new: Seq<u8>, dw: int, dh: int, p: Texture, ox: int, oy: int)
    requires
        p.pixels@.len() == p.w * p.h,
        forall|x: int, y: int|
            0 <= x < dw && 0 <= y < dh ==> #[trigger] new[y * dw + x] == blit_texel(old[y * dw + x], p, ox, oy, x, y),
    ensures
        forall|px: int, py: int|
            0 <= px < p.w && 0 <= py < p.h && 0 <= ox + px < dw && 0 <= oy + py < dh && p.pixels@[py * p.w + px] != 0
                ==> #[trigger] new[(oy + py) * dw + (ox + px)] == p.pixels@[py * p.w + px],
        forall|x: int, y: int|
            0 <= x < dw && 0 <= y < dh && !(0 <= x - ox < p.w && 0 <= y - oy < p.h && p.pixels@[(y - oy) * p.w + (x
                - ox)] != 0) ==> #[trigger] new[y * dw + x] == old[y * dw + x],
{
    assert forall|px: int, py: int|
        0 <= px < p.w && 0 <= py < p.h && 0 <= ox + px < dw && 0 <= oy + py < dh && p.pixels@[py * p.w + px] != 0
            implies #[trigger] new[(oy + py) * dw + (ox + px)] == p.pixels@[py * p.w + px] by {
        let x = ox + px;
        let y = oy + py;
        assert(new[y * dw + x] == blit_texel(old[y * dw + x], p, ox, oy, x, y));
        assert(x - ox == px && y - oy == py);
    }
}

/// Copy the non-zero pixels of `p`, placed with its top-left corner at
/// `(ox, oy)`, onto the `dw`×`dh` row-major grid `dest`, clipping to it.
pub fn blit_patch(dest: &mut [u8], dw: usize, dh: usize, p: &Texture, ox: i32, oy: i32)
    requires
        dw <= i32::MAX,
        dh <= i32::MAX,
        dw * dh <= old(dest)@.len(),
        p.pixels@.len() == p.w * p.h,
        p.w as int <= i32::MAX as int + 1,
        p.h as int <= i32::MAX as int + 1,
        ox as int + p.w as int <= i32::MAX as int + 1,
        oy as int + p.h as int <= i32::MAX as int + 1,
    ensures
        final(dest)@.len() == old(dest)@.len(),
        forall|x: int, y: int|
            0 <= x < dw && 0 <= y < dh ==> #[trigger] final(dest)@[y * dw + x] == blit_texel(
                old(dest)@[y * dw + x],
                *p,
                ox as int,
                oy as int,
                x,
                y,
            ),
        forall|k: int| dw * dh <= k < old(dest)@.len() ==> #[trigger] final(dest)@[k] == old(dest)@[k],
{
    let dwi = dw as i32;
    let dhi = dh as i32;
    let plen = p.pixels.len();
    let dlen = dest.len();
    let ghost orig = dest@;
    let mut py: usize = 0;
    while py < p.h
        invariant
            dw <= i32::MAX,
            dh <= i32::MAX,
            dwi == dw,
            dhi == dh,
            dw * dh <= dest@.len(),
            dest@.len() == orig.len(),
            p.pixels@.len() == p.w * p.h,
            plen == p.pixels@.len(),
            dlen == dest@.len(),
            p.w as int <= i32::MAX as int + 1,
            p.h as int <= i32::MAX as int + 1,
            ox as int + p.w as int <= i32::MAX as int + 1,
            oy as int + p.h as int <= i32::MAX as int + 1,
            py <= p.h,
            forall|x: int, y: int|
                0 <= x < dw && 0 <= y < dh ==> #[trigger] dest@[y * dw + x] == if y - oy < py {
                    blit_texel(orig[y * dw + x], *p, ox as int, oy as int, x, y)
                } else {
                    orig[y * dw + x]
                },
            forall|k: int| dw * dh <= k < orig.len() ==> #[trigger] dest@[k] == orig[k],
        decreases p.h - py,
    {
        let dy = oy + py as i32;
        if 0 <= dy && dy < dhi {
            let mut px: usize = 0;
            while px < p.w
                invariant
                    dw <= i32::MAX,
                    dh <= i32::MAX,
                    dwi == dw,
                    dhi == dh,
                    dw * dh <= dest@.len(),
                    dest@.len() == orig.len(),
                    p.pixels@.len() == p.w * p.h,
                    plen == p.pixels@.len(),
                    dlen == dest@.len(),
            dlen == dest@.len(),
                    p.w as int <= i32::MAX as int + 1,
                    ox as int + p.w as int <= i32::MAX as int + 1,
                    py < p.h,
                    dy == oy + py,
                    0 <= dy < dh,
                    px <= p.w,
                    forall|x: int, y: int|
                        0 <= x < dw && 0 <= y < dh ==> #[trigger] dest@[y * dw + x] == if y - oy < py || (y - oy
                            == py && x - ox < px) {
                            blit_texel(orig[y * dw + x], *p, ox as int, oy as int, x, y)
                        } else {
                            orig[y * dw + x]
                        },
                    forall|k: int| dw * dh <= k < orig.len() ==> #[trigger] dest@[k] == orig[k],
                decreases p.w - px,
            {
                let dx = ox + px as i32;
                if 0 <= dx && dx < dwi {
                    proof {
                        lemma_grid_bound(p.w as int, p.h as int, px as int, py as int);
                        lemma_grid_bound(dw as int, dh as int, dx as int, dy as int);
                    }
                    let src = p.pixels[py * p.w + px];
                    if src != 0 {
                        let k = (dy as usize) * dw + (dx as usize);
                        let ghost prev = dest@;
                        dest[k] = src;
                        proof {
                            assert forall|x: int, y: int| 0 <= x < dw && 0 <= y < dh implies #[trigger] dest@[y * dw + x]
                                == if y - oy < py || (y - oy == py && x - ox < px + 1) {
                                blit_texel(orig[y * dw + x], *p, ox as int, oy as int, x, y)
                            } else {
                                orig[y * dw + x]
                            } by {
                                lemma_grid_bound(dw as int, dh as int, x, y);
                                if y * dw + x == k {
                                    lemma_grid_inj(dw as int, x, y, dx as int, dy as int);
                                } else {
                                    assert(prev[y * dw + x] == dest@[y * dw + x]);
                                }
                            }
                        }
                    } else {
                        proof {
                            assert forall|x: int, y: int| 0 <= x < dw && 0 <= y < dh implies #[trigger] dest@[y * dw + x]
                                == if y - oy < py || (y - oy == py && x - ox < px + 1) {
                                blit_texel(orig[y * dw + x], *p, ox as int, oy as int, x, y)
                            } else {
                                orig[y * dw + x]
                            } by {
                                lemma_grid_bound(dw as int, dh as int, x, y);
                            }
                        }
                    }
                }
                px += 1;
            }
        }
        py += 1;
    }
}

/// Patch placement `k` of a TEXTUREx entry: x offset.
pub open spec fn place_ox(entry: Seq<u8>, k: int) -> i16 {
    i16_le(entry, 22 + 10 * k)
}

/// Patch placement `k` of a TEXTUREx entry: y offset.
pub open spec fn place_oy(entry: Seq<u8>, k: int) -> i16 {
    i16_le(entry, 22 + 10 * k + 2)
}

/// Patch placement `k` of a TEXTUREx entry: index into the patch list.
pub open spec fn place_patch(entry: Seq<u8>, k: int) -> int {
    u16_le(entry, 22 + 10 * k + 4)
}

/// Width of a TEXTUREx entry.
pub open spec fn entry_w(entry: Seq<u8>) -> int {
    i16_le(entry, 12) as int
}

/// Height of a TEXTUREx entry.
pub open spec fn entry_h(entry: Seq<u8>) -> int {
    i16_le(entry, 14) as int
}

/// Number of patch placements of a TEXTUREx entry.
pub open spec fn entry_patch_count(entry: Seq<u8>) -> int {
    u16_le(entry, 20)
}

/// Texel `(x, y)` of the canvas after the first `n` placements of `entry`:
/// the last placed patch that is opaque there wins; 0 where none is.
pub open spec fn canvas_texel(entry: Seq<u8>, patches: Seq<Texture>, n: int, x: int, y: int) -> u8
    decreases n,
{
    if n <= 0 {
        0
    } else {
        blit_texel(
            canvas_texel(entry, patches, n - 1, x, y),
            patches[place_patch(entry, n - 1)],
            place_ox(entry, n - 1) as int,
            place_oy(entry, n - 1) as int,
            x,
            y,
        )
    }
}

/// A TEXTUREx entry can be composed from a list of `npatches` patches: its
/// header and placements can be read, its size is not negative, and each
/// placement names a patch of the list.
pub open spec fn entry_fits(entry: Seq<u8>, npatches: int) -> bool {
    &&& 22 + 10 * entry_patch_count(entry) <= entry.len()
    &&& entry_w(entry) >= 0
    &&& entry_h(entry) >= 0
    &&& forall|k: int| 0 <= k < entry_patch_count(entry) ==> #[trigger] place_patch(entry, k) < npatches
}

/// Every texture of the list is well-formed.
pub open spec fn patches_ok(patches: Seq<Texture>) -> bool {
    forall|i: int| 0 <= i < patches.len() ==> texture_ok(#[trigger] patches[i])
}

/// `t` is the wall texture `entry` composes from `patches`, named `name`.
pub open spec fn composes(t: Texture, entry: Seq<u8>, patches: Seq<Texture>, name: Seq<char>) -> bool {
    &&& t.name@ == name
    &&& t.w as int == entry_w(entry)
    &&& t.h as int == entry_h(entry)
    &&& t.pixels@.len() == t.w * t.h
    &&& forall|x: int, y: int|
        0 <= x < t.w && 0 <= y < t.h ==> #[trigger] t.pixels@[y * t.w + x] == canvas_texel(
            entry,
            patches,
            entry_patch_count(entry),
            x,
            y,
        )
}

/// Compose the wall texture described by a TEXTUREx `entry`: a blank
/// `w`×`h` canvas onto which each placed patch is blitted in order.
pub fn compose_texture(entry: &[u8], patches: &[Texture], name: &str) -> (t: Texture)
    requires
        entry_fits(entry@, patches@.len() as int),
        patches_ok(patches@),
    ensures
        composes(t, entry@, patches@, name@),
{
    let w_tex = read_i16_at(entry, 12) as usize;
    let h_tex = read_i16_at(entry, 14) as usize;
    let np = read_u16_at(entry, 20) as usize;
    assert(w_tex * h_tex <= 32767 * 32767) by (nonlinear_arith)
        requires
            w_tex <= 32767,
            h_tex <= 32767,
    ;
    let mut canvas: Vec<u8> = vec![0u8; w_tex * h_tex];
    proof {
        assert forall|x: int, y: int| 0 <= x < w_tex && 0 <= y < h_tex implies #[trigger] canvas@[y * w_tex + x] == 0 by {
            lemma_grid_bound(w_tex as int, h_tex as int, x, y);
        }
    }
    let mut k: usize = 0;
    while k < np
        invariant
            entry_fits(entry@, patches@.len() as int),
            patches_ok(patches@),
            w_tex as int == entry_w(entry@),
            h_tex as int == entry_h(entry@),
            np as int == entry_patch_count(entry@),
            w_tex <= 32767,
            h_tex <= 32767,
            k <= np,
            canvas@.len() == w_tex * h_tex,
            forall|x: int, y: int|
                0 <= x < w_tex && 0 <= y < h_tex ==> #[trigger] canvas@[y * w_tex + x] == canvas_texel(
                    entry@,
                    patches@,
                    k as int,
                    x,
                    y,
                ),
        decreases np - k,
    {
        let at = 22 + 10 * k;
        let ox = read_i16_at(entry, at) as i32;
        let oy = read_i16_at(entry, at + 2) as i32;
        let idx = read_u16_at(entry, at + 4) as usize;
        assert(place_patch(entry@, k as int) < patches@.len());
        assert(texture_ok(patches@[place_patch(entry@, k as int)]));
        let p = &patches[idx];
        let ghost before = canvas@;
        blit_patch(canvas.as_mut_slice(), w_tex, h_tex, p, ox, oy);
        proof {
            assert forall|x: int, y: int| 0 <= x < w_tex && 0 <= y < h_tex implies #[trigger] canvas@[y * w_tex + x]
                == canvas_texel(entry@, patches@, k + 1, x, y) by {
                assert(before[y * w_tex + x] == canvas_texel(entry@, patches@, k as int, x, y));
            }
        }
        k += 1;
    }
    Texture { name: name.to_owned(), w: w_tex, h: h_tex, pixels: canvas }
}

} // verus!

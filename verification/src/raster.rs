//! Integer Bresenham line rasterisation into a row-major frame buffer.

use vstd::prelude::*;

verus! {

/// Absolute value.
pub open spec fn abs(v: int) -> int {
    if v < 0 {
        -v
    } else {
        v
    }
}

/// The step direction `sx` / `sy` that moves `from` towards `to`.
pub open spec fn step_towards(from: int, to: int) -> int {
    if from < to {
        1
    } else {
        -1
    }
}

/// The state `(x, y)` may still step towards `(x1, y1)`: each pending
/// direction is the right one, and `dy <= 0 <= dx`.
pub open spec fn line_state_ok(x: int, y: int, x1: int, y1: int, dx: int, dy: int, sx: int, sy: int) -> bool {
    &&& dy <= 0 <= dx
    &&& (x == x1 || sx == step_towards(x, x1))
    &&& (y == y1 || sy == step_towards(y, y1))
}

/// The points the Bresenham loop plots from state `(x, y, err)` on, for the
/// line ending at `(x1, y1)` with `dx = |x1 - x0|`, `dy = -|y1 - y0|`: it
/// plots the current point, stops at the end point, and otherwise moves in
/// x when `2 err >= dy` and in y when `2 err <= dx`, stopping instead when
/// the coordinate to move is already at its end.
pub open spec fn line_from(x: int, y: int, err: int, x1: int, y1: int, dx: int, dy: int, sx: int, sy: int) -> Seq<(int, int)>
    decreases abs(x1 - x) + abs(y1 - y),
    when line_state_ok(x, y, x1, y1, dx, dy, sx, sy)
{
    let here = seq![(x, y)];
    if x == x1 && y == y1 {
        here
    } else {
        let e2 = 2 * err;
        if e2 >= dy && x == x1 {
            here
        } else {
            let nx = if e2 >= dy { x + sx } else { x };
            let nerr = if e2 >= dy { err + dy } else { err };
            if e2 <= dx && y == y1 {
                here
            } else {
                let ny = if e2 <= dx { y + sy } else { y };
                let nerr2 = if e2 <= dx { nerr + dx } else { nerr };
                here + line_from(nx, ny, nerr2, x1, y1, dx, dy, sx, sy)
            }
        }
    }
}

/// The points of the line from `(x0, y0)` to `(x1, y1)`.
pub open spec fn line_points(x0: int, y0: int, x1: int, y1: int) -> Seq<(int, int)> {
    let dx = abs(x1 - x0);
    let dy = -abs(y1 - y0);
    line_from(x0, y0, dx + dy, x1, y1, dx, dy, step_towards(x0, x1), step_towards(y0, y1))
}

/// Pixel index `k` of a `w`-wide, `h`-high buffer is point `p`, which lies
/// inside the buffer.
pub open spec fn pixel_of(p: (int, int), w: int, h: int, k: int) -> bool {
    0 <= p.0 < w && 0 <= p.1 < h && p.1 * w + p.0 == k
}

/// Some point of `pts` is pixel `k`.
pub open spec fn hits(pts: Seq<(int, int)>, w: int, h: int, k: int) -> bool {
    exists|i: int| 0 <= i < pts.len() && #[trigger] pixel_of(pts[i], w, h, k)
}

/// Integer Bresenham line-drawing algorithm: every point of the line from
/// `(x0, y0)` to `(x1, y1)` that lies inside the `w`×`h` buffer gets
/// `colour`; every other pixel keeps its value.
pub fn draw_line(buf: &mut [u32], w: usize, h: usize, x0: i32, y0: i32, x1: i32, y1: i32, colour: u32)
    requires
        w <= i32::MAX,
        h <= i32::MAX,
        w * h <= old(buf)@.len(),
    ensures
        final(buf)@.len() == old(buf)@.len(),
        forall|k: int|
            0 <= k < old(buf)@.len() ==> #[trigger] final(buf)@[k] == if hits(
                line_points(x0 as int, y0 as int, x1 as int, y1 as int),
                w as int,
                h as int,
                k,
            ) {
                colour
            } else {
                old(buf)@[k]
            },
{
    let tx: i64 = x1 as i64;
    let ty: i64 = y1 as i64;
    let mut x: i64 = x0 as i64;
    let mut y: i64 = y0 as i64;
    let dx: i64 = if tx >= x { tx - x } else { x - tx };
    let dy: i64 = if ty >= y { x - x + (y - ty) } else { ty - y };
    let sx: i64 = if x < tx { 1 } else { -1 };
    let sy: i64 = if y < ty { 1 } else { -1 };
    let mut err: i64 = dx + dy;
    let wi: i64 = w as i64;
    let hi: i64 = h as i64;
    let ghost all = line_points(x0 as int, y0 as int, x1 as int, y1 as int);
    let ghost mut done: Seq<(int, int)> = seq![];
    assert(all == line_from(x as int, y as int, err as int, tx as int, ty as int, dx as int, dy as int, sx as int, sy as int));
    assert(dx * (1 + dy) + dy * (1 - dx) == dx + dy) by (nonlinear_arith);
    loop
        invariant_except_break
            all == done + line_from(x as int, y as int, err as int, tx as int, ty as int, dx as int, dy as int, sx as int, sy as int),
            line_state_ok(x as int, y as int, tx as int, ty as int, dx as int, dy as int, sx as int, sy as int),
            abs(x - x0) + abs(tx - x) == dx,
            abs(y - y0) + abs(ty - y) == -dy,
            2 * dy <= err <= 2 * dx,
            err == dx * (1 - abs(ty - y)) + dy * (1 - abs(tx - x)),
        invariant
            wi == w,
            hi == h,
            w * h <= buf@.len(),
            buf@.len() == old(buf)@.len(),
            tx == x1,
            ty == y1,
            dx == abs(x1 - x0),
            dy == -abs(y1 - y0),
            sx == step_towards(x0 as int, x1 as int),
            sy == step_towards(y0 as int, y1 as int),
            forall|k: int|
                0 <= k < buf@.len() ==> #[trigger] buf@[k] == if hits(done, w as int, h as int, k) {
                    colour
                } else {
                    old(buf)@[k]
                },
        ensures
            all == done,
        decreases abs(tx - x) + abs(ty - y),
    {
        let ghost p = (x as int, y as int);
        let ghost before = buf@;
        if 0 <= x && x < wi && 0 <= y && y < hi {
            proof {
                assert((y as int) * (w as int) + (x as int) < (w as int) * (h as int)) by (nonlinear_arith)
                    requires
                        0 <= x < w,
                        0 <= y < h,
                ;
                assert(0 <= (y as int) * (w as int)) by (nonlinear_arith)
                    requires
                        0 <= y,
                ;
            }
            let n = buf.len();
            assert((y as int) * (w as int) + (x as int) < n);
            let idx = (y as usize) * w + (x as usize);
            buf[idx] = colour;
        }
        proof {
            let nd = done.push(p);
            assert forall|k: int| 0 <= k < buf@.len() implies #[trigger] buf@[k] == if hits(nd, w as int, h as int, k) {
                colour
            } else {
                old(buf)@[k]
            } by {
                if hits(nd, w as int, h as int, k) {
                    let i = choose|i: int| 0 <= i < nd.len() && #[trigger] pixel_of(nd[i], w as int, h as int, k);
                    if i < done.len() {
                        assert(pixel_of(done[i], w as int, h as int, k));
                        assert(hits(done, w as int, h as int, k));
                    }
                } else {
                    assert(!pixel_of(nd[done.len() as int], w as int, h as int, k));
                    if hits(done, w as int, h as int, k) {
                        let i = choose|i: int| 0 <= i < done.len() && #[trigger] pixel_of(done[i], w as int, h as int, k);
                        assert(pixel_of(nd[i], w as int, h as int, k));
                    }
                }
            }
            done = nd;
        }
        if x == tx && y == ty {
            assert(all =~= done);
            break;
        }
        let e2 = 2 * err;
        let ghost rest = line_from(x as int, y as int, err as int, tx as int, ty as int, dx as int, dy as int, sx as int, sy as int);
        proof {
            let ra = abs(tx - x);
            let rb = abs(ty - y);
            if x == tx {
                assert(e2 < dy) by (nonlinear_arith)
                    requires
                        e2 == 2 * err,
                        err == dx * (1 - rb) + dy * (1 - ra),
                        ra == 0,
                        1 <= rb <= -dy,
                        0 <= dx,
                ;
            }
            if y == ty {
                assert(e2 > dx) by (nonlinear_arith)
                    requires
                        e2 == 2 * err,
                        err == dx * (1 - rb) + dy * (1 - ra),
                        rb == 0,
                        1 <= ra <= dx,
                        dy <= 0,
                ;
            }
            assert(dx * (1 - (rb - 1)) == dx * (1 - rb) + dx) by (nonlinear_arith);
            assert(dy * (1 - (ra - 1)) == dy * (1 - ra) + dy) by (nonlinear_arith);
        }
        if e2 >= dy {
            err += dy;
            x += sx;
        }
        if e2 <= dx {
            err += dx;
            y += sy;
        }
        proof {
            assert(rest == seq![p] + line_from(x as int, y as int, err as int, tx as int, ty as int, dx as int, dy as int, sx as int, sy as int));
            assert(all =~= done + line_from(x as int, y as int, err as int, tx as int, ty as int, dx as int, dy as int, sx as int, sy as int));
        }
    }
}

/// Two points are equal or neighbours (a king's move apart).
pub open spec fn adjacent(p: (int, int), q: (int, int)) -> bool {
    abs(q.0 - p.0) <= 1 && abs(q.1 - p.1) <= 1
}

/// From a state of the loop (`err` tied to the distances left), the points
/// plotted start at the current point, end at `(x1, y1)`, and each is a
/// king's move from the one before.
proof fn lemma_line_from(x: int, y: int, err: int, x1: int, y1: int, dx: int, dy: int, sx: int, sy: int)
    requires
        line_state_ok(x, y, x1, y1, dx, dy, sx, sy),
        abs(x1 - x) <= dx,
        abs(y1 - y) <= -dy,
        err == dx * (1 - abs(y1 - y)) + dy * (1 - abs(x1 - x)),
    ensures
        line_from(x, y, err, x1, y1, dx, dy, sx, sy).len() >= 1,
        line_from(x, y, err, x1, y1, dx, dy, sx, sy)[0] == (x, y),
        line_from(x, y, err, x1, y1, dx, dy, sx, sy).last() == (x1, y1),
        forall|i: int|
            0 <= i < line_from(x, y, err, x1, y1, dx, dy, sx, sy).len() - 1 ==> adjacent(
                #[trigger] line_from(x, y, err, x1, y1, dx, dy, sx, sy)[i],
                line_from(x, y, err, x1, y1, dx, dy, sx, sy)[i + 1],
            ),
    decreases abs(x1 - x) + abs(y1 - y),
{
    let l = line_from(x, y, err, x1, y1, dx, dy, sx, sy);
    if x == x1 && y == y1 {
        return;
    }
    let ra = abs(x1 - x);
    let rb = abs(y1 - y);
    let e2 = 2 * err;
    if x == x1 {
        assert(e2 < dy) by (nonlinear_arith)
            requires
                e2 == 2 * err,
                err == dx * (1 - rb) + dy * (1 - ra),
                ra == 0,
                1 <= rb <= -dy,
                0 <= dx,
        ;
    }
    if y == y1 {
        assert(e2 > dx) by (nonlinear_arith)
            requires
                e2 == 2 * err,
                err == dx * (1 - rb) + dy * (1 - ra),
                rb == 0,
                1 <= ra <= dx,
                dy <= 0,
        ;
    }
    assert(dx * (1 - (rb - 1)) == dx * (1 - rb) + dx) by (nonlinear_arith);
    assert(dy * (1 - (ra - 1)) == dy * (1 - ra) + dy) by (nonlinear_arith);
    let nx = if e2 >= dy { x + sx } else { x };
    let nerr = if e2 >= dy { err + dy } else { err };
    let ny = if e2 <= dx { y + sy } else { y };
    let nerr2 = if e2 <= dx { nerr + dx } else { nerr };
    assert(e2 >= dy || e2 <= dx);
    lemma_line_from(nx, ny, nerr2, x1, y1, dx, dy, sx, sy);
    let rest = line_from(nx, ny, nerr2, x1, y1, dx, dy, sx, sy);
    assert(l == seq![(x, y)] + rest);
    assert forall|i: int| 0 <= i < l.len() - 1 implies adjacent(#[trigger] l[i], l[i + 1]) by {
        if i > 0 {
            assert(l[i] == rest[i - 1]);
            assert(l[i + 1] == rest[i]);
        }
    }
}

/// The line from `(x0, y0)` to `(x1, y1)` starts at its start point, ends
/// at its end point, and never skips a pixel: each point is a king's move
/// from the one before.
pub proof fn law_line_connects(x0: int, y0: int, x1: int, y1: int)
    ensures
        line_points(x0, y0, x1, y1).len() >= 1,
        line_points(x0, y0, x1, y1)[0] == (x0, y0),
        line_points(x0, y0, x1, y1).last() == (x1, y1),
        forall|i: int|
            0 <= i < line_points(x0, y0, x1, y1).len() - 1 ==> adjacent(
                #[trigger] line_points(x0, y0, x1, y1)[i],
                line_points(x0, y0, x1, y1)[i + 1],
            ),
{
    let dx = abs(x1 - x0);
    let dy = -abs(y1 - y0);
    assert(dx * (1 + dy) + dy * (1 - dx) == dx + dy) by (nonlinear_arith);
    lemma_line_from(x0, y0, dx + dy, x1, y1, dx, dy, step_towards(x0, x1), step_towards(y0, y1));
}

} // verus!

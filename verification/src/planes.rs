//! Visplanes of the software renderer: one floor or ceiling flat, with
//! its height, texture and light, and the screen columns it spans.
//! Spans with equal height, texture and light share a plane as long as the
//! columns they add have not been drawn into yet.

use vstd::prelude::*;
use crate::texture::TextureId;

verus! {

/// Index of a plane in a `PlaneMap`.
pub type VisplaneId = u16;

/// "No plane".
pub const NO_PLANE: VisplaneId = 0xFFFF;

/// One flat that is visible somewhere on screen.
#[derive(Clone)]
pub struct VisPlane {
    pub height: i16,
    pub tex: TextureId,
    pub light: i16,
    /// Inclusive horizontal range that the plane touches.
    pub min_x: u16,
    pub max_x: u16,
    /// For every screen column, the highest and lowest pixel still
    /// uncovered after drawing the front geometry (`u16::MAX` in `top`:
    /// the column was not drawn into).
    pub top: Vec<u16>,
    pub bottom: Vec<u16>,
    pub modified: bool,
}

/// Larger of two columns.
pub open spec fn col_max(a: u16, b: u16) -> u16 {
    if a >= b { a } else { b }
}

/// Smaller of two columns.
pub open spec fn col_min(a: u16, b: u16) -> u16 {
    if a <= b { a } else { b }
}

/// The plane has height `height`, texture `tex` and light `light`.
pub open spec fn same_key(p: VisPlane, height: i16, tex: TextureId, light: i16) -> bool {
    p.height == height && p.tex == tex && p.light == light
}

/// No column that the plane and `min_x..=max_x` have in common has been
/// drawn into yet.
pub open spec fn span_fits(p: VisPlane, min_x: u16, max_x: u16) -> bool {
    forall|x: int|
        col_max(min_x, p.min_x) <= x <= col_min(max_x, p.max_x) ==> #[trigger] p.top@[x] == 0xFFFFu16
}

/// The plane grown to cover `min_x..=max_x` as well.
pub open spec fn widened(p: VisPlane, min_x: u16, max_x: u16) -> VisPlane {
    VisPlane { min_x: col_min(min_x, p.min_x), max_x: col_max(max_x, p.max_x), ..p }
}

/// Plane `k` of `planes` can take the span.
pub open spec fn can_take(planes: Seq<VisPlane>, k: int, height: i16, tex: TextureId, light: i16, min_x: u16, max_x: u16) -> bool {
    0 <= k < planes.len() && same_key(planes[k], height, tex, light) && span_fits(planes[k], min_x, max_x)
}

/// Plane `k` is the first one of `planes` that can take the span.
pub open spec fn first_taker(planes: Seq<VisPlane>, k: int, height: i16, tex: TextureId, light: i16, min_x: u16, max_x: u16) -> bool {
    &&& can_take(planes, k, height, tex, light, min_x, max_x)
    &&& forall|j: int| 0 <= j < k ==> !#[trigger] can_take(planes, j, height, tex, light, min_x, max_x)
}

/// Some plane of `planes` can take the span.
pub open spec fn some_taker(planes: Seq<VisPlane>, height: i16, tex: TextureId, light: i16, min_x: u16, max_x: u16) -> bool {
    exists|k: int| #[trigger] can_take(planes, k, height, tex, light, min_x, max_x)
}

/// A new plane for the span, with every column of a `width`-wide screen
/// undrawn.
pub open spec fn fresh_plane(height: i16, tex: TextureId, light: i16, min_x: u16, max_x: u16, width: nat, p: VisPlane) -> bool {
    &&& p.height == height && p.tex == tex && p.light == light
    &&& p.min_x == min_x && p.max_x == max_x
    &&& p.top@ == Seq::new(width, |i: int| 0xFFFFu16)
    &&& p.bottom@ == Seq::new(width, |i: int| 0u16)
    &&& !p.modified
}

/// What `PlaneMap::find` does to the planes `p0` of a `w`-wide screen
/// for a span, giving id `r` and planes `p1`: the first plane that can
/// take the span is widened to it; when none can, a fresh plane is
/// appended.
pub open spec fn find_outcome(
    p0: Seq<VisPlane>,
    w: nat,
    height: i16,
    tex: TextureId,
    light: i16,
    min_x: u16,
    max_x: u16,
    r: int,
    p1: Seq<VisPlane>,
) -> bool {
    if some_taker(p0, height, tex, light, min_x, max_x) {
        &&& first_taker(p0, r, height, tex, light, min_x, max_x)
        &&& p1 == p0.update(r, widened(p0[r], min_x, max_x))
    } else {
        &&& r == p0.len()
        &&& p1.len() == p0.len() + 1
        &&& p1.take(r) == p0
        &&& fresh_plane(height, tex, light, min_x, max_x, w, p1[r])
    }
}

/// Can `plane` take the columns `min_x..=max_x`?  If so it is widened to
/// cover them and `true` comes back; otherwise it is left as it was.
fn merge_plane(plane: &mut VisPlane, min_x: u16, max_x: u16) -> (r: bool)
    requires
        (col_min(max_x, old(plane).max_x) as int) < old(plane).top.len(),
    ensures
        r == span_fits(*old(plane), min_x, max_x),
        r ==> *final(plane) == widened(*old(plane), min_x, max_x),
        !r ==> *final(plane) == *old(plane),
{
    let intrl = if min_x >= plane.min_x { min_x } else { plane.min_x };
    let intrh = if max_x <= plane.max_x { max_x } else { plane.max_x };
    let unionl = if min_x <= plane.min_x { min_x } else { plane.min_x };
    let unionh = if max_x >= plane.max_x { max_x } else { plane.max_x };
    let mut x: usize = intrl as usize;
    while x <= intrh as usize
        invariant
            *plane == *old(plane),
            intrl == col_max(min_x, plane.min_x),
            intrh == col_min(max_x, plane.max_x),
            (intrh as int) < plane.top.len(),
            intrl <= x,
            x <= intrh as int + 1 || x == intrl,
            forall|y: int| intrl <= y < x ==> #[trigger] plane.top@[y] == 0xFFFFu16,
        decreases intrh as int + 1 - x,
    {
        if plane.top[x] != 0xFFFF {
            return false;
        }
        x = x + 1;
    }
    plane.min_x = unionl;
    plane.max_x = unionh;
    true
}

/// The visplanes of one frame.
pub struct PlaneMap {
    planes: Vec<VisPlane>,
    width: usize,
}

impl PlaneMap {
    /// Planes in id order.
    pub closed spec fn planes(&self) -> Seq<VisPlane> {
        self.planes@
    }

    /// Screen width that new planes are made for.
    pub closed spec fn width(&self) -> nat {
        self.width as nat
    }

    /// Every plane has one `top` and one `bottom` entry per screen column
    /// and ends on screen; every id fits in a `VisplaneId`.
    pub open spec fn wf(&self) -> bool {
        &&& self.planes().len() <= 0xFFFF
        &&& forall|k: int|
            0 <= k < self.planes().len() ==> {
                &&& (#[trigger] self.planes()[k]).top.len() == self.width()
                &&& self.planes()[k].bottom.len() == self.width()
                &&& (self.planes()[k].max_x as int) < self.width()
            }
    }

    /// An empty map for a `width`-wide screen.
    pub fn new(width: usize) -> (m: Self)
        ensures
            m.planes() == Seq::<VisPlane>::empty(),
            m.width() == width,
            m.wf(),
    {
        PlaneMap { planes: Vec::new(), width }
    }

    /// Forget every plane and set the screen width for new ones.
    pub fn clear(&mut self, width: usize)
        ensures
            final(self).planes() == Seq::<VisPlane>::empty(),
            final(self).width() == width,
            final(self).wf(),
    {
        self.planes.clear();
        self.width = width;
    }

    /// Number of planes.
    pub fn len(&self) -> (n: usize)
        ensures
            n == self.planes().len(),
    {
        self.planes.len()
    }

    /// Borrow a plane, `None` for `NO_PLANE` or an unknown id; what is
    /// written through the borrow becomes the plane stored under `id`.
    pub fn get(&mut self, id: VisplaneId) -> (r: Option<&mut VisPlane>)
        ensures
            match r {
                Some(p) => {
                    &&& id != NO_PLANE
                    &&& (id as int) < old(self).planes().len()
                    &&& *p == old(self).planes()[id as int]
                    &&& final(self).planes() == old(self).planes().update(id as int, *final(p))
                    &&& final(self).width() == old(self).width()
                },
                None => {
                    &&& (id == NO_PLANE || (id as int) >= old(self).planes().len())
                    &&& *final(self) == *old(self)
                },
            },
    {
        if id == NO_PLANE || id as usize >= self.planes.len() {
            None
        } else {
            Some(&mut self.planes[id as usize])
        }
    }

    /// Iterator over the planes in id order.
    pub fn iter(&self) -> (it: std::slice::Iter<'_, VisPlane>)
        ensures
            vstd::std_specs::slice::into_iter_elts(it) == self.planes(),
    {
        let it = self.planes.as_slice().iter();
        proof {
            broadcast use vstd::std_specs::slice::axiom_spec_slice_iter;
            assert(self.planes@.as_ref().unref() =~= self.planes@);
        }
        it
    }

    /// The plane for a span of height `height`, texture `tex` and light
    /// `light` over columns `min_x..=max_x`: the first plane (in id order)
    /// with that height, texture and light whose shared columns are still
    /// undrawn, widened to the span; else a new plane, whose id is the
    /// number of planes before.
    pub fn find(&mut self, height: i16, tex: TextureId, light: i16, min_x: u16, max_x: u16) -> (r: VisplaneId)
        requires
            old(self).wf(),
            some_taker(old(self).planes(), height, tex, light, min_x, max_x) || old(self).planes().len() < 0xFFFF,
        ensures
            final(self).width() == old(self).width(),
            find_outcome(old(self).planes(), old(self).width(), height, tex, light, min_x, max_x, r as int, final(self).planes()),
            (max_x as int) < old(self).width() ==> final(self).wf(),
    {
        let ghost p0 = self.planes@;
        let ghost w0 = self.width();
        assert(p0 == old(self).planes());
        let mut k: usize = 0;
        while k < self.planes.len()
            invariant
                self.planes@ == p0,
                self.width() == w0,
                w0 == old(self).width(),
                p0 == old(self).planes(),
                self.wf(),
                k <= p0.len(),
                forall|j: int| 0 <= j < k ==> !#[trigger] can_take(p0, j, height, tex, light, min_x, max_x),
            decreases p0.len() - k,
        {
            let p = &self.planes[k];
            if p.height == height && p.tex == tex && p.light == light {
                assert(self.planes()[k as int].top.len() == self.width());
                let took = merge_plane(&mut self.planes[k], min_x, max_x);
                if took {
                    proof {
                        assert(can_take(p0, k as int, height, tex, light, min_x, max_x));
                        assert(first_taker(p0, k as int, height, tex, light, min_x, max_x));
                        assert(some_taker(old(self).planes(), height, tex, light, min_x, max_x));
                        assert(self.planes() == p0.update(k as int, widened(p0[k as int], min_x, max_x)));
                        if (max_x as int) < self.width() {
                            assert forall|j: int| 0 <= j < self.planes().len() implies {
                                &&& (#[trigger] self.planes()[j]).top.len() == self.width()
                                &&& self.planes()[j].bottom.len() == self.width()
                                &&& (self.planes()[j].max_x as int) < self.width()
                            } by {
                                assert(p0[j].top.len() == self.width());
                            }
                        }
                    }
                    return k as VisplaneId;
                }
                assert(self.planes@ =~= p0);
            }
            k = k + 1;
        }
        let new_id = self.planes.len() as VisplaneId;
        let top: Vec<u16> = vec![0xFFFFu16; self.width];
        let bottom: Vec<u16> = vec![0u16; self.width];
        let new_plane = VisPlane { height, tex, light, min_x, max_x, top, bottom, modified: false };
        self.planes.push(new_plane);
        proof {
            assert(top@ =~= Seq::new(self.width as nat, |i: int| 0xFFFFu16));
            assert(bottom@ =~= Seq::new(self.width as nat, |i: int| 0u16));
            assert(self.planes().take(new_id as int) =~= p0);
            assert(!some_taker(p0, height, tex, light, min_x, max_x)) by {
                if some_taker(p0, height, tex, light, min_x, max_x) {
                    let j = choose|j: int| #[trigger] can_take(p0, j, height, tex, light, min_x, max_x);
                    assert(!can_take(p0, j, height, tex, light, min_x, max_x));
                }
            }
            if (max_x as int) < self.width() {
                assert forall|j: int| 0 <= j < self.planes().len() implies {
                    &&& (#[trigger] self.planes()[j]).top.len() == self.width()
                    &&& self.planes()[j].bottom.len() == self.width()
                    &&& (self.planes()[j].max_x as int) < self.width()
                } by {
                    if j < p0.len() {
                        assert(self.planes()[j] == p0[j]);
                    }
                }
            }
        }
        new_id
    }
}

impl Default for PlaneMap {
    /// An empty map for a zero-wide screen.
    fn default() -> (m: Self)
        ensures
            m.planes() == Seq::<VisPlane>::empty(),
            m.width() == 0,
    {
        PlaneMap { planes: Vec::new(), width: 0 }
    }
}

/// Every plane has one `top` entry per column of a `w`-wide screen, and
/// no column outside a plane's range has been drawn into.
pub open spec fn undrawn_outside(p: Seq<VisPlane>, w: nat) -> bool {
    &&& forall|k: int| 0 <= k < p.len() ==> (#[trigger] p[k]).top.len() == w
    &&& forall|k: int, x: int|
        0 <= k < p.len() && 0 <= x < w && !(p[k].min_x <= x <= p[k].max_x) ==> #[trigger] p[k].top@[x] == 0xFFFFu16
}

/// Asking for the same span twice, with nothing drawn in between, gives
/// the same plane, and the second request changes nothing.
pub proof fn law_find_twice(
    p0: Seq<VisPlane>,
    w: nat,
    height: i16,
    tex: TextureId,
    light: i16,
    min_x: u16,
    max_x: u16,
    r1: int,
    p1: Seq<VisPlane>,
    r2: int,
    p2: Seq<VisPlane>,
)
    requires
        (max_x as int) < w,
        undrawn_outside(p0, w),
        find_outcome(p0, w, height, tex, light, min_x, max_x, r1, p1),
        find_outcome(p1, w, height, tex, light, min_x, max_x, r2, p2),
    ensures
        r2 == r1,
        p2 == p1,
{
    if some_taker(p0, height, tex, light, min_x, max_x) {
        let q = p0[r1];
        let q1 = widened(q, min_x, max_x);
        assert(p1[r1] == q1);
        assert(q.top.len() == w);
        assert forall|x: int| col_max(min_x, q1.min_x) <= x <= col_min(max_x, q1.max_x) implies #[trigger] q1.top@[x]
            == 0xFFFFu16 by {
            if !(q.min_x <= x <= q.max_x) {
                assert(q.top@[x] == 0xFFFFu16);
            } else {
                assert(col_max(min_x, q.min_x) <= x <= col_min(max_x, q.max_x));
            }
        }
        assert(can_take(p1, r1, height, tex, light, min_x, max_x));
        assert forall|j: int| 0 <= j < r1 implies !#[trigger] can_take(p1, j, height, tex, light, min_x, max_x) by {
            assert(p1[j] == p0[j]);
            assert(!can_take(p0, j, height, tex, light, min_x, max_x));
        }
        assert(first_taker(p1, r1, height, tex, light, min_x, max_x));
        assert(some_taker(p1, height, tex, light, min_x, max_x));
        if r2 < r1 {
            assert(!can_take(p1, r2, height, tex, light, min_x, max_x));
        } else if r2 > r1 {
            assert(!can_take(p1, r1, height, tex, light, min_x, max_x));
        }
        assert(widened(q1, min_x, max_x) == q1);
        assert(p2 =~= p1);
    } else {
        let q = p1[r1];
        assert forall|x: int| col_max(min_x, q.min_x) <= x <= col_min(max_x, q.max_x) implies #[trigger] q.top@[x]
            == 0xFFFFu16 by {}
        assert(can_take(p1, r1, height, tex, light, min_x, max_x));
        assert forall|j: int| 0 <= j < r1 implies !#[trigger] can_take(p1, j, height, tex, light, min_x, max_x) by {
            assert(p1[j] == p1.take(r1)[j]);
            if can_take(p0, j, height, tex, light, min_x, max_x) {
                assert(some_taker(p0, height, tex, light, min_x, max_x));
            }
        }
        assert(some_taker(p1, height, tex, light, min_x, max_x));
        if r2 < r1 {
            assert(!can_take(p1, r2, height, tex, light, min_x, max_x));
        } else if r2 > r1 {
            assert(!can_take(p1, r1, height, tex, light, min_x, max_x));
        }
        assert(widened(q, min_x, max_x) == q);
        assert(p2 =~= p1);
    }
}

/// The plane that `find` hands out has exactly the height, texture and
/// light asked for and spans at least the requested columns; every other
/// plane that existed before is left as it was.
pub proof fn law_find_matches_key(
    p0: Seq<VisPlane>,
    w: nat,
    height: i16,
    tex: TextureId,
    light: i16,
    min_x: u16,
    max_x: u16,
    r: int,
    p1: Seq<VisPlane>,
)
    requires
        find_outcome(p0, w, height, tex, light, min_x, max_x, r, p1),
    ensures
        0 <= r < p1.len(),
        p1[r].height == height,
        p1[r].tex == tex,
        p1[r].light == light,
        p1[r].min_x <= min_x,
        p1[r].max_x >= max_x,
        p0.len() <= p1.len() <= p0.len() + 1,
        forall|j: int| 0 <= j < p0.len() && j != r ==> p1[j] == p0[j],
{
    if !some_taker(p0, height, tex, light, min_x, max_x) {
        assert forall|j: int| 0 <= j < p0.len() && j != r implies p1[j] == p0[j] by {
            assert(p1[j] == p1.take(r)[j]);
        }
    }
}

} // verus!

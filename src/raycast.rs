use vstd::prelude::*;

use crate::coords::BlockPos;
use crate::world::ExcavateManufacturateWorld;

verus! {

/// Largest denominator of a ray's origin.
pub const MAX_RAY_SCALE: i64 = 1048576;

/// Bound on each origin coordinate, in blocks.
pub const MAX_RAY_EXTENT: i64 = 1073741824;

/// Bound on each direction component.
pub const MAX_RAY_DIRECTION: i64 = 1048576;

/// Largest step budget of one traversal.
pub const MAX_RAY_STEPS: u32 = 1048576;

/// A ray in exact arithmetic: it starts at `origin / scale` and runs along
/// `direction`, the point at parameter `t >= 0` being
/// `origin / scale + t * direction`.
#[derive(Clone, Copy, Debug)]
pub struct Ray {
    pub origin: (i64, i64, i64),
    pub scale: i64,
    pub direction: (i64, i64, i64),
}

/// The first occupied cell that a ray enters, where it enters it, and the
/// outward normal of the face it crosses. The entry point is
/// `position / denominator`.
#[derive(Clone, Copy, Debug)]
pub struct Hit {
    pub cell: BlockPos,
    pub position: (i128, i128, i128),
    pub denominator: i128,
    pub normal: (i32, i32, i32),
}

pub open spec fn comp(t: (i64, i64, i64), a: int) -> int {
    if a == 0 {
        t.0 as int
    } else if a == 1 {
        t.1 as int
    } else {
        t.2 as int
    }
}

pub open spec fn icomp(t: (int, int, int), a: int) -> int {
    if a == 0 {
        t.0
    } else if a == 1 {
        t.1
    } else {
        t.2
    }
}

pub open spec fn sgn(d: int) -> int {
    if d > 0 {
        1
    } else if d < 0 {
        -1
    } else {
        0
    }
}

pub open spec fn abs(d: int) -> int {
    if d < 0 {
        -d
    } else {
        d
    }
}

impl Ray {
    /// The scale is positive, the coordinates are bounded, and the direction is not zero.
    pub open spec fn wf(self) -> bool {
        &&& 1 <= self.scale <= MAX_RAY_SCALE
        &&& forall|a: int|
            0 <= a < 3 ==> -MAX_RAY_EXTENT * self.scale < #[trigger] comp(self.origin, a)
                < MAX_RAY_EXTENT * self.scale
        &&& forall|a: int|
            0 <= a < 3 ==> -MAX_RAY_DIRECTION <= #[trigger] comp(self.direction, a)
                <= MAX_RAY_DIRECTION
        &&& self.direction != (0i64, 0i64, 0i64)
    }

    /// The ray moves along axis `a`.
    pub open spec fn active(self, a: int) -> bool {
        comp(self.direction, a) != 0
    }

    /// Coordinate of the `k`-th cell boundary that the ray crosses on axis `a`.
    pub open spec fn plane(self, a: int, k: int) -> int {
        let o = comp(self.origin, a);
        let d = comp(self.direction, a);
        let first = if d > 0 {
            o / (self.scale as int) + 1
        } else {
            o / (self.scale as int)
        };
        first + k * sgn(d)
    }

    /// The parameter of that crossing is `num(a, k) / den(a)`.
    pub open spec fn num(self, a: int, k: int) -> int {
        sgn(comp(self.direction, a)) * (self.plane(a, k) * self.scale - comp(self.origin, a))
    }

    pub open spec fn den(self, a: int) -> int {
        self.scale * abs(comp(self.direction, a))
    }

    /// With crossings `k` done, the next crossing on axis `a` comes no later
    /// than the next one on axis `b`.
    pub open spec fn no_later(self, k: (int, int, int), a: int, b: int) -> bool {
        !self.active(b) || self.num(a, icomp(k, a)) * self.den(b) <= self.num(b, icomp(k, b))
            * self.den(a)
    }

    /// Axis `a` is crossed at the next step: its next crossing comes first.
    pub open spec fn tied(self, k: (int, int, int), a: int) -> bool {
        self.active(a) && self.no_later(k, a, 0) && self.no_later(k, a, 1) && self.no_later(k, a, 2)
    }

    /// The first axis crossed at the next step.
    pub open spec fn first_tied(self, k: (int, int, int)) -> int {
        if self.tied(k, 0) {
            0
        } else if self.tied(k, 1) {
            1
        } else {
            2
        }
    }

    /// The cell holding the origin, and no crossings yet.
    pub open spec fn initial_state(self) -> ((int, int, int), (int, int, int)) {
        (
            (
                comp(self.origin, 0) / (self.scale as int),
                comp(self.origin, 1) / (self.scale as int),
                comp(self.origin, 2) / (self.scale as int),
            ),
            (0, 0, 0),
        )
    }

    /// One traversal step: every axis whose next crossing comes first moves
    /// one cell along its direction.
    pub open spec fn advance(self, st: ((int, int, int), (int, int, int))) -> (
        (int, int, int),
        (int, int, int),
    ) {
        let k = st.1;
        let m = |a: int|
            if self.tied(k, a) {
                1int
            } else {
                0int
            };
        (
            (
                st.0.0 + m(0) * sgn(comp(self.direction, 0)),
                st.0.1 + m(1) * sgn(comp(self.direction, 1)),
                st.0.2 + m(2) * sgn(comp(self.direction, 2)),
            ),
            (k.0 + m(0), k.1 + m(1), k.2 + m(2)),
        )
    }

    /// The state from which the step into the first occupied cell is taken,
    /// within `n` steps of `st`; `None` when the budget runs out first.
    pub open spec fn trace(
        self,
        world: ExcavateManufacturateWorld,
        st: ((int, int, int), (int, int, int)),
        n: nat,
    ) -> Option<((int, int, int), (int, int, int))>
        decreases n,
    {
        if n == 0 {
            None
        } else {
            let next = self.advance(st);
            if world.spec_is_occupied(
                BlockPos { x: next.0.0 as i32, y: next.0.1 as i32, z: next.0.2 as i32 },
            ) {
                Some(st)
            } else {
                self.trace(world, next, (n - 1) as nat)
            }
        }
    }

    /// `h` reports the step taken from `st`: the cell entered, the entry
    /// point at the first crossing's parameter, and the normal facing back
    /// along each crossed axis.
    pub open spec fn reports(self, st: ((int, int, int), (int, int, int)), h: Hit) -> bool {
        let next = self.advance(st);
        let k = st.1;
        let m = self.first_tied(k);
        let t_num = self.num(m, icomp(k, m));
        let t_den = self.den(m);
        &&& h.cell == BlockPos { x: next.0.0 as i32, y: next.0.1 as i32, z: next.0.2 as i32 }
        &&& h.denominator == self.scale * t_den
        &&& h.position.0 == comp(self.origin, 0) * t_den + self.scale * t_num * comp(self.direction, 0)
        &&& h.position.1 == comp(self.origin, 1) * t_den + self.scale * t_num * comp(self.direction, 1)
        &&& h.position.2 == comp(self.origin, 2) * t_den + self.scale * t_num * comp(self.direction, 2)
        &&& h.normal.0 == if self.tied(k, 0) { -sgn(comp(self.direction, 0)) } else { 0 }
        &&& h.normal.1 == if self.tied(k, 1) { -sgn(comp(self.direction, 1)) } else { 0 }
        &&& h.normal.2 == if self.tied(k, 2) { -sgn(comp(self.direction, 2)) } else { 0 }
    }
}

/// `o / s`, floored.
fn floor_div(o: i64, s: i64) -> (r: i64)
    requires
        1 <= s <= MAX_RAY_SCALE,
        -MAX_RAY_EXTENT * s < o < MAX_RAY_EXTENT * s,
    ensures
        r == o as int / s as int,
        -MAX_RAY_EXTENT <= r < MAX_RAY_EXTENT,
{
    assert(MAX_RAY_EXTENT * s <= MAX_RAY_EXTENT * MAX_RAY_SCALE) by (nonlinear_arith)
        requires
            1 <= s <= MAX_RAY_SCALE,
    ;
    let es = MAX_RAY_EXTENT * s;
    let shifted: u64 = (o + es) as u64;
    let q: u64 = shifted / (s as u64);
    proof {
        let q0 = o as int / s as int;
        let r0 = o as int % s as int;
        vstd::arithmetic::div_mod::lemma_fundamental_div_mod(o as int, s as int);
        vstd::arithmetic::div_mod::lemma_mod_division_less_than_divisor(o as int, s as int);
        assert(o + MAX_RAY_EXTENT * s == s * (q0 + MAX_RAY_EXTENT) + r0) by (nonlinear_arith)
            requires
                o == s * q0 + r0,
        ;
        vstd::arithmetic::div_mod::lemma_fundamental_div_mod_converse(
            o + MAX_RAY_EXTENT * s,
            s as int,
            q0 + MAX_RAY_EXTENT,
            r0,
        );
        assert(-MAX_RAY_EXTENT <= q0 < MAX_RAY_EXTENT) by (nonlinear_arith)
            requires
                o == s * q0 + r0,
                0 <= r0 < s,
                -MAX_RAY_EXTENT * s < o < MAX_RAY_EXTENT * s,
                1 <= s,
        ;
    }
    q as i64 - MAX_RAY_EXTENT
}

fn component(t: (i64, i64, i64), a: usize) -> (r: i64)
    requires
        a < 3,
    ensures
        r == comp(t, a as int),
{
    if a == 0 {
        t.0
    } else if a == 1 {
        t.1
    } else {
        t.2
    }
}

/// Numerator of the parameter of the `k`-th crossing on axis `a`.
fn crossing_num(ray: &Ray, a: usize, k: i64) -> (r: i128)
    requires
        ray.wf(),
        a < 3,
        0 <= k <= MAX_RAY_STEPS,
    ensures
        r == ray.num(a as int, k as int),
        -4503599627370496 < r < 4503599627370496,
{
    let o = component(ray.origin, a);
    let d = component(ray.direction, a);
    let s = ray.scale;
    assert(-MAX_RAY_EXTENT * s < o < MAX_RAY_EXTENT * s);
    let cell = floor_div(o, s);
    let plane: i64 = if d > 0 {
        cell + 1 + k
    } else if d < 0 {
        cell - k
    } else {
        cell
    };
    assert(plane == ray.plane(a as int, k as int));
    assert(-2251799813685248 <= plane * s <= 2251799813685248) by (nonlinear_arith)
        requires
            -2147483648 <= plane <= 2147483648,
            1 <= s <= MAX_RAY_SCALE,
    ;
    let p = plane as i128 * s as i128;
    assert(-MAX_RAY_EXTENT * MAX_RAY_SCALE < o < MAX_RAY_EXTENT * MAX_RAY_SCALE) by (nonlinear_arith)
        requires
            -MAX_RAY_EXTENT * s < o < MAX_RAY_EXTENT * s,
            1 <= s <= MAX_RAY_SCALE,
    ;
    let diff = p - o as i128;
    if d > 0 {
        diff
    } else if d < 0 {
        -diff
    } else {
        0
    }
}

/// Denominator of the crossing parameters on axis `a`.
fn crossing_den(ray: &Ray, a: usize) -> (r: i128)
    requires
        ray.wf(),
        a < 3,
    ensures
        r == ray.den(a as int),
        0 <= r <= 1099511627776,
        ray.active(a as int) ==> r > 0,
{
    let d = component(ray.direction, a);
    let ad: i128 = if d < 0 {
        -(d as i128)
    } else {
        d as i128
    };
    assert(0 <= ray.scale * ad <= 1099511627776) by (nonlinear_arith)
        requires
            1 <= ray.scale <= MAX_RAY_SCALE,
            0 <= ad <= MAX_RAY_DIRECTION,
    ;
    let r = ray.scale as i128 * ad;
    assert(ad > 0 ==> r > 0) by (nonlinear_arith)
        requires
            r == ray.scale * ad,
            1 <= ray.scale,
    ;
    r
}

proof fn lemma_order_transitive(na: int, da: int, nb: int, db: int, nc: int, dc: int)
    requires
        da > 0,
        db > 0,
        dc > 0,
        na * db <= nb * da,
        nb * dc <= nc * db,
    ensures
        na * dc <= nc * da,
{
    assert(na * db * dc <= nb * da * dc) by (nonlinear_arith)
        requires
            na * db <= nb * da,
            dc > 0,
    ;
    assert(nb * dc * da <= nc * db * da) by (nonlinear_arith)
        requires
            nb * dc <= nc * db,
            da > 0,
    ;
    assert(na * dc * db <= nc * da * db) by (nonlinear_arith)
        requires
            na * db * dc <= nb * da * dc,
            nb * dc * da <= nc * db * da,
    ;
    assert(na * dc <= nc * da) by (nonlinear_arith)
        requires
            na * dc * db <= nc * da * db,
            db > 0,
    ;
}

/// Whether `n1 / d1 <= n2 / d2`, for positive denominators.
fn no_later_than(n1: i128, d1: i128, n2: i128, d2: i128) -> (r: bool)
    requires
        -4503599627370496 < n1 < 4503599627370496,
        -4503599627370496 < n2 < 4503599627370496,
        0 <= d1 <= 1099511627776,
        0 <= d2 <= 1099511627776,
    ensures
        r == (n1 * d2 <= n2 * d1),
{
    assert(-4951760157141521099596496896 <= n1 * d2 <= 4951760157141521099596496896) by (nonlinear_arith)
        requires
            -4503599627370496 < n1 < 4503599627370496,
            0 <= d2 <= 1099511627776,
    ;
    assert(-4951760157141521099596496896 <= n2 * d1 <= 4951760157141521099596496896) by (nonlinear_arith)
        requires
            -4503599627370496 < n2 < 4503599627370496,
            0 <= d1 <= 1099511627776,
    ;
    n1 * d2 <= n2 * d1
}

/// When axis `bi` is crossed no later than any moving axis, the axes
/// crossed next are exactly the moving ones crossed no later than `bi`.
proof fn lemma_tied_by_minimum(ray: Ray, k: (int, int, int), bi: int)
    requires
        ray.wf(),
        0 <= bi < 3,
        ray.active(bi),
        forall|c: int| 0 <= c < 3 ==> #[trigger] ray.no_later(k, bi, c),
    ensures
        forall|a: int|
            0 <= a < 3 ==> (#[trigger] ray.tied(k, a) <==> (ray.active(a) && ray.num(a, icomp(k, a))
                * ray.den(bi) <= ray.num(bi, icomp(k, bi)) * ray.den(a))),
{
    assert forall|a: int| 0 <= a < 3 implies (#[trigger] ray.tied(k, a) <==> (ray.active(a) && ray.num(
        a,
        icomp(k, a),
    ) * ray.den(bi) <= ray.num(bi, icomp(k, bi)) * ray.den(a))) by {
        assert(ray.den(bi) > 0) by {
            assert(abs(comp(ray.direction, bi)) > 0);
            assert(ray.scale * abs(comp(ray.direction, bi)) > 0) by (nonlinear_arith)
                requires
                    ray.scale >= 1,
                    abs(comp(ray.direction, bi)) > 0,
            ;
        }
        if ray.active(a) && ray.num(a, icomp(k, a)) * ray.den(bi) <= ray.num(bi, icomp(k, bi)) * ray.den(a) {
            assert(ray.den(a) > 0) by {
                assert(ray.scale * abs(comp(ray.direction, a)) > 0) by (nonlinear_arith)
                    requires
                        ray.scale >= 1,
                        abs(comp(ray.direction, a)) > 0,
                ;
            }
            assert forall|c: int| 0 <= c < 3 implies ray.no_later(k, a, c) by {
                if ray.active(c) {
                    assert(ray.den(c) > 0) by {
                        assert(ray.scale * abs(comp(ray.direction, c)) > 0) by (nonlinear_arith)
                            requires
                                ray.scale >= 1,
                                abs(comp(ray.direction, c)) > 0,
                        ;
                    }
                    assert(ray.no_later(k, bi, c));
                    lemma_order_transitive(
                        ray.num(a, icomp(k, a)),
                        ray.den(a),
                        ray.num(bi, icomp(k, bi)),
                        ray.den(bi),
                        ray.num(c, icomp(k, c)),
                        ray.den(c),
                    );
                }
            }
            assert(ray.no_later(k, a, 0) && ray.no_later(k, a, 1) && ray.no_later(k, a, 2));
        }
        if ray.tied(k, a) {
            assert(ray.no_later(k, a, bi));
        }
    }
}

/// The exec state as a traversal state.
pub open spec fn state_of(cell: (i64, i64, i64), k: (i64, i64, i64)) -> (
    (int, int, int),
    (int, int, int),
) {
    ((cell.0 as int, cell.1 as int, cell.2 as int), (k.0 as int, k.1 as int, k.2 as int))
}

/// Walks the ray through the voxel grid, one cell boundary at a time, for at
/// most `raytrace_length` steps, and reports the first occupied cell it
/// enters: the cell, the exact entry point and the outward normal of the face
/// crossed. `None` when the budget runs out first.
pub fn raytrace_dda(ray: &Ray, raytrace_length: u32, world: &ExcavateManufacturateWorld) -> (r:
    Option<Hit>)
    requires
        ray.wf(),
        raytrace_length <= MAX_RAY_STEPS,
    ensures
        match (r, ray.trace(*world, ray.initial_state(), raytrace_length as nat)) {
            (Some(h), Some(st)) => ray.reports(st, h) && world.spec_is_occupied(h.cell),
            (None, None) => true,
            _ => false,
        },
{
    let s = ray.scale;
    assert(forall|a: int| 0 <= a < 3 ==> -MAX_RAY_EXTENT * s < #[trigger] comp(ray.origin, a) < MAX_RAY_EXTENT * s);
    assert(-MAX_RAY_EXTENT * s < comp(ray.origin, 0) < MAX_RAY_EXTENT * s);
    assert(-MAX_RAY_EXTENT * s < comp(ray.origin, 1) < MAX_RAY_EXTENT * s);
    assert(-MAX_RAY_EXTENT * s < comp(ray.origin, 2) < MAX_RAY_EXTENT * s);
    let mut cell: (i64, i64, i64) = (
        floor_div(ray.origin.0, s),
        floor_div(ray.origin.1, s),
        floor_div(ray.origin.2, s),
    );
    let mut k: (i64, i64, i64) = (0, 0, 0);
    let ghost init = ray.initial_state();
    assert(state_of(cell, k) == init);
    let mut i: u32 = 0;
    while i < raytrace_length
        invariant
            ray.wf(),
            raytrace_length <= MAX_RAY_STEPS,
            i <= raytrace_length,
            init == ray.initial_state(),
            0 <= k.0 <= i,
            0 <= k.1 <= i,
            0 <= k.2 <= i,
            -MAX_RAY_EXTENT - i <= cell.0 <= MAX_RAY_EXTENT + i,
            -MAX_RAY_EXTENT - i <= cell.1 <= MAX_RAY_EXTENT + i,
            -MAX_RAY_EXTENT - i <= cell.2 <= MAX_RAY_EXTENT + i,
            s == ray.scale,
            -MAX_RAY_EXTENT * s < ray.origin.0 < MAX_RAY_EXTENT * s,
            -MAX_RAY_EXTENT * s < ray.origin.1 < MAX_RAY_EXTENT * s,
            -MAX_RAY_EXTENT * s < ray.origin.2 < MAX_RAY_EXTENT * s,
            ray.trace(*world, init, raytrace_length as nat) == ray.trace(
                *world,
                state_of(cell, k),
                (raytrace_length - i) as nat,
            ),
        decreases raytrace_length - i,
    {
        let ghost st = state_of(cell, k);
        let nx = crossing_num(ray, 0, k.0);
        let ny = crossing_num(ray, 1, k.1);
        let nz = crossing_num(ray, 2, k.2);
        let dx = crossing_den(ray, 0);
        let dy = crossing_den(ray, 1);
        let dz = crossing_den(ray, 2);
        let ax = ray.direction.0 != 0;
        let ay = ray.direction.1 != 0;
        let az = ray.direction.2 != 0;
        assert(ax == ray.active(0) && ay == ray.active(1) && az == ray.active(2));
        // The axis whose next crossing comes first.
        let mut bn: i128 = if ax {
            nx
        } else if ay {
            ny
        } else {
            nz
        };
        let mut bd: i128 = if ax {
            dx
        } else if ay {
            dy
        } else {
            dz
        };
        let ghost mut bi: int = if ax {
            0
        } else if ay {
            1
        } else {
            2
        };
        if ay && !no_later_than(bn, bd, ny, dy) {
            bn = ny;
            bd = dy;
            proof {
                bi = 1;
            }
        }
        if az && !no_later_than(bn, bd, nz, dz) {
            bn = nz;
            bd = dz;
            proof {
                bi = 2;
            }
        }
        proof {
            assert(bn == ray.num(bi, icomp(st.1, bi)) && bd == ray.den(bi));
            assert(ray.active(bi));
            assert forall|c: int| 0 <= c < 3 implies #[trigger] ray.no_later(st.1, bi, c) by {
                if ray.active(c) && c != bi {
                    let (na, da) = (ray.num(bi, icomp(st.1, bi)), ray.den(bi));
                    let (nc, dc) = (ray.num(c, icomp(st.1, c)), ray.den(c));
                    // When z replaced the best so far, it came strictly
                    // earlier than that axis, which came no later than the
                    // one it had replaced.
                    if c == 0 && bi == 2 {
                        if ay && !(ray.num(0, icomp(st.1, 0)) * ray.den(1) <= ray.num(1, icomp(st.1, 1)) * ray.den(0)) {
                            lemma_order_transitive(
                                na, da,
                                ray.num(1, icomp(st.1, 1)), ray.den(1),
                                nc, dc,
                            );
                        }
                    }
                    if c == 1 && bi == 2 {
                        if ax && ray.num(0, icomp(st.1, 0)) * ray.den(1) <= ray.num(1, icomp(st.1, 1)) * ray.den(0) {
                            lemma_order_transitive(
                                na, da,
                                ray.num(0, icomp(st.1, 0)), ray.den(0),
                                nc, dc,
                            );
                        }
                    }
                }
            }
            lemma_tied_by_minimum(*ray, st.1, bi);
        }
        let tx = ax && no_later_than(nx, dx, bn, bd);
        let ty = ay && no_later_than(ny, dy, bn, bd);
        let tz = az && no_later_than(nz, dz, bn, bd);
        assert(tx == ray.tied(st.1, 0) && ty == ray.tied(st.1, 1) && tz == ray.tied(st.1, 2));
        let sx: i64 = if ray.direction.0 > 0 { 1 } else if ray.direction.0 < 0 { -1 } else { 0 };
        let sy: i64 = if ray.direction.1 > 0 { 1 } else if ray.direction.1 < 0 { -1 } else { 0 };
        let sz: i64 = if ray.direction.2 > 0 { 1 } else if ray.direction.2 < 0 { -1 } else { 0 };
        let next_cell = (
            if tx { cell.0 + sx } else { cell.0 },
            if ty { cell.1 + sy } else { cell.1 },
            if tz { cell.2 + sz } else { cell.2 },
        );
        let next_k = (
            if tx { k.0 + 1 } else { k.0 },
            if ty { k.1 + 1 } else { k.1 },
            if tz { k.2 + 1 } else { k.2 },
        );
        assert(state_of(next_cell, next_k) == ray.advance(st));
        let target = BlockPos { x: next_cell.0 as i32, y: next_cell.1 as i32, z: next_cell.2 as i32 };
        if world.is_occupied(target) {
            let (t_num, t_den) = if tx {
                (nx, dx)
            } else if ty {
                (ny, dy)
            } else {
                (nz, dz)
            };
            assert(t_num == ray.num(ray.first_tied(st.1), icomp(st.1, ray.first_tied(st.1))));
            assert(t_den == ray.den(ray.first_tied(st.1)));
            let o = ray.origin;
            let d = ray.direction;
            assert(-1125899906842624 < o.0 < 1125899906842624) by (nonlinear_arith)
                requires -MAX_RAY_EXTENT * s < o.0 < MAX_RAY_EXTENT * s, 1 <= s <= MAX_RAY_SCALE;
            assert(-1125899906842624 < o.1 < 1125899906842624) by (nonlinear_arith)
                requires -MAX_RAY_EXTENT * s < o.1 < MAX_RAY_EXTENT * s, 1 <= s <= MAX_RAY_SCALE;
            assert(-1125899906842624 < o.2 < 1125899906842624) by (nonlinear_arith)
                requires -MAX_RAY_EXTENT * s < o.2 < MAX_RAY_EXTENT * s, 1 <= s <= MAX_RAY_SCALE;
            assert(-MAX_RAY_DIRECTION <= comp(d, 0) <= MAX_RAY_DIRECTION);
            assert(-MAX_RAY_DIRECTION <= comp(d, 1) <= MAX_RAY_DIRECTION);
            assert(-MAX_RAY_DIRECTION <= comp(d, 2) <= MAX_RAY_DIRECTION);
            let ghost big: int = 1237940039285380274899124224;
            assert(-big <= o.0 * t_den <= big && -big <= o.1 * t_den <= big && -big <= o.2 * t_den <= big) by (nonlinear_arith)
                requires
                    -1125899906842624 < o.0 < 1125899906842624,
                    -1125899906842624 < o.1 < 1125899906842624,
                    -1125899906842624 < o.2 < 1125899906842624,
                    0 <= t_den <= 1099511627776,
                    big == 1237940039285380274899124224;
            let ghost huge: int = 4722366482869645213696;
            assert(-huge <= s * t_num <= huge) by (nonlinear_arith)
                requires
                    1 <= s <= MAX_RAY_SCALE,
                    -4503599627370496 < t_num < 4503599627370496,
                    huge == 4722366482869645213696;
            let st_num = s as i128 * t_num;
            let ghost top: int = 4951760157141521099596496896;
            assert(-top <= st_num * d.0 <= top && -top <= st_num * d.1 <= top && -top <= st_num * d.2 <= top) by (nonlinear_arith)
                requires
                    -huge <= st_num <= huge,
                    -MAX_RAY_DIRECTION <= d.0 <= MAX_RAY_DIRECTION,
                    -MAX_RAY_DIRECTION <= d.1 <= MAX_RAY_DIRECTION,
                    -MAX_RAY_DIRECTION <= d.2 <= MAX_RAY_DIRECTION,
                    huge == 4722366482869645213696,
                    top == 4951760157141521099596496896;
            assert(0 <= s * t_den <= 1152921504606846976) by (nonlinear_arith)
                requires
                    1 <= s <= MAX_RAY_SCALE,
                    0 <= t_den <= 1099511627776;
            let position = (
                o.0 as i128 * t_den + st_num * d.0 as i128,
                o.1 as i128 * t_den + st_num * d.1 as i128,
                o.2 as i128 * t_den + st_num * d.2 as i128,
            );
            let normal: (i32, i32, i32) = (
                if tx { -sx as i32 } else { 0 },
                if ty { -sy as i32 } else { 0 },
                if tz { -sz as i32 } else { 0 },
            );
            let hit = Hit { cell: target, position, denominator: s as i128 * t_den, normal };
            return Some(hit);
        }
        cell = next_cell;
        k = next_k;
        i = i + 1;
    }
    None
}

} // verus!

//! Exact ray intersection tests over the model's integer world coordinates.
//!
//! A ray is the segment `o + t * d` for rational parameters `0 <= t <=
//! MAX_TOI`, where `d` is an integer direction (conventionally of length
//! about `SCALE`, so the parameter counts roughly world units).  Both tests
//! treat their shape as solid: a ray starting inside hits at once.

use vstd::prelude::*;
use crate::units::{Vec3i, COORD_MAX};

verus! {

/// Maximum ray parameter: how many direction lengths a query may travel.
pub const MAX_TOI: i64 = 1000;

/// Whether the solid ball of radius `r` at `c` meets the ray.
///
/// Substituting `t` into `|o + t*d - c|^2 <= r^2` gives the quadratic
/// `a*t^2 - 2*b*t + (n - r^2) <= 0` with `a = |d|^2`, `b = dot(c - o, d)`
/// and `n = |c - o|^2`.  It has real solutions iff the discriminant
/// `disc = b^2 - a*(n - r^2)` is nonnegative; the solution interval
/// `[(b - sqrt disc) / a, (b + sqrt disc) / a]` reaches some `t >= 0` iff
/// `b >= 0` or the origin is inside the ball, and reaches some
/// `t <= MAX_TOI` iff `b <= a*MAX_TOI` or `(b - a*MAX_TOI)^2 <= disc`.
pub open spec fn ray_hits_sphere(o: Vec3i, d: Vec3i, c: Vec3i, r: int) -> bool {
    let bx = c.x - o.x;
    let by = c.y - o.y;
    let bz = c.z - o.z;
    let a = d.x * d.x + d.y * d.y + d.z * d.z;
    let b = bx * d.x + by * d.y + bz * d.z;
    let n = bx * bx + by * by + bz * bz;
    let disc = b * b - a * (n - r * r);
    &&& a > 0
    &&& disc >= 0
    &&& (b >= 0 || n <= r * r)
    &&& (b <= a * (MAX_TOI as int) || (b - a * (MAX_TOI as int)) * (b - a * (MAX_TOI as int))
        <= disc)
}

/// The rational parameter `tn / td` lies in `[0, MAX_TOI]` and puts the ray
/// point inside the solid ball of radius `r` at `c`: the hit quadratic of
/// `ray_hits_sphere`, evaluated at the parameter and scaled by `td^2`, is
/// nonpositive.
pub open spec fn sphere_param_ok(
    o: Vec3i,
    d: Vec3i,
    c: Vec3i,
    r: int,
    tn: int,
    td: int,
) -> bool {
    let bx = c.x - o.x;
    let by = c.y - o.y;
    let bz = c.z - o.z;
    let a = d.x * d.x + d.y * d.y + d.z * d.z;
    let b = bx * d.x + by * d.y + bz * d.z;
    let n = bx * bx + by * by + bz * bz;
    &&& td > 0
    &&& 0 <= tn
    &&& tn <= MAX_TOI * td
    &&& a * (tn * tn) - 2 * b * (tn * td) + (n - r * r) * (td * td) <= 0
}

/// The rational parameter `tn / td` lies in `[0, MAX_TOI]` and puts the ray
/// point inside the solid axis-aligned box at `c` with half extents
/// `hx, hy, hz` (every inequality is the containment scaled by `td`).
pub open spec fn aabb_param_ok(
    o: Vec3i,
    d: Vec3i,
    c: Vec3i,
    hx: int,
    hy: int,
    hz: int,
    tn: int,
    td: int,
) -> bool {
    &&& td > 0
    &&& 0 <= tn
    &&& tn <= MAX_TOI * td
    &&& -(hx * td) <= (c.x - o.x) * td - tn * d.x <= hx * td
    &&& -(hy * td) <= (c.y - o.y) * td - tn * d.y <= hy * td
    &&& -(hz * td) <= (c.z - o.z) * td - tn * d.z <= hz * td
}

/// Whether the solid axis-aligned box at `c` with half extents `hx, hy, hz`
/// meets the ray: some rational parameter within range puts the ray point
/// inside the box.
pub open spec fn ray_hits_aabb(o: Vec3i, d: Vec3i, c: Vec3i, hx: int, hy: int, hz: int) -> bool {
    exists|tn: int, td: int| aabb_param_ok(o, d, c, hx, hy, hz, tn, td)
}

/// `|x * y|` is bounded by the product of bounds.
proof fn lemma_mul_bound(x: int, y: int, bx: int, by: int)
    by (nonlinear_arith)
    requires
        -bx <= x <= bx,
        -by <= y <= by,
        0 <= bx,
        0 <= by,
    ensures
        -(bx * by) <= x * y <= bx * by,
{
}

/// A square is nonnegative.
proof fn lemma_square_nonneg(x: int)
    by (nonlinear_arith)
    ensures
        x * x >= 0,
{
}

/// A product of nonnegative factors is nonnegative.
proof fn lemma_nonneg_mul(x: int, y: int)
    by (nonlinear_arith)
    requires
        x >= 0,
        y >= 0,
    ensures
        x * y >= 0,
{
}

/// Multiplying by a positive factor preserves order.
proof fn lemma_mul_le_mono_pos(a: int, b: int, c: int)
    by (nonlinear_arith)
    requires
        a <= b,
        c > 0,
    ensures
        a * c <= b * c,
{
}

/// A product of positive factors is positive.
proof fn lemma_mul_pos(x: int, y: int)
    by (nonlinear_arith)
    requires
        x > 0,
        y > 0,
    ensures
        x * y > 0,
{
}

/// Dividing by a positive factor preserves order.
proof fn lemma_cancel_pos(a: int, b: int, c: int)
    by (nonlinear_arith)
    requires
        a * c <= b * c,
        c > 0,
    ensures
        a <= b,
{
}

/// Forward, positive axis: the scaled slab bounds of an axis with `di > 0`
/// imply the axis containment for the parameter `tn / dd`.
proof fn lemma_axis_fwd_pos(ci_oi: int, h: int, s: int, di: int, tn: int, dd: int)
    by (nonlinear_arith)
    requires
        di > 0,
        s > 0,
        dd == s * di,
        (ci_oi - h) * s <= tn,
        tn <= (ci_oi + h) * s,
    ensures
        -(h * dd) <= ci_oi * dd - tn * di <= h * dd,
{
}

/// Forward, negative axis: the scaled slab bounds of an axis with `di < 0`
/// imply the axis containment for the parameter `tn / dd`.
proof fn lemma_axis_fwd_neg(ci_oi: int, h: int, s: int, di: int, tn: int, dd: int)
    by (nonlinear_arith)
    requires
        di < 0,
        s > 0,
        dd == s * (-di),
        ((-ci_oi) - h) * s <= tn,
        tn <= ((-ci_oi) + h) * s,
    ensures
        -(h * dd) <= ci_oi * dd - tn * di <= h * dd,
{
}

/// Forward, degenerate axis: once the origin lies within the slab, the axis
/// containment holds for every parameter.
proof fn lemma_axis_fwd_zero(ci_oi: int, h: int, tn: int, dd: int, di: int)
    by (nonlinear_arith)
    requires
        dd > 0,
        di == 0,
        -h <= ci_oi <= h,
    ensures
        -(h * dd) <= ci_oi * dd - tn * di <= h * dd,
{
}

/// Reverse, positive axis: a parameter satisfying the axis containment lies
/// between the axis's scaled slab bounds.
proof fn lemma_axis_rev_pos(ci_oi: int, h: int, s: int, di: int, tn: int, td: int, dd: int)
    by (nonlinear_arith)
    requires
        di > 0,
        s > 0,
        td > 0,
        dd == s * di,
        -(h * td) <= ci_oi * td - tn * di <= h * td,
    ensures
        ((ci_oi - h) * s) * td <= tn * dd,
        tn * dd <= ((ci_oi + h) * s) * td,
{
}

/// Reverse, negative axis: a parameter satisfying the axis containment lies
/// between the axis's scaled slab bounds.
proof fn lemma_axis_rev_neg(ci_oi: int, h: int, s: int, di: int, tn: int, td: int, dd: int)
    by (nonlinear_arith)
    requires
        di < 0,
        s > 0,
        td > 0,
        dd == s * (-di),
        -(h * td) <= ci_oi * td - tn * di <= h * td,
    ensures
        (((-ci_oi) - h) * s) * td <= tn * dd,
        tn * dd <= (((-ci_oi) + h) * s) * td,
{
}

/// Reverse, degenerate axis: a parameter satisfying the axis containment
/// puts the origin within the slab.
proof fn lemma_axis_rev_zero(ci_oi: int, h: int, tn: int, td: int, di: int)
    by (nonlinear_arith)
    requires
        td > 0,
        di == 0,
        -(h * td) <= ci_oi * td - tn * di <= h * td,
    ensures
        -h <= ci_oi <= h,
{
}

/// A parameter within the overall range stays within it after rescaling to
/// the common denominator.
proof fn lemma_max_rev(tn: int, td: int, dd: int, mx: int)
    by (nonlinear_arith)
    requires
        tn <= mx * td,
        dd > 0,
    ensures
        tn * dd <= (mx * dd) * td,
{
}

/// Decide `ray_hits_sphere` exactly, in `i128` arithmetic.
pub fn hit_sphere(o: Vec3i, d: Vec3i, c: Vec3i, r: i64) -> (h: bool)
    requires
        o.bounded(),
        d.bounded(),
        c.bounded(),
        0 < r <= COORD_MAX,
    ensures
        h == ray_hits_sphere(o, d, c, r as int),
{
    let bx: i128 = (c.x as i128) - (o.x as i128);
    let by: i128 = (c.y as i128) - (o.y as i128);
    let bz: i128 = (c.z as i128) - (o.z as i128);
    let dx: i128 = d.x as i128;
    let dy: i128 = d.y as i128;
    let dz: i128 = d.z as i128;
    proof {
        lemma_mul_bound(dx as int, dx as int, 0x2000_0000, 0x2000_0000);
        lemma_mul_bound(dy as int, dy as int, 0x2000_0000, 0x2000_0000);
        lemma_mul_bound(dz as int, dz as int, 0x2000_0000, 0x2000_0000);
        lemma_square_nonneg(dx as int);
        lemma_square_nonneg(dy as int);
        lemma_square_nonneg(dz as int);
        lemma_mul_bound(bx as int, dx as int, 0x4000_0000, 0x2000_0000);
        lemma_mul_bound(by as int, dy as int, 0x4000_0000, 0x2000_0000);
        lemma_mul_bound(bz as int, dz as int, 0x4000_0000, 0x2000_0000);
        lemma_mul_bound(bx as int, bx as int, 0x4000_0000, 0x4000_0000);
        lemma_mul_bound(by as int, by as int, 0x4000_0000, 0x4000_0000);
        lemma_mul_bound(bz as int, bz as int, 0x4000_0000, 0x4000_0000);
        lemma_mul_bound(r as int, r as int, 0x2000_0000, 0x2000_0000);
    }
    let a: i128 = dx * dx + dy * dy + dz * dz;
    let b: i128 = bx * dx + by * dy + bz * dz;
    let n: i128 = bx * bx + by * by + bz * bz;
    let rr: i128 = (r as i128) * (r as i128);
    proof {
        lemma_mul_bound(
            b as int,
            b as int,
            0x2000_0000_0000_0000,
            0x2000_0000_0000_0000,
        );
        lemma_mul_bound(
            a as int,
            n as int - rr as int,
            0x1000_0000_0000_0000,
            0x4000_0000_0000_0000,
        );
    }
    let disc: i128 = b * b - a * (n - rr);
    if a == 0 {
        return false;
    }
    if disc < 0 {
        return false;
    }
    if !(b >= 0 || n <= rr) {
        return false;
    }
    proof {
        lemma_mul_bound(a as int, MAX_TOI as int, 0x1000_0000_0000_0000, 1024);
        lemma_nonneg_mul(a as int, MAX_TOI as int);
    }
    if b <= a * (MAX_TOI as i128) {
        return true;
    }
    let e: i128 = b - a * (MAX_TOI as i128);
    proof {
        lemma_mul_bound(e as int, e as int, 0x2000_0000_0000_0000, 0x2000_0000_0000_0000);
    }
    e * e <= disc
}

/// Every in-box parameter lies above each axis's scaled lower slab bound,
/// and so above the fold's maximum of them.
proof fn lemma_aabb_lower_bound(
    o: Vec3i,
    d: Vec3i,
    c: Vec3i,
    hx: int,
    hy: int,
    hz: int,
    sx: int,
    sy: int,
    sz: int,
    dd: int,
    lo_x: int,
    lo_y: int,
    lo_z: int,
    cur_lo: int,
    tn2: int,
    td2: int,
)
    requires
        aabb_param_ok(o, d, c, hx, hy, hz, tn2, td2),
        dd > 0,
        sx > 0,
        sy > 0,
        sz > 0,
        d.x > 0 ==> dd == sx * (d.x as int) && lo_x == ((c.x - o.x) - hx) * sx,
        d.x < 0 ==> dd == sx * (-(d.x as int)) && lo_x == ((o.x - c.x) - hx) * sx,
        d.y > 0 ==> dd == sy * (d.y as int) && lo_y == ((c.y - o.y) - hy) * sy,
        d.y < 0 ==> dd == sy * (-(d.y as int)) && lo_y == ((o.y - c.y) - hy) * sy,
        d.z > 0 ==> dd == sz * (d.z as int) && lo_z == ((c.z - o.z) - hz) * sz,
        d.z < 0 ==> dd == sz * (-(d.z as int)) && lo_z == ((o.z - c.z) - hz) * sz,
        cur_lo == 0 || (d.x != 0 && cur_lo == lo_x) || (d.y != 0 && cur_lo == lo_y)
            || (d.z != 0 && cur_lo == lo_z),
    ensures
        cur_lo * td2 <= tn2 * dd,
{
    lemma_nonneg_mul(tn2, dd);
    if d.x > 0 {
        lemma_axis_rev_pos(c.x - o.x, hx, sx, d.x as int, tn2, td2, dd);
    } else if d.x < 0 {
        lemma_axis_rev_neg(c.x - o.x, hx, sx, d.x as int, tn2, td2, dd);
    }
    if d.y > 0 {
        lemma_axis_rev_pos(c.y - o.y, hy, sy, d.y as int, tn2, td2, dd);
    } else if d.y < 0 {
        lemma_axis_rev_neg(c.y - o.y, hy, sy, d.y as int, tn2, td2, dd);
    }
    if d.z > 0 {
        lemma_axis_rev_pos(c.z - o.z, hz, sz, d.z as int, tn2, td2, dd);
    } else if d.z < 0 {
        lemma_axis_rev_neg(c.z - o.z, hz, sz, d.z as int, tn2, td2, dd);
    }
}

/// Every in-box parameter lies below each axis's scaled upper slab bound and
/// below the overall range, and so below the fold's minimum of them.
proof fn lemma_aabb_upper_bound(
    o: Vec3i,
    d: Vec3i,
    c: Vec3i,
    hx: int,
    hy: int,
    hz: int,
    sx: int,
    sy: int,
    sz: int,
    dd: int,
    hi_x: int,
    hi_y: int,
    hi_z: int,
    hi0: int,
    cur_hi: int,
    tn2: int,
    td2: int,
)
    requires
        aabb_param_ok(o, d, c, hx, hy, hz, tn2, td2),
        dd > 0,
        sx > 0,
        sy > 0,
        sz > 0,
        d.x > 0 ==> dd == sx * (d.x as int) && hi_x == ((c.x - o.x) + hx) * sx,
        d.x < 0 ==> dd == sx * (-(d.x as int)) && hi_x == ((o.x - c.x) + hx) * sx,
        d.y > 0 ==> dd == sy * (d.y as int) && hi_y == ((c.y - o.y) + hy) * sy,
        d.y < 0 ==> dd == sy * (-(d.y as int)) && hi_y == ((o.y - c.y) + hy) * sy,
        d.z > 0 ==> dd == sz * (d.z as int) && hi_z == ((c.z - o.z) + hz) * sz,
        d.z < 0 ==> dd == sz * (-(d.z as int)) && hi_z == ((o.z - c.z) + hz) * sz,
        hi0 == (MAX_TOI as int) * dd,
        cur_hi == hi0 || (d.x != 0 && cur_hi == hi_x) || (d.y != 0 && cur_hi == hi_y)
            || (d.z != 0 && cur_hi == hi_z),
    ensures
        tn2 * dd <= cur_hi * td2,
{
    lemma_max_rev(tn2, td2, dd, MAX_TOI as int);
    if d.x > 0 {
        lemma_axis_rev_pos(c.x - o.x, hx, sx, d.x as int, tn2, td2, dd);
    } else if d.x < 0 {
        lemma_axis_rev_neg(c.x - o.x, hx, sx, d.x as int, tn2, td2, dd);
    }
    if d.y > 0 {
        lemma_axis_rev_pos(c.y - o.y, hy, sy, d.y as int, tn2, td2, dd);
    } else if d.y < 0 {
        lemma_axis_rev_neg(c.y - o.y, hy, sy, d.y as int, tn2, td2, dd);
    }
    if d.z > 0 {
        lemma_axis_rev_pos(c.z - o.z, hz, sz, d.z as int, tn2, td2, dd);
    } else if d.z < 0 {
        lemma_axis_rev_neg(c.z - o.z, hz, sz, d.z as int, tn2, td2, dd);
    }
}

/// The fold's clipped interval end is itself an in-box parameter over the
/// common denominator.
proof fn lemma_aabb_witness(
    o: Vec3i,
    d: Vec3i,
    c: Vec3i,
    hx: int,
    hy: int,
    hz: int,
    sx: int,
    sy: int,
    sz: int,
    dd: int,
    lo_x: int,
    lo_y: int,
    lo_z: int,
    hi_x: int,
    hi_y: int,
    hi_z: int,
    hi0: int,
    cur_lo: int,
    cur_hi: int,
)
    requires
        dd > 0,
        sx > 0,
        sy > 0,
        sz > 0,
        hi0 == (MAX_TOI as int) * dd,
        d.x > 0 ==> dd == sx * (d.x as int) && lo_x == ((c.x - o.x) - hx) * sx
            && hi_x == ((c.x - o.x) + hx) * sx,
        d.x < 0 ==> dd == sx * (-(d.x as int)) && lo_x == ((o.x - c.x) - hx) * sx
            && hi_x == ((o.x - c.x) + hx) * sx,
        d.x == 0 ==> -hx <= c.x - o.x <= hx,
        d.y > 0 ==> dd == sy * (d.y as int) && lo_y == ((c.y - o.y) - hy) * sy
            && hi_y == ((c.y - o.y) + hy) * sy,
        d.y < 0 ==> dd == sy * (-(d.y as int)) && lo_y == ((o.y - c.y) - hy) * sy
            && hi_y == ((o.y - c.y) + hy) * sy,
        d.y == 0 ==> -hy <= c.y - o.y <= hy,
        d.z > 0 ==> dd == sz * (d.z as int) && lo_z == ((c.z - o.z) - hz) * sz
            && hi_z == ((c.z - o.z) + hz) * sz,
        d.z < 0 ==> dd == sz * (-(d.z as int)) && lo_z == ((o.z - c.z) - hz) * sz
            && hi_z == ((o.z - c.z) + hz) * sz,
        d.z == 0 ==> -hz <= c.z - o.z <= hz,
        d.x != 0 ==> lo_x <= cur_lo && cur_hi <= hi_x,
        d.y != 0 ==> lo_y <= cur_lo && cur_hi <= hi_y,
        d.z != 0 ==> lo_z <= cur_lo && cur_hi <= hi_z,
        0 <= cur_lo,
        cur_lo <= cur_hi,
        cur_hi <= hi0,
    ensures
        aabb_param_ok(o, d, c, hx, hy, hz, cur_lo, dd),
{
    if d.x == 0 {
        lemma_axis_fwd_zero(c.x - o.x, hx, cur_lo, dd, d.x as int);
    } else if d.x > 0 {
        lemma_axis_fwd_pos(c.x - o.x, hx, sx, d.x as int, cur_lo, dd);
    } else {
        lemma_axis_fwd_neg(c.x - o.x, hx, sx, d.x as int, cur_lo, dd);
    }
    if d.y == 0 {
        lemma_axis_fwd_zero(c.y - o.y, hy, cur_lo, dd, d.y as int);
    } else if d.y > 0 {
        lemma_axis_fwd_pos(c.y - o.y, hy, sy, d.y as int, cur_lo, dd);
    } else {
        lemma_axis_fwd_neg(c.y - o.y, hy, sy, d.y as int, cur_lo, dd);
    }
    if d.z == 0 {
        lemma_axis_fwd_zero(c.z - o.z, hz, cur_lo, dd, d.z as int);
    } else if d.z > 0 {
        lemma_axis_fwd_pos(c.z - o.z, hz, sz, d.z as int, cur_lo, dd);
    } else {
        lemma_axis_fwd_neg(c.z - o.z, hz, sz, d.z as int, cur_lo, dd);
    }
}

/// An in-box parameter stays one after rescaling to an equal fraction.
proof fn lemma_aabb_param_rescale(
    o: Vec3i,
    d: Vec3i,
    c: Vec3i,
    hx: int,
    hy: int,
    hz: int,
    tn: int,
    td: int,
    tn2: int,
    td2: int,
)
    requires
        aabb_param_ok(o, d, c, hx, hy, hz, tn, td),
        td2 > 0,
        tn2 * td == tn * td2,
    ensures
        aabb_param_ok(o, d, c, hx, hy, hz, tn2, td2),
{
    lemma_axis_rescale(c.x - o.x, d.x as int, hx, tn, td, tn2, td2);
    lemma_axis_rescale(c.y - o.y, d.y as int, hy, tn, td, tn2, td2);
    lemma_axis_rescale(c.z - o.z, d.z as int, hz, tn, td, tn2, td2);
    lemma_range_rescale(tn, td, tn2, td2, MAX_TOI as int);
}

/// Reject a ray whose degenerate axis puts the origin outside that axis's
/// slab: no parameter at all can satisfy the containment.
fn aabb_slab_reject(o: Vec3i, d: Vec3i, c: Vec3i, hx: i64, hy: i64, hz: i64) -> (rejected: bool)
    requires
        o.bounded(),
        d.bounded(),
        c.bounded(),
        0 <= hx <= COORD_MAX,
        0 <= hy <= COORD_MAX,
        0 <= hz <= COORD_MAX,
    ensures
        rejected ==> !ray_hits_aabb(o, d, c, hx as int, hy as int, hz as int),
        !rejected ==> {
            &&& d.x == 0 ==> -(hx as int) <= c.x - o.x <= hx as int
            &&& d.y == 0 ==> -(hy as int) <= c.y - o.y <= hy as int
            &&& d.z == 0 ==> -(hz as int) <= c.z - o.z <= hz as int
        },
{
    let ux: i128 = (c.x as i128) - (o.x as i128);
    let uy: i128 = (c.y as i128) - (o.y as i128);
    let uz: i128 = (c.z as i128) - (o.z as i128);
    if d.x == 0 && !(-(hx as i128) <= ux && ux <= hx as i128) {
        proof {
            assert forall|tn: int, td: int|
                !aabb_param_ok(o, d, c, hx as int, hy as int, hz as int, tn, td) by {
                if aabb_param_ok(o, d, c, hx as int, hy as int, hz as int, tn, td) {
                    lemma_axis_rev_zero(c.x - o.x, hx as int, tn, td, d.x as int);
                }
            }
        }
        return true;
    }
    if d.y == 0 && !(-(hy as i128) <= uy && uy <= hy as i128) {
        proof {
            assert forall|tn: int, td: int|
                !aabb_param_ok(o, d, c, hx as int, hy as int, hz as int, tn, td) by {
                if aabb_param_ok(o, d, c, hx as int, hy as int, hz as int, tn, td) {
                    lemma_axis_rev_zero(c.y - o.y, hy as int, tn, td, d.y as int);
                }
            }
        }
        return true;
    }
    if d.z == 0 && !(-(hz as i128) <= uz && uz <= hz as i128) {
        proof {
            assert forall|tn: int, td: int|
                !aabb_param_ok(o, d, c, hx as int, hy as int, hz as int, tn, td) by {
                if aabb_param_ok(o, d, c, hx as int, hy as int, hz as int, tn, td) {
                    lemma_axis_rev_zero(c.z - o.z, hz as int, tn, td, d.z as int);
                }
            }
        }
        return true;
    }
    false
}

/// Close out the slab fold: decide the hit from the clipped interval and
/// hand back the reduced entry fraction, with its containment and
/// minimality.
#[verifier::rlimit(100)]
#[verifier::spinoff_prover]
fn aabb_finish(
    o: Vec3i,
    d: Vec3i,
    c: Vec3i,
    hx: i64,
    hy: i64,
    hz: i64,
    sx: i128,
    sy: i128,
    sz: i128,
    dd: i128,
    lo_x: i128,
    lo_y: i128,
    lo_z: i128,
    hi_x: i128,
    hi_y: i128,
    hi_z: i128,
    hi0: i128,
    cur_lo: i128,
    cur_hi: i128,
    ln: i128,
    lm: i128,
) -> (e: Option<(i128, i128)>)
    requires
        dd > 0,
        sx > 0,
        sy > 0,
        sz > 0,
        hi0 as int == (MAX_TOI as int) * (dd as int),
        d.x > 0 ==> dd as int == (sx as int) * (d.x as int)
            && lo_x as int == ((c.x - o.x) - hx as int) * (sx as int)
            && hi_x as int == ((c.x - o.x) + hx as int) * (sx as int),
        d.x < 0 ==> dd as int == (sx as int) * (-(d.x as int))
            && lo_x as int == ((o.x - c.x) - hx as int) * (sx as int)
            && hi_x as int == ((o.x - c.x) + hx as int) * (sx as int),
        d.x == 0 ==> -(hx as int) <= c.x - o.x <= hx as int,
        d.y > 0 ==> dd as int == (sy as int) * (d.y as int)
            && lo_y as int == ((c.y - o.y) - hy as int) * (sy as int)
            && hi_y as int == ((c.y - o.y) + hy as int) * (sy as int),
        d.y < 0 ==> dd as int == (sy as int) * (-(d.y as int))
            && lo_y as int == ((o.y - c.y) - hy as int) * (sy as int)
            && hi_y as int == ((o.y - c.y) + hy as int) * (sy as int),
        d.y == 0 ==> -(hy as int) <= c.y - o.y <= hy as int,
        d.z > 0 ==> dd as int == (sz as int) * (d.z as int)
            && lo_z as int == ((c.z - o.z) - hz as int) * (sz as int)
            && hi_z as int == ((c.z - o.z) + hz as int) * (sz as int),
        d.z < 0 ==> dd as int == (sz as int) * (-(d.z as int))
            && lo_z as int == ((o.z - c.z) - hz as int) * (sz as int)
            && hi_z as int == ((o.z - c.z) + hz as int) * (sz as int),
        d.z == 0 ==> -(hz as int) <= c.z - o.z <= hz as int,
        d.x != 0 ==> lo_x <= cur_lo && cur_hi <= hi_x,
        d.y != 0 ==> lo_y <= cur_lo && cur_hi <= hi_y,
        d.z != 0 ==> lo_z <= cur_lo && cur_hi <= hi_z,
        0 <= cur_lo,
        cur_hi <= hi0,
        cur_lo == 0 || (d.x != 0 && cur_lo == lo_x) || (d.y != 0 && cur_lo == lo_y)
            || (d.z != 0 && cur_lo == lo_z),
        cur_hi == hi0 || (d.x != 0 && cur_hi == hi_x) || (d.y != 0 && cur_hi == hi_y)
            || (d.z != 0 && cur_hi == hi_z),
        (cur_lo as int) * (lm as int) == (ln as int) * (dd as int),
        0 < lm <= 0x400_0000,
        ln <= 0x800_0000,
    ensures
        e is Some <==> ray_hits_aabb(o, d, c, hx as int, hy as int, hz as int),
        e matches Some((tn, td)) ==> {
            &&& aabb_param_ok(o, d, c, hx as int, hy as int, hz as int, tn as int, td as int)
            &&& 0 < td <= 0x400_0000
            &&& tn <= 0x800_0000
            &&& forall|tn2: int, td2: int|
                #[trigger] aabb_param_ok(o, d, c, hx as int, hy as int, hz as int, tn2, td2)
                ==> (tn as int) * td2 <= tn2 * (td as int)
        },
{
    if cur_lo <= cur_hi {
        // The clipped interval is nonempty: its lower end, over the common
        // denominator, is a witness parameter, and equals the reduced
        // fraction that is returned.
        proof {
            lemma_aabb_witness(
                o, d, c, hx as int, hy as int, hz as int,
                sx as int, sy as int, sz as int, dd as int,
                lo_x as int, lo_y as int, lo_z as int,
                hi_x as int, hi_y as int, hi_z as int, hi0 as int,
                cur_lo as int, cur_hi as int,
            );
            lemma_aabb_param_rescale(
                o, d, c, hx as int, hy as int, hz as int,
                cur_lo as int, dd as int, ln as int, lm as int,
            );
            assert(aabb_param_ok(o, d, c, hx as int, hy as int, hz as int, ln as int, lm as int));
            // The reduced entry bounds every in-box parameter from below.
            assert forall|tn2: int, td2: int|
                #[trigger] aabb_param_ok(o, d, c, hx as int, hy as int, hz as int, tn2, td2)
                implies (ln as int) * td2 <= tn2 * (lm as int) by {
                lemma_aabb_lower_bound(
                    o, d, c, hx as int, hy as int, hz as int,
                    sx as int, sy as int, sz as int, dd as int,
                    lo_x as int, lo_y as int, lo_z as int, cur_lo as int,
                    tn2, td2,
                );
                lemma_min_rescale(cur_lo as int, dd as int, ln as int, lm as int, tn2, td2);
            }
        }
        Some((ln, lm))
    } else {
        // The clipped interval is empty: every candidate parameter violates
        // some pair of slab bounds.
        proof {
            assert forall|tn: int, td: int|
                !aabb_param_ok(o, d, c, hx as int, hy as int, hz as int, tn, td) by {
                if aabb_param_ok(o, d, c, hx as int, hy as int, hz as int, tn, td) {
                    lemma_aabb_lower_bound(
                        o, d, c, hx as int, hy as int, hz as int,
                        sx as int, sy as int, sz as int, dd as int,
                        lo_x as int, lo_y as int, lo_z as int, cur_lo as int,
                        tn, td,
                    );
                    lemma_aabb_upper_bound(
                        o, d, c, hx as int, hy as int, hz as int,
                        sx as int, sy as int, sz as int, dd as int,
                        hi_x as int, hi_y as int, hi_z as int, hi0 as int, cur_hi as int,
                        tn, td,
                    );
                    lemma_cancel_pos(cur_lo as int, cur_hi as int, td);
                    assert(false);
                }
            }
        }
        None
    }
}

/// Decide `ray_hits_aabb` exactly and hand back an entry parameter: slab
/// intersection over rational parameters rescaled to the common denominator
/// `|d.x| * |d.y| * |d.z|` (with `1` for a degenerate axis).  The result,
/// when the ray hits, is an in-range parameter `tn / td` at which the ray is
/// inside the box — the lower end of the clipped slab interval.
#[verifier::rlimit(100)]
#[verifier::spinoff_prover]
pub fn aabb_entry(o: Vec3i, d: Vec3i, c: Vec3i, hx: i64, hy: i64, hz: i64)
    -> (e: Option<(i128, i128)>)
    requires
        o.bounded(),
        d.bounded(),
        c.bounded(),
        0 <= hx <= COORD_MAX,
        0 <= hy <= COORD_MAX,
        0 <= hz <= COORD_MAX,
    ensures
        e is Some <==> ray_hits_aabb(o, d, c, hx as int, hy as int, hz as int),
        e matches Some((tn, td)) ==> {
            &&& aabb_param_ok(o, d, c, hx as int, hy as int, hz as int, tn as int, td as int)
            &&& 0 < td <= 0x400_0000
            &&& tn <= 0x800_0000
            &&& forall|tn2: int, td2: int|
                #[trigger] aabb_param_ok(o, d, c, hx as int, hy as int, hz as int, tn2, td2)
                ==> (tn as int) * td2 <= tn2 * (td as int)
        },
{
    // A degenerate axis admits no parameter at all when the origin lies
    // outside its slab.
    if aabb_slab_reject(o, d, c, hx, hy, hz) {
        return None;
    }
    let ux: i128 = (c.x as i128) - (o.x as i128);
    let uy: i128 = (c.y as i128) - (o.y as i128);
    let uz: i128 = (c.z as i128) - (o.z as i128);

    // Per-axis denominators (1 for a degenerate axis) and the common
    // denominator.
    let mx: i128 = if d.x == 0 { 1 } else if d.x > 0 { d.x as i128 } else { -(d.x as i128) };
    let my: i128 = if d.y == 0 { 1 } else if d.y > 0 { d.y as i128 } else { -(d.y as i128) };
    let mz: i128 = if d.z == 0 { 1 } else if d.z > 0 { d.z as i128 } else { -(d.z as i128) };
    proof {
        lemma_mul_bound(my as int, mz as int, 0x2000_0000, 0x2000_0000);
        lemma_mul_pos(my as int, mz as int);
        lemma_mul_bound(mx as int, mz as int, 0x2000_0000, 0x2000_0000);
        lemma_mul_pos(mx as int, mz as int);
        lemma_mul_bound(mx as int, my as int, 0x2000_0000, 0x2000_0000);
        lemma_mul_pos(mx as int, my as int);
    }
    let sx: i128 = my * mz;
    let sy: i128 = mx * mz;
    let sz: i128 = mx * my;
    proof {
        lemma_mul_bound(mx as int, sx as int, 0x2000_0000, 0x400_0000_0000_0000);
        lemma_mul_pos(mx as int, sx as int);
    }
    let dd: i128 = mx * sx;
    proof {
        assert(sx as int * mx as int == dd as int && sy as int * my as int == dd as int
            && sz as int * mz as int == dd as int) by (nonlinear_arith)
            requires
                sx as int == my as int * mz as int,
                sy as int == mx as int * mz as int,
                sz as int == mx as int * my as int,
                dd as int == mx as int * sx as int,
        ;
        lemma_mul_bound(
            MAX_TOI as int,
            dd as int,
            1024,
            (0x2000_0000 as int) * (0x400_0000_0000_0000 as int),
        );
        lemma_mul_pos(MAX_TOI as int, dd as int);
    }

    let mut cur_lo: i128 = 0;
    let mut cur_hi: i128 = (MAX_TOI as i128) * dd;
    let hi0: i128 = cur_hi;
    // The winning lower bound as a reduced fraction over its own axis
    // denominator: the returned entry parameter.
    let mut ln: i128 = 0;
    let mut lm: i128 = 1;

    // Per-axis slab bounds, rescaled to the common denominator.  A
    // degenerate axis contributes none: its slab was checked above.
    let wx: i128 = if d.x >= 0 { ux } else { -ux };
    let wy: i128 = if d.y >= 0 { uy } else { -uy };
    let wz: i128 = if d.z >= 0 { uz } else { -uz };
    let mut lo_x: i128 = 0;
    let mut hi_x: i128 = 0;
    if d.x != 0 {
        proof {
            lemma_mul_bound(wx as int - hx as int, sx as int, 0x8000_0000, 0x400_0000_0000_0000);
            lemma_mul_bound(wx as int + hx as int, sx as int, 0x8000_0000, 0x400_0000_0000_0000);
        }
        lo_x = (wx - hx as i128) * sx;
        hi_x = (wx + hx as i128) * sx;
        proof {
            assert((lo_x as int) * (mx as int) == ((wx as int) - (hx as int)) * (dd as int))
                by (nonlinear_arith)
                requires
                    lo_x as int == ((wx as int) - (hx as int)) * (sx as int),
                    (sx as int) * (mx as int) == dd as int,
            ;
        }
        if lo_x > cur_lo {
            cur_lo = lo_x;
            ln = wx - hx as i128;
            lm = mx;
        }
        if hi_x < cur_hi {
            cur_hi = hi_x;
        }
    }
    let mut lo_y: i128 = 0;
    let mut hi_y: i128 = 0;
    if d.y != 0 {
        proof {
            lemma_mul_bound(wy as int - hy as int, sy as int, 0x8000_0000, 0x400_0000_0000_0000);
            lemma_mul_bound(wy as int + hy as int, sy as int, 0x8000_0000, 0x400_0000_0000_0000);
        }
        lo_y = (wy - hy as i128) * sy;
        hi_y = (wy + hy as i128) * sy;
        proof {
            assert((lo_y as int) * (my as int) == ((wy as int) - (hy as int)) * (dd as int))
                by (nonlinear_arith)
                requires
                    lo_y as int == ((wy as int) - (hy as int)) * (sy as int),
                    (sy as int) * (my as int) == dd as int,
            ;
        }
        if lo_y > cur_lo {
            cur_lo = lo_y;
            ln = wy - hy as i128;
            lm = my;
        }
        if hi_y < cur_hi {
            cur_hi = hi_y;
        }
    }
    let mut lo_z: i128 = 0;
    let mut hi_z: i128 = 0;
    if d.z != 0 {
        proof {
            lemma_mul_bound(wz as int - hz as int, sz as int, 0x8000_0000, 0x400_0000_0000_0000);
            lemma_mul_bound(wz as int + hz as int, sz as int, 0x8000_0000, 0x400_0000_0000_0000);
        }
        lo_z = (wz - hz as i128) * sz;
        hi_z = (wz + hz as i128) * sz;
        proof {
            assert((lo_z as int) * (mz as int) == ((wz as int) - (hz as int)) * (dd as int))
                by (nonlinear_arith)
                requires
                    lo_z as int == ((wz as int) - (hz as int)) * (sz as int),
                    (sz as int) * (mz as int) == dd as int,
            ;
        }
        if lo_z > cur_lo {
            cur_lo = lo_z;
            ln = wz - hz as i128;
            lm = mz;
        }
        if hi_z < cur_hi {
            cur_hi = hi_z;
        }
    }
    proof {
        assert(cur_hi == hi0 || cur_hi == hi_x || cur_hi == hi_y || cur_hi == hi_z);
        assert((cur_lo == 0 && ln == 0 && lm == 1)
            || (d.x != 0 && cur_lo == lo_x && ln == wx - hx as i128 && lm == mx)
            || (d.y != 0 && cur_lo == lo_y && ln == wy - hy as i128 && lm == my)
            || (d.z != 0 && cur_lo == lo_z && ln == wz - hz as i128 && lm == mz));
        assert(lm as int > 0);
        if cur_lo == 0 {
            assert((cur_lo as int) * (lm as int) == (ln as int) * (dd as int))
                by (nonlinear_arith)
                requires
                    cur_lo as int == 0,
                    ln as int == 0,
            ;
        }
        assert((cur_lo as int) * (lm as int) == (ln as int) * (dd as int));
    }
    aabb_finish(
        o, d, c, hx, hy, hz, sx, sy, sz, dd, lo_x, lo_y, lo_z, hi_x, hi_y, hi_z, hi0, cur_lo,
        cur_hi, ln, lm,
    )
}

/// Whether the ray meets the solid axis-aligned box.
pub fn hit_aabb(o: Vec3i, d: Vec3i, c: Vec3i, hx: i64, hy: i64, hz: i64) -> (h: bool)
    requires
        o.bounded(),
        d.bounded(),
        c.bounded(),
        0 <= hx <= COORD_MAX,
        0 <= hy <= COORD_MAX,
        0 <= hz <= COORD_MAX,
    ensures
        h == ray_hits_aabb(o, d, c, hx as int, hy as int, hz as int),
{
    aabb_entry(o, d, c, hx, hy, hz).is_some()
}

/// The rational parameter `tn / td` lies in `[0, MAX_TOI]` and `p` is within
/// one integer unit per component of the exact ray point `o + (tn/td) * d`
/// (every inequality is the distance scaled by `td`).
pub open spec fn near_ray_point(o: Vec3i, d: Vec3i, p: Vec3i, tn: int, td: int) -> bool {
    &&& td > 0
    &&& 0 <= tn
    &&& tn <= MAX_TOI * td
    &&& -td <= p.x * td - (o.x * td + d.x * tn) <= td
    &&& -td <= p.y * td - (o.y * td + d.y * tn) <= td
    &&& -td <= p.z * td - (o.z * td + d.z * tn) <= td
}

/// `p` is within one integer unit per component of some point of the ray
/// segment.
pub open spec fn on_ray(o: Vec3i, d: Vec3i, p: Vec3i) -> bool {
    exists|tn: int, td: int| near_ray_point(o, d, p, tn, td)
}

/// The integer square root: the greatest `r` with `r * r <= n`.
pub fn isqrt_u128(n: u128) -> (r: u128)
    requires
        n < 0x4000_0000_0000_0000_0000_0000_0000_0000u128,
    ensures
        r * r <= n < (r + 1) * (r + 1),
        r < 0x8000_0000_0000_0000u128,
{
    let mut lo: u128 = 0;
    let mut hi: u128 = 0x8000_0000_0000_0000u128;
    proof {
        assert((hi as int) * (hi as int) > n as int);
    }
    while lo + 1 < hi
        invariant
            lo < hi <= 0x8000_0000_0000_0000u128,
            (lo as int) * (lo as int) <= n as int,
            (n as int) < (hi as int) * (hi as int),
        decreases hi - lo,
    {
        let mid: u128 = lo + (hi - lo) / 2;
        proof {
            lemma_mul_bound(mid as int, mid as int, 0x8000_0000_0000_0000, 0x8000_0000_0000_0000);
            lemma_nonneg_mul(mid as int, mid as int);
        }
        if mid * mid <= n {
            lo = mid;
        } else {
            hi = mid;
        }
    }
    lo
}

/// An entry parameter for the ray against the solid ball of radius `r` at
/// `c`: the first solution of the hit quadratic, rounded to the integer
/// square root and clamped into `[0, MAX_TOI]`.  The parameter is
/// well-formed whether or not the ray hits; when the ray hits, its ray point
/// lies inside the ball, and no in-ball parameter lies more than
/// `1 / |d|^2` below it (the integer square root's rounding).
pub fn sphere_entry(o: Vec3i, d: Vec3i, c: Vec3i, r: i64) -> (e: (i128, i128))
    requires
        o.bounded(),
        d.bounded(),
        c.bounded(),
        0 < r <= COORD_MAX,
        !(d.x == 0 && d.y == 0 && d.z == 0),
    ensures
        0 < e.1 <= 0x40_0000_0000_0000,
        e.1 as int == dir_norm2(d),
        0 <= e.0 <= (MAX_TOI as int) * (e.1 as int),
        e.0 <= 0x1_0000_0000_0000_0000,
        ray_hits_sphere(o, d, c, r as int)
            ==> sphere_param_ok(o, d, c, r as int, e.0 as int, e.1 as int),
        ray_hits_sphere(o, d, c, r as int) ==> forall|tn2: int, td2: int|
            #[trigger] sphere_param_ok(o, d, c, r as int, tn2, td2)
            ==> (e.0 as int) * td2 <= tn2 * (e.1 as int) + td2,
{
    let bx: i128 = (c.x as i128) - (o.x as i128);
    let by: i128 = (c.y as i128) - (o.y as i128);
    let bz: i128 = (c.z as i128) - (o.z as i128);
    let dx: i128 = d.x as i128;
    let dy: i128 = d.y as i128;
    let dz: i128 = d.z as i128;
    proof {
        lemma_square_nonneg(dx as int);
        lemma_square_nonneg(dy as int);
        lemma_square_nonneg(dz as int);
        lemma_square_pos(dx as int, dy as int, dz as int);
        lemma_mul_bound(dx as int, dx as int, 0x400_0000, 0x400_0000);
        lemma_mul_bound(dy as int, dy as int, 0x400_0000, 0x400_0000);
        lemma_mul_bound(dz as int, dz as int, 0x400_0000, 0x400_0000);
        lemma_mul_bound(bx as int, dx as int, 0x800_0000, 0x400_0000);
        lemma_mul_bound(by as int, dy as int, 0x800_0000, 0x400_0000);
        lemma_mul_bound(bz as int, dz as int, 0x800_0000, 0x400_0000);
        lemma_mul_bound(bx as int, bx as int, 0x800_0000, 0x800_0000);
        lemma_mul_bound(by as int, by as int, 0x800_0000, 0x800_0000);
        lemma_mul_bound(bz as int, bz as int, 0x800_0000, 0x800_0000);
        lemma_mul_bound(r as int, r as int, 0x400_0000, 0x400_0000);
    }
    let a: i128 = dx * dx + dy * dy + dz * dz;
    let b: i128 = bx * dx + by * dy + bz * dz;
    let n: i128 = bx * bx + by * by + bz * bz;
    let rr: i128 = (r as i128) * (r as i128);
    proof {
        lemma_mul_bound(
            b as int,
            b as int,
            0x2000_0000_0000_0000,
            0x2000_0000_0000_0000,
        );
        lemma_mul_bound(
            a as int,
            n as int - rr as int,
            0x1000_0000_0000_0000,
            0x4000_0000_0000_0000,
        );
    }
    let disc: i128 = b * b - a * (n - rr);
    let s: i128 = if disc > 0 {
        proof {
            assert(disc as int <= 0x2000_0000_0000_0000 * 0x2000_0000_0000_0000
                + 0x1000_0000_0000_0000 * 0x4000_0000_0000_0000);
            assert(disc < 0x4000_0000_0000_0000_0000_0000_0000_0000i128);
        }
        isqrt_u128(disc as u128) as i128
    } else {
        0
    };
    proof {
        lemma_mul_bound(MAX_TOI as int, a as int, 1024, 0x40_0000_0000_0000);
        lemma_mul_pos(MAX_TOI as int, a as int);
    }
    let m: i128 = (MAX_TOI as i128) * a;
    let t_raw: i128 = b - s;
    let tn: i128 = if t_raw < 0 {
        0
    } else if t_raw > m {
        m
    } else {
        t_raw
    };
    proof {
        if ray_hits_sphere(o, d, c, r as int) {
            let ai = a as int;
            let bi = b as int;
            let nri = (n as int) - (rr as int);
            let si = s as int;
            assert(si * si <= bi * bi - ai * nri);
            assert(bi * bi - ai * nri < (si + 1) * (si + 1));
            if t_raw < 0 {
                lemma_entry_zero(ai, bi, nri, si);
                assert(ai * ((0 as int) * (0 as int)) - 2 * bi * ((0 as int) * ai)
                    + nri * (ai * ai) <= 0) by (nonlinear_arith)
                    requires
                        nri * (ai * ai) <= 0,
                ;
            } else if t_raw > m {
                lemma_entry_clamped(ai, bi, nri, MAX_TOI as int);
            } else {
                lemma_entry_unclamped(ai, bi, nri, si);
            }
            assert(sphere_param_ok(o, d, c, r as int, tn as int, a as int));
            // No in-ball parameter lies more than one unit (over this
            // denominator) below the returned entry.
            assert forall|tn2: int, td2: int|
                #[trigger] sphere_param_ok(o, d, c, r as int, tn2, td2)
                implies (tn as int) * td2 <= tn2 * ai + td2 by {
                lemma_sphere_entry_floor(ai, bi, nri, si, tn2, td2);
                if t_raw < 0 {
                    lemma_nonneg_mul(tn2, ai);
                } else if t_raw > m {
                    lemma_mul_le_mono_pos((m as int) + 1, bi - si, td2);
                    assert(((m as int) + 1) * td2 == (m as int) * td2 + td2)
                        by (nonlinear_arith);
                }
            }
        }
    }
    (tn, a)
}

/// The unclamped entry parameter `(b - s) / a` puts the ray point inside
/// the ball: the quadratic collapses to `a * (s^2 - disc) <= 0`.
proof fn lemma_entry_unclamped(a: int, b: int, nr: int, s: int)
    by (nonlinear_arith)
    requires
        a > 0,
        0 <= s,
        s * s <= b * b - a * nr,
    ensures
        a * ((b - s) * (b - s)) - 2 * b * ((b - s) * a) + nr * (a * a) <= 0,
{
}

/// When the entry parameter clamps to zero the origin is inside the ball.
proof fn lemma_entry_zero(a: int, b: int, nr: int, s: int)
    by (nonlinear_arith)
    requires
        a > 0,
        0 <= s,
        s * s <= b * b - a * nr,
        b < s,
        b >= 0 || nr <= 0,
    ensures
        nr * (a * a) <= 0,
{
}

/// When the entry parameter clamps to the range end, the range end itself is
/// inside the ball.
proof fn lemma_entry_clamped(a: int, b: int, nr: int, t: int)
    by (nonlinear_arith)
    requires
        a > 0,
        (b - a * t) * (b - a * t) <= b * b - a * nr,
    ensures
        a * ((t * a) * (t * a)) - 2 * b * ((t * a) * a) + nr * (a * a) <= 0,
{
}

/// The rounded sphere entry is a floor: no in-ball parameter lies more than
/// `1 / td2`-scaled one unit below `(b - s) / a`, because `s` overshoots the
/// discriminant's square root by less than one.
proof fn lemma_sphere_entry_floor(a: int, b: int, nr: int, s: int, tn2: int, td2: int)
    requires
        a > 0,
        td2 > 0,
        s >= 0,
        a * (tn2 * tn2) - 2 * b * (tn2 * td2) + nr * (td2 * td2) <= 0,
        b * b - a * nr < (s + 1) * (s + 1),
    ensures
        (b - s) * td2 <= tn2 * a + td2,
{
    let u = a * tn2 - b * td2;
    let p1 = tn2 * td2;
    let p2 = tn2 * tn2;
    let p3 = td2 * td2;
    let qq = a * p2 - 2 * b * p1 + nr * p3;
    assert(qq <= 0);
    assert(a * qq <= 0) by (nonlinear_arith)
        requires
            qq <= 0,
            a > 0,
    ;
    // Expand both sides of the key identity over shared product atoms.
    assert(u * u == (a * tn2) * (a * tn2) - 2 * ((a * tn2) * (b * td2)) + (b * td2) * (b * td2))
        by (nonlinear_arith)
        requires
            u == a * tn2 - b * td2,
    ;
    assert((a * tn2) * (a * tn2) == (a * a) * p2) by (nonlinear_arith)
        requires
            p2 == tn2 * tn2,
    ;
    assert((a * tn2) * (b * td2) == (a * b) * p1) by (nonlinear_arith)
        requires
            p1 == tn2 * td2,
    ;
    assert((b * td2) * (b * td2) == (b * b) * p3) by (nonlinear_arith)
        requires
            p3 == td2 * td2,
    ;
    let x = a * p2;
    let y = b * p1;
    let z = nr * p3;
    assert(2 * y == 2 * b * p1) by (nonlinear_arith)
        requires
            y == b * p1,
    ;
    assert(qq == x - 2 * y + z);
    assert(a * qq == a * x - 2 * (a * y) + a * z) by (nonlinear_arith)
        requires
            qq == x - 2 * y + z,
    ;
    assert(a * x == (a * a) * p2) by (nonlinear_arith)
        requires
            x == a * p2,
    ;
    assert(a * y == (a * b) * p1) by (nonlinear_arith)
        requires
            y == b * p1,
    ;
    assert(a * z == (a * nr) * p3) by (nonlinear_arith)
        requires
            z == nr * p3,
    ;
    assert(a * qq == (a * a) * p2 - 2 * ((a * b) * p1) + (a * nr) * p3);
    assert((b * b - a * nr) * p3 == (b * b) * p3 - (a * nr) * p3) by (nonlinear_arith);
    assert(u * u <= (b * b - a * nr) * p3);
    assert(u * u < ((s + 1) * td2) * ((s + 1) * td2)) by (nonlinear_arith)
        requires
            u * u <= (b * b - a * nr) * (td2 * td2),
            b * b - a * nr < (s + 1) * (s + 1),
            td2 > 0,
    ;
    assert((s + 1) * td2 > 0) by (nonlinear_arith)
        requires
            s >= 0,
            td2 > 0,
    ;
    assert(u > -((s + 1) * td2)) by (nonlinear_arith)
        requires
            u * u < ((s + 1) * td2) * ((s + 1) * td2),
            (s + 1) * td2 > 0,
    ;
    assert((b - s) * td2 <= tn2 * a + td2) by (nonlinear_arith)
        requires
            u == a * tn2 - b * td2,
            u > -((s + 1) * td2),
            td2 > 0,
    ;
}

/// Rescaling a parameter to an equal fraction preserves an axis containment.
proof fn lemma_axis_rescale(w: int, di: int, h: int, tn: int, td: int, tn2: int, td2: int)
    by (nonlinear_arith)
    requires
        td > 0,
        td2 > 0,
        tn2 * td == tn * td2,
        -(h * td) <= w * td - tn * di <= h * td,
    ensures
        -(h * td2) <= w * td2 - tn2 * di <= h * td2,
{
}

/// Rescaling a parameter to an equal fraction preserves the range bounds.
proof fn lemma_range_rescale(tn: int, td: int, tn2: int, td2: int, mx: int)
    by (nonlinear_arith)
    requires
        td > 0,
        td2 > 0,
        tn2 * td == tn * td2,
        0 <= tn,
        tn <= mx * td,
    ensures
        0 <= tn2,
        tn2 <= mx * td2,
{
}

/// A lower bound established over the common denominator carries over to the
/// equal reduced fraction.
proof fn lemma_min_rescale(cur: int, dd: int, ln: int, lm: int, tn2: int, td2: int)
    by (nonlinear_arith)
    requires
        dd > 0,
        lm > 0,
        cur * lm == ln * dd,
        cur * td2 <= tn2 * dd,
    ensures
        ln * td2 <= tn2 * lm,
{
}

/// At least one of three squares is positive when some base is nonzero.
proof fn lemma_square_pos(x: int, y: int, z: int)
    by (nonlinear_arith)
    requires
        !(x == 0 && y == 0 && z == 0),
    ensures
        x * x + y * y + z * z > 0,
{
}

/// The division bound: a truncated quotient of the scaled offset stays
/// within `MAX_TOI` direction lengths.
proof fn lemma_q_bound(q: int, td: int, num: int, mag: int, tn: int)
    by (nonlinear_arith)
    requires
        td > 0,
        q * td <= num,
        num == mag * tn,
        0 <= mag,
        0 <= tn <= 1024 * td,
    ensures
        q <= 1024 * mag,
{
}

/// The rounding bound: adding the truncated per-component offset lands
/// within one unit of the exact ray point.
proof fn lemma_point_close(
    pi: int,
    oi: int,
    di: int,
    tn: int,
    td: int,
    q: int,
    mag: int,
    num: int,
)
    by (nonlinear_arith)
    requires
        td > 0,
        num == mag * tn,
        0 <= num - q * td < td,
        di >= 0 ==> mag == di && pi == oi + q,
        di < 0 ==> mag == -di && pi == oi - q,
    ensures
        -td <= pi * td - (oi * td + di * tn) <= td,
{
}

/// One component of the rounded ray point `o + (tn/td) * d`.
fn ray_point_comp(oi: i64, di: i64, tn: i128, td: i128) -> (pi: i64)
    requires
        -COORD_MAX <= oi <= COORD_MAX,
        -COORD_MAX <= di <= COORD_MAX,
        0 < td <= 0x2000_0000 * 0x400_0000_0000_0000,
        0 <= tn <= (MAX_TOI as int) * (td as int),
    ensures
        -(td as int) <= (pi as int) * td - ((oi as int) * td + (di as int) * tn) <= td as int,
{
    proof {
        lemma_mul_bound(
            MAX_TOI as int,
            td as int,
            1024,
            (0x2000_0000 as int) * (0x400_0000_0000_0000 as int),
        );
    }
    let mag: u128 = if di >= 0 {
        di as u128
    } else {
        (-(di as i128)) as u128
    };
    proof {
        lemma_mul_bound(
            mag as int,
            tn as int,
            0x2000_0000,
            1024 * ((0x2000_0000 as int) * (0x400_0000_0000_0000 as int)),
        );
        lemma_nonneg_mul(mag as int, tn as int);
    }
    let num: u128 = mag * (tn as u128);
    let q: u128 = num / (td as u128);
    proof {
        vstd::arithmetic::div_mod::lemma_fundamental_div_mod(num as int, td as int);
        vstd::arithmetic::div_mod::lemma_mod_division_less_than_divisor(num as int, td as int);
        assert(num as int == (td as int) * (q as int) + (num as int) % (td as int));
        assert(0 <= (num as int) % (td as int) < (td as int));
        assert((q as int) * (td as int) == (td as int) * (q as int)) by (nonlinear_arith);
        assert((q as int) * (td as int) <= num as int);
        assert(tn as int <= 1024 * (td as int)) by (nonlinear_arith)
            requires
                (tn as int) <= (MAX_TOI as int) * (td as int),
                (td as int) > 0,
                (MAX_TOI as int) == 1000,
        ;
        lemma_q_bound(q as int, td as int, num as int, mag as int, tn as int);
        lemma_mul_bound(1024, mag as int, 1024, 0x2000_0000);
        lemma_nonneg_mul(q as int, td as int);
    }
    let qi: i64 = q as i64;
    let pi: i64 = if di >= 0 {
        oi + qi
    } else {
        oi - qi
    };
    proof {
        lemma_point_close(
            pi as int,
            oi as int,
            di as int,
            tn as int,
            td as int,
            q as int,
            mag as int,
            num as int,
        );
    }
    pi
}

/// The rounded ray point `o + (tn/td) * d`: within one integer unit per
/// component of the exact point.
pub fn ray_point(o: Vec3i, d: Vec3i, tn: i128, td: i128) -> (p: Vec3i)
    requires
        o.bounded(),
        d.bounded(),
        0 < td <= 0x2000_0000 * 0x400_0000_0000_0000,
        0 <= tn <= (MAX_TOI as int) * (td as int),
    ensures
        near_ray_point(o, d, p, tn as int, td as int),
        on_ray(o, d, p),
{
    let p = Vec3i {
        x: ray_point_comp(o.x, d.x, tn, td),
        y: ray_point_comp(o.y, d.y, tn, td),
        z: ray_point_comp(o.z, d.z, tn, td),
    };
    proof {
        assert(near_ray_point(o, d, p, tn as int, td as int));
    }
    p
}


/// The squared length of a direction vector.
pub open spec fn dir_norm2(d: Vec3i) -> int {
    d.x * d.x + d.y * d.y + d.z * d.z
}

/// A nonzero direction has positive squared length.
pub proof fn lemma_dir_norm2_pos(d: Vec3i)
    requires
        !(d.x == 0 && d.y == 0 && d.z == 0),
    ensures
        dir_norm2(d) > 0,
{
    lemma_square_pos(d.x as int, d.y as int, d.z as int);
}

/// `tn / td` exceeds `tn2 / td2` by no more than `1 / a` (all denominators
/// and `a` positive; the inequality is cross-multiplied).
pub open spec fn le_within(tn: int, td: int, tn2: int, td2: int, a: int) -> bool {
    tn * (td2 * a) <= (tn2 * a + td2) * td
}

/// An exact lower entry is in particular a lower entry up to `1 / a`.
pub proof fn lemma_le_within_from_exact(tn: int, td: int, tn2: int, td2: int, a: int)
    requires
        td > 0,
        td2 > 0,
        a > 0,
        tn * td2 <= tn2 * td,
    ensures
        le_within(tn, td, tn2, td2, a),
{
    assert(tn * (td2 * a) == (tn * td2) * a) by (nonlinear_arith);
    assert((tn * td2) * a <= (tn2 * td) * a) by (nonlinear_arith)
        requires
            tn * td2 <= tn2 * td,
            a > 0,
    ;
    assert((tn2 * td) * a == (tn2 * a) * td) by (nonlinear_arith);
    assert((tn2 * a + td2) * td == (tn2 * a) * td + td2 * td) by (nonlinear_arith);
    assert(td2 * td > 0) by (nonlinear_arith)
        requires
            td2 > 0,
            td > 0,
    ;
}

/// The sphere entry's floor bound, restated over its own denominator `a`.
pub proof fn lemma_le_within_from_sphere(tn: int, a: int, tn2: int, td2: int)
    requires
        a > 0,
        td2 > 0,
        tn * td2 <= tn2 * a + td2,
    ensures
        le_within(tn, a, tn2, td2, a),
{
    assert(tn * (td2 * a) == (tn * td2) * a) by (nonlinear_arith);
    assert((tn * td2) * a <= (tn2 * a + td2) * a) by (nonlinear_arith)
        requires
            tn * td2 <= tn2 * a + td2,
            a > 0,
    ;
}

/// Exact transitivity of the cross-multiplied fraction order.
pub proof fn lemma_frac_le_trans(an: int, ad: int, bn: int, bd: int, cn: int, cd: int)
    requires
        ad > 0,
        bd > 0,
        cd > 0,
        an * bd <= bn * ad,
        bn * cd <= cn * bd,
    ensures
        an * cd <= cn * ad,
{
    assert((an * bd) * cd <= (bn * ad) * cd) by (nonlinear_arith)
        requires
            an * bd <= bn * ad,
            cd > 0,
    ;
    assert((bn * ad) * cd == ad * (bn * cd)) by (nonlinear_arith);
    assert(ad * (bn * cd) <= ad * (cn * bd)) by (nonlinear_arith)
        requires
            bn * cd <= cn * bd,
            ad > 0,
    ;
    assert(ad * (cn * bd) == (cn * ad) * bd) by (nonlinear_arith);
    assert((an * bd) * cd == (an * cd) * bd) by (nonlinear_arith);
    lemma_cancel_pos(an * cd, cn * ad, bd);
}

/// A fraction below a near-lower entry is itself a near-lower entry.
pub proof fn lemma_le_within_trans(xn: int, xd: int, yn: int, yd: int, tn2: int, td2: int, a: int)
    requires
        xd > 0,
        yd > 0,
        td2 > 0,
        a > 0,
        xn * yd <= yn * xd,
        le_within(yn, yd, tn2, td2, a),
    ensures
        le_within(xn, xd, tn2, td2, a),
{
    let k = tn2 * a + td2;
    let w = td2 * a;
    assert(w > 0) by (nonlinear_arith)
        requires
            w == td2 * a,
            td2 > 0,
            a > 0,
    ;
    assert((xn * yd) * w <= (yn * xd) * w) by (nonlinear_arith)
        requires
            xn * yd <= yn * xd,
            w > 0,
    ;
    assert((yn * xd) * w == xd * (yn * w)) by (nonlinear_arith);
    assert(xd * (yn * w) <= xd * (k * yd)) by (nonlinear_arith)
        requires
            yn * w <= k * yd,
            xd > 0,
    ;
    assert(xd * (k * yd) == (k * xd) * yd) by (nonlinear_arith);
    assert((xn * yd) * w == (xn * w) * yd) by (nonlinear_arith);
    lemma_cancel_pos(xn * w, k * xd, yd);
}

/// Order two entry fractions exactly by cross-multiplication.
pub fn frac_le(an: i128, ad: i128, bn: i128, bd: i128) -> (r: bool)
    requires
        0 < ad <= 0x40_0000_0000_0000,
        0 < bd <= 0x40_0000_0000_0000,
        0 <= an <= 0x1_0000_0000_0000_0000,
        0 <= bn <= 0x1_0000_0000_0000_0000,
    ensures
        r == ((an as int) * (bd as int) <= (bn as int) * (ad as int)),
{
    proof {
        lemma_mul_bound(an as int, bd as int, 0x1_0000_0000_0000_0000, 0x40_0000_0000_0000);
        lemma_mul_bound(bn as int, ad as int, 0x1_0000_0000_0000_0000, 0x40_0000_0000_0000);
    }
    an * bd <= bn * ad
}

} // verus!

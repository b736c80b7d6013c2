//! Spatial queries against the simulation: resolving a world-space ray to
//! the nearest body or surface point it meets.  Queries run under the same
//! exclusive lock as stepping, so any result reflects a complete, consistent
//! step.

use vstd::prelude::*;
use crate::kvlist::{lemma_kv_contains, lemma_kv_lookup};
use crate::phys::{body_ok, Body, BodyRef, Floor, PhysicalWorld, ShapeKind};
use crate::raycast::{
    aabb_entry, aabb_param_ok, dir_norm2, frac_le, hit_sphere, le_within,
    lemma_dir_norm2_pos, lemma_le_within_from_exact, lemma_le_within_from_sphere,
    lemma_frac_le_trans, lemma_le_within_trans, near_ray_point, ray_hits_aabb, ray_hits_sphere,
    ray_point, sphere_entry, sphere_param_ok, MAX_TOI,
};
use crate::units::Vec3i;

verus! {

/// Whether the ray meets a body's collision shape.
pub open spec fn ray_hits_body(o: Vec3i, d: Vec3i, b: Body) -> bool {
    match b.shape {
        ShapeKind::Sphere { radius } => ray_hits_sphere(o, d, b.pose.pos, radius as int),
        ShapeKind::Cuboid { hx, hy, hz } => ray_hits_aabb(
            o,
            d,
            b.pose.pos,
            hx as int,
            hy as int,
            hz as int,
        ),
    }
}

/// Whether the ray meets a standalone floor collider.
pub open spec fn ray_hits_floor(o: Vec3i, d: Vec3i, f: Floor) -> bool {
    ray_hits_aabb(o, d, f.center, f.half.x as int, f.half.y as int, f.half.z as int)
}

/// The rational ray parameter `tn / td` puts the ray point inside the body's
/// collision shape, within the maximum distance.
pub open spec fn param_in_body(o: Vec3i, d: Vec3i, b: Body, tn: int, td: int) -> bool {
    match b.shape {
        ShapeKind::Sphere { radius } => sphere_param_ok(o, d, b.pose.pos, radius as int, tn, td),
        ShapeKind::Cuboid { hx, hy, hz } => aabb_param_ok(
            o,
            d,
            b.pose.pos,
            hx as int,
            hy as int,
            hz as int,
            tn,
            td,
        ),
    }
}

/// The rational ray parameter `tn / td` puts the ray point inside a floor
/// collider, within the maximum distance.
pub open spec fn param_in_floor(o: Vec3i, d: Vec3i, f: Floor, tn: int, td: int) -> bool {
    aabb_param_ok(o, d, f.center, f.half.x as int, f.half.y as int, f.half.z as int, tn, td)
}

/// No hit body of the simulation admits a ray parameter more than
/// `1 / |d|^2` below `tn / td`: up to the sphere entry's integer-square-root
/// rounding (box entries are exact), `tn / td` is the nearest body hit.
pub open spec fn no_nearer_body_hit(
    w: PhysicalWorld,
    o: Vec3i,
    d: Vec3i,
    tn: int,
    td: int,
) -> bool {
    forall|k: u64, tn2: int, td2: int|
        w.bodies@.contains_key(k) && ray_hits_body(o, d, w.bodies@[k])
        && #[trigger] param_in_body(o, d, w.bodies@[k], tn2, td2)
        ==> le_within(tn, td, tn2, td2, dir_norm2(d))
}

/// No hit collider of the simulation, body or floor, admits a ray parameter
/// more than `1 / |d|^2` below `tn / td`.
pub open spec fn no_nearer_hit(w: PhysicalWorld, o: Vec3i, d: Vec3i, tn: int, td: int) -> bool {
    &&& no_nearer_body_hit(w, o, d, tn, td)
    &&& forall|i: int, tn2: int, td2: int|
        0 <= i < w.floors@.len() && ray_hits_floor(o, d, w.floors@[i])
        && #[trigger] param_in_floor(o, d, w.floors@[i], tn2, td2)
        ==> le_within(tn, td, tn2, td2, dir_norm2(d))
}

/// The parameter `tn / td` puts the ray inside this body's shape, and no hit
/// collider, body or floor, admits a parameter more than `1 / |d|^2` below
/// it.
pub open spec fn body_entry_param(
    w: PhysicalWorld,
    o: Vec3i,
    d: Vec3i,
    b: BodyRef,
    tn: int,
    td: int,
) -> bool {
    &&& param_in_body(o, d, w.bodies@[b.id], tn, td)
    &&& no_nearer_hit(w, o, d, tn, td)
}

/// `b` is a hit body carrying an entry parameter that no hit collider, body
/// or floor, undercuts by more than `1 / |d|^2`: `b` is the nearest hit on
/// the whole ray, up to the sphere entry's rounding.
pub open spec fn nearest_body_hit(w: PhysicalWorld, o: Vec3i, d: Vec3i, b: BodyRef) -> bool {
    &&& w.bodies@.contains_key(b.id)
    &&& ray_hits_body(o, d, w.bodies@[b.id])
    &&& exists|tn: int, td: int| #[trigger] body_entry_param(w, o, d, b, tn, td)
}

/// Witness introduction for `nearest_body_hit`.
proof fn lemma_nearest_body_intro(
    w: PhysicalWorld,
    o: Vec3i,
    d: Vec3i,
    b: BodyRef,
    tn: int,
    td: int,
)
    requires
        w.bodies@.contains_key(b.id),
        ray_hits_body(o, d, w.bodies@[b.id]),
        body_entry_param(w, o, d, b, tn, td),
    ensures
        nearest_body_hit(w, o, d, b),
{
    assert(exists|tn2: int, td2: int| #[trigger] body_entry_param(w, o, d, b, tn2, td2));
}

/// The parameter `tn / td` puts the ray inside this hit floor, and no hit
/// body admits a parameter more than `1 / |d|^2` below it: the nearest
/// collider on the ray is a parentless floor.
pub open spec fn occluding_floor_param(
    w: PhysicalWorld,
    o: Vec3i,
    d: Vec3i,
    i: int,
    tn: int,
    td: int,
) -> bool {
    &&& 0 <= i < w.floors@.len()
    &&& ray_hits_floor(o, d, w.floors@[i])
    &&& param_in_floor(o, d, w.floors@[i], tn, td)
    &&& no_nearer_body_hit(w, o, d, tn, td)
}

/// Some hit floor stands at or before every hit body on the ray (within the
/// rounding): the nearest collider is a floor, which owns no body.
pub open spec fn floor_occludes(w: PhysicalWorld, o: Vec3i, d: Vec3i) -> bool {
    exists|i: int, tn: int, td: int| #[trigger] occluding_floor_param(w, o, d, i, tn, td)
}

/// Witness introduction for `floor_occludes`.
proof fn lemma_floor_occludes_intro(
    w: PhysicalWorld,
    o: Vec3i,
    d: Vec3i,
    i: int,
    tn: int,
    td: int,
)
    requires
        occluding_floor_param(w, o, d, i, tn, td),
    ensures
        floor_occludes(w, o, d),
{
    assert(exists|i2: int, tn2: int, td2: int|
        #[trigger] occluding_floor_param(w, o, d, i2, tn2, td2));
}

/// `p` is within one integer unit per component of the ray point at `tn/td`,
/// and that ray point lies inside one of the simulation's colliders.
pub open spec fn near_hit_point(
    w: PhysicalWorld,
    o: Vec3i,
    d: Vec3i,
    p: Vec3i,
    tn: int,
    td: int,
) -> bool {
    &&& near_ray_point(o, d, p, tn, td)
    &&& ((exists|k: u64|
            #[trigger] w.bodies@.contains_key(k) && param_in_body(o, d, w.bodies@[k], tn, td))
        || (exists|i: int|
            0 <= i < w.floors@.len() && param_in_floor(o, d, #[trigger] w.floors@[i], tn, td)))
}

/// A resolved point is within one integer unit per component of a ray point
/// inside one of the hit colliders, and no hit collider lies more than
/// `1 / |d|^2` nearer: the point is the nearest hit, up to the model's
/// roundings.
pub open spec fn resolves_near_hit(w: PhysicalWorld, o: Vec3i, d: Vec3i, r: Option<Vec3i>) -> bool {
    r is Some ==> exists|tn: int, td: int|
        #[trigger] near_hit_point(w, o, d, r.unwrap(), tn, td) && no_nearer_hit(w, o, d, tn, td)
}

/// Witness introduction for `resolves_near_hit`.
proof fn lemma_resolves_intro(w: PhysicalWorld, o: Vec3i, d: Vec3i, p: Vec3i, tn: int, td: int)
    requires
        near_hit_point(w, o, d, p, tn, td),
        no_nearer_hit(w, o, d, tn, td),
    ensures
        resolves_near_hit(w, o, d, Some(p)),
{
    assert(Some(p).unwrap() == p);
    assert(exists|tn2: int, td2: int|
        #[trigger] near_hit_point(w, o, d, Some(p).unwrap(), tn2, td2)
        && no_nearer_hit(w, o, d, tn2, td2));
}

/// The ray's entry parameter into one body's shape, when the ray hits it: an
/// in-shape parameter that no in-shape parameter of this body undercuts by
/// more than `1 / |d|^2`.
fn body_entry(o: Vec3i, d: Vec3i, b: &Body) -> (e: Option<(i128, i128)>)
    requires
        o.bounded(),
        d.bounded(),
        body_ok(*b),
        !(d.x == 0 && d.y == 0 && d.z == 0),
    ensures
        e is Some <==> ray_hits_body(o, d, *b),
        e matches Some((tn, td)) ==> {
            &&& param_in_body(o, d, *b, tn as int, td as int)
            &&& 0 < td <= 0x40_0000_0000_0000
            &&& 0 <= tn <= 0x1_0000_0000_0000_0000
            &&& tn as int <= (MAX_TOI as int) * (td as int)
            &&& forall|tn2: int, td2: int| #[trigger] param_in_body(o, d, *b, tn2, td2)
                ==> le_within(tn as int, td as int, tn2, td2, dir_norm2(d))
        },
{
    proof {
        lemma_dir_norm2_pos(d);
    }
    match b.shape {
        ShapeKind::Sphere { radius } => {
            if hit_sphere(o, d, b.pose.pos, radius) {
                let (tn, td) = sphere_entry(o, d, b.pose.pos, radius);
                proof {
                    assert forall|tn2: int, td2: int| #[trigger] param_in_body(o, d, *b, tn2, td2)
                        implies le_within(tn as int, td as int, tn2, td2, dir_norm2(d)) by {
                        lemma_le_within_from_sphere(tn as int, td as int, tn2, td2);
                    }
                }
                Some((tn, td))
            } else {
                None
            }
        }
        ShapeKind::Cuboid { hx, hy, hz } => {
            match aabb_entry(o, d, b.pose.pos, hx, hy, hz) {
                Some((tn, td)) => {
                    proof {
                        assert forall|tn2: int, td2: int|
                            #[trigger] param_in_body(o, d, *b, tn2, td2)
                            implies le_within(tn as int, td as int, tn2, td2, dir_norm2(d)) by {
                            lemma_le_within_from_exact(
                                tn as int, td as int, tn2, td2, dir_norm2(d),
                            );
                        }
                    }
                    Some((tn, td))
                }
                None => None,
            }
        }
    }
}

impl PhysicalWorld {
    /// Resolve the ray to the body owning the nearest hit collider: the
    /// returned body is hit and no collider — body or standalone floor —
    /// lies more than `1 / |d|^2` nearer on the ray.  Nothing resolves when
    /// the ray meets no body, or when the nearest collider is a parentless
    /// floor, which occludes the bodies behind it.
    pub fn body_raycast(&self, origin: Vec3i, direction: Vec3i) -> (r: Option<BodyRef>)
        requires
            self.wf(),
            origin.bounded(),
            direction.bounded(),
            !(direction.x == 0 && direction.y == 0 && direction.z == 0),
        ensures
            r matches Some(b) ==> nearest_body_hit(*self, origin, direction, b),
            r is None ==> (forall|k: u64| #[trigger] self.bodies@.contains_key(k)
                ==> !ray_hits_body(origin, direction, self.bodies@[k]))
                || floor_occludes(*self, origin, direction),
    {
        proof {
            lemma_dir_norm2_pos(direction);
        }
        let ghost a = dir_norm2(direction);
        let ghost entries = self.bodies.entries@;
        let n = self.bodies.entries.len();
        let mut i: usize = 0;
        let mut best: Option<(BodyRef, i128, i128)> = None;
        while i < n
            invariant
                self.wf(),
                origin.bounded(),
                direction.bounded(),
                !(direction.x == 0 && direction.y == 0 && direction.z == 0),
                a == dir_norm2(direction),
                a > 0,
                i <= n,
                n == entries.len(),
                entries == self.bodies.entries@,
                best is None ==> forall|j: int| 0 <= j < i
                    ==> !ray_hits_body(origin, direction, (#[trigger] entries[j]).1),
                best matches Some((b, tn, td)) ==> {
                    &&& self.bodies@.contains_key(b.id)
                    &&& ray_hits_body(origin, direction, self.bodies@[b.id])
                    &&& param_in_body(origin, direction, self.bodies@[b.id], tn as int, td as int)
                    &&& 0 < td <= 0x40_0000_0000_0000
                    &&& 0 <= tn <= 0x1_0000_0000_0000_0000
                    &&& forall|j: int, tn2: int, td2: int| 0 <= j < i
                        && ray_hits_body(origin, direction, entries[j].1)
                        && #[trigger] param_in_body(origin, direction, entries[j].1, tn2, td2)
                        ==> le_within(tn as int, td as int, tn2, td2, a)
                },
            decreases n - i,
        {
            proof {
                lemma_kv_lookup(entries, i as int);
                assert(self.bodies@.contains_key(entries[i as int].0));
                assert(body_ok(entries[i as int].1));
            }
            let cand = body_entry(origin, direction, &self.bodies.entries[i].1);
            match cand {
                None => {},
                Some((en, ed)) => {
                    let here = BodyRef { id: self.bodies.entries[i].0 };
                    match best {
                        None => {
                            best = Some((here, en, ed));
                            proof {
                                assert forall|j: int, tn2: int, td2: int| 0 <= j < i + 1
                                    && ray_hits_body(origin, direction, entries[j].1)
                                    && #[trigger] param_in_body(origin, direction, entries[j].1, tn2, td2)
                                    implies le_within(en as int, ed as int, tn2, td2, a) by {
                                }
                            }
                        },
                        Some((_bb, btn, btd)) => {
                            if frac_le(btn, btd, en, ed) {
                                proof {
                                    assert forall|j: int, tn2: int, td2: int| 0 <= j < i + 1
                                        && ray_hits_body(origin, direction, entries[j].1)
                                        && #[trigger] param_in_body(origin, direction, entries[j].1, tn2, td2)
                                        implies le_within(btn as int, btd as int, tn2, td2, a) by {
                                        if j == i {
                                            assert(le_within(en as int, ed as int, tn2, td2, a));
                                            lemma_le_within_trans(
                                                btn as int, btd as int, en as int, ed as int,
                                                tn2, td2, a,
                                            );
                                        }
                                    }
                                }
                            } else {
                                best = Some((here, en, ed));
                                proof {
                                    assert forall|j: int, tn2: int, td2: int| 0 <= j < i + 1
                                        && ray_hits_body(origin, direction, entries[j].1)
                                        && #[trigger] param_in_body(origin, direction, entries[j].1, tn2, td2)
                                        implies le_within(en as int, ed as int, tn2, td2, a) by {
                                        if j < i {
                                            assert(le_within(btn as int, btd as int, tn2, td2, a));
                                            lemma_le_within_trans(
                                                en as int, ed as int, btn as int, btd as int,
                                                tn2, td2, a,
                                            );
                                        }
                                    }
                                }
                            }
                        },
                    }
                },
            }
            i = i + 1;
        }
        let (b, btn, btd) = match best {
            None => {
                proof {
                    assert forall|k: u64| #[trigger] self.bodies@.contains_key(k)
                        implies !ray_hits_body(origin, direction, self.bodies@[k]) by {
                        lemma_kv_contains(entries, k);
                        let j = choose|j: int| 0 <= j < entries.len() && entries[j].0 == k;
                        lemma_kv_lookup(entries, j);
                    }
                }
                return None;
            },
            Some(bb) => bb,
        };
        proof {
            assert forall|k: u64, tn2: int, td2: int|
                self.bodies@.contains_key(k)
                && ray_hits_body(origin, direction, self.bodies@[k])
                && #[trigger] param_in_body(origin, direction, self.bodies@[k], tn2, td2)
                implies le_within(btn as int, btd as int, tn2, td2, a) by {
                lemma_kv_contains(entries, k);
                let j = choose|j: int| 0 <= j < entries.len() && entries[j].0 == k;
                lemma_kv_lookup(entries, j);
                assert(entries[j].1 == self.bodies@[k]);
            }
            assert(no_nearer_body_hit(*self, origin, direction, btn as int, btd as int));
        }

        // The nearest hit floor, if any: a floor standing at or before the
        // body occludes it, as a parentless collider the engine's nearest-hit
        // query would resolve first.
        let fn_ = self.floors.len();
        let mut fi: usize = 0;
        let mut fbest: Option<(i128, i128)> = None;
        let ghost mut fbi: int = 0;
        while fi < fn_
            invariant
                self.wf(),
                origin.bounded(),
                direction.bounded(),
                !(direction.x == 0 && direction.y == 0 && direction.z == 0),
                a == dir_norm2(direction),
                a > 0,
                fi <= fn_,
                fn_ == self.floors@.len(),
                fbest is None ==> forall|j: int| 0 <= j < fi
                    ==> !ray_hits_floor(origin, direction, #[trigger] self.floors@[j]),
                fbest matches Some((ftn, ftd)) ==> {
                    &&& 0 <= fbi < self.floors@.len()
                    &&& ray_hits_floor(origin, direction, self.floors@[fbi])
                    &&& param_in_floor(
                        origin, direction, self.floors@[fbi], ftn as int, ftd as int,
                    )
                    &&& 0 < ftd <= 0x40_0000_0000_0000
                    &&& 0 <= ftn <= 0x1_0000_0000_0000_0000
                    &&& forall|j: int, tn2: int, td2: int| 0 <= j < fi
                        && ray_hits_floor(origin, direction, self.floors@[j])
                        && #[trigger] param_in_floor(origin, direction, self.floors@[j], tn2, td2)
                        ==> (ftn as int) * td2 <= tn2 * (ftd as int)
                },
            decreases fn_ - fi,
        {
            let f = &self.floors[fi];
            match aabb_entry(origin, direction, f.center, f.half.x, f.half.y, f.half.z) {
                None => {},
                Some((en, ed)) => {
                    match fbest {
                        None => {
                            fbest = Some((en, ed));
                            proof {
                                fbi = fi as int;
                            }
                        },
                        Some((ftn, ftd)) => {
                            if frac_le(ftn, ftd, en, ed) {
                                proof {
                                    assert forall|j: int, tn2: int, td2: int| 0 <= j < fi + 1
                                        && ray_hits_floor(origin, direction, self.floors@[j])
                                        && #[trigger] param_in_floor(
                                            origin, direction, self.floors@[j], tn2, td2,
                                        )
                                        implies (ftn as int) * td2 <= tn2 * (ftd as int) by {
                                        if j == fi {
                                            assert((en as int) * td2 <= tn2 * (ed as int));
                                            lemma_frac_le_trans(
                                                ftn as int, ftd as int, en as int, ed as int,
                                                tn2, td2,
                                            );
                                        }
                                    }
                                }
                            } else {
                                fbest = Some((en, ed));
                                proof {
                                    fbi = fi as int;
                                    assert forall|j: int, tn2: int, td2: int| 0 <= j < fi + 1
                                        && ray_hits_floor(origin, direction, self.floors@[j])
                                        && #[trigger] param_in_floor(
                                            origin, direction, self.floors@[j], tn2, td2,
                                        )
                                        implies (en as int) * td2 <= tn2 * (ed as int) by {
                                        if j < fi {
                                            assert((ftn as int) * td2 <= tn2 * (ftd as int));
                                            lemma_frac_le_trans(
                                                en as int, ed as int, ftn as int, ftd as int,
                                                tn2, td2,
                                            );
                                        }
                                    }
                                }
                            }
                        },
                    }
                },
            }
            fi = fi + 1;
        }
        match fbest {
            None => {
                // No floor stands on the ray at all.
                proof {
                    assert(no_nearer_hit(*self, origin, direction, btn as int, btd as int));
                    lemma_nearest_body_intro(*self, origin, direction, b, btn as int, btd as int);
                }
                Some(b)
            },
            Some((ftn, ftd)) => {
                if frac_le(ftn, ftd, btn, btd) {
                    // The nearest floor stands at or before the body: the
                    // parentless floor occludes it.
                    proof {
                        assert forall|k: u64, tn2: int, td2: int|
                            self.bodies@.contains_key(k)
                            && ray_hits_body(origin, direction, self.bodies@[k])
                            && #[trigger] param_in_body(
                                origin, direction, self.bodies@[k], tn2, td2,
                            )
                            implies le_within(ftn as int, ftd as int, tn2, td2, a) by {
                            assert(le_within(btn as int, btd as int, tn2, td2, a));
                            lemma_le_within_trans(
                                ftn as int, ftd as int, btn as int, btd as int, tn2, td2, a,
                            );
                        }
                        assert(occluding_floor_param(
                            *self, origin, direction, fbi, ftn as int, ftd as int,
                        ));
                        lemma_floor_occludes_intro(
                            *self, origin, direction, fbi, ftn as int, ftd as int,
                        );
                    }
                    None
                } else {
                    // The body stands strictly before every hit floor.
                    proof {
                        assert forall|j: int, tn2: int, td2: int|
                            0 <= j < self.floors@.len()
                            && ray_hits_floor(origin, direction, self.floors@[j])
                            && #[trigger] param_in_floor(
                                origin, direction, self.floors@[j], tn2, td2,
                            )
                            implies le_within(btn as int, btd as int, tn2, td2, a) by {
                            assert((ftn as int) * td2 <= tn2 * (ftd as int));
                            lemma_le_within_from_exact(ftn as int, ftd as int, tn2, td2, a);
                            lemma_le_within_trans(
                                btn as int, btd as int, ftn as int, ftd as int, tn2, td2, a,
                            );
                        }
                        assert(no_nearer_hit(*self, origin, direction, btn as int, btd as int));
                        lemma_nearest_body_intro(
                            *self, origin, direction, b, btn as int, btd as int,
                        );
                    }
                    Some(b)
                }
            },
        }
    }

    /// Resolve the ray to the nearest surface point it meets, bodies and
    /// floors alike: a point within one integer unit per component of a ray
    /// point inside a hit collider, which no hit collider undercuts by more
    /// than `1 / |d|^2`; or nothing when the ray meets no collider.
    pub fn pos_raycast(&self, origin: Vec3i, direction: Vec3i) -> (r: Option<Vec3i>)
        requires
            self.wf(),
            origin.bounded(),
            direction.bounded(),
            !(direction.x == 0 && direction.y == 0 && direction.z == 0),
        ensures
            r is Some <==> (exists|k: u64|
                #[trigger] self.bodies@.contains_key(k)
                && ray_hits_body(origin, direction, self.bodies@[k]))
                || (exists|i: int|
                    0 <= i < self.floors@.len()
                    && ray_hits_floor(origin, direction, #[trigger] self.floors@[i])),
            resolves_near_hit(*self, origin, direction, r),
    {
        proof {
            lemma_dir_norm2_pos(direction);
        }
        let ghost a = dir_norm2(direction);
        let ghost entries = self.bodies.entries@;
        let n = self.bodies.entries.len();
        let mut i: usize = 0;
        let mut best: Option<(i128, i128)> = None;
        while i < n
            invariant
                self.wf(),
                origin.bounded(),
                direction.bounded(),
                !(direction.x == 0 && direction.y == 0 && direction.z == 0),
                a == dir_norm2(direction),
                a > 0,
                i <= n,
                n == entries.len(),
                entries == self.bodies.entries@,
                best is None ==> forall|j: int| 0 <= j < i
                    ==> !ray_hits_body(origin, direction, (#[trigger] entries[j]).1),
                best matches Some((tn, td)) ==> {
                    &&& (exists|k: u64|
                        #[trigger] self.bodies@.contains_key(k)
                        && ray_hits_body(origin, direction, self.bodies@[k])
                        && param_in_body(origin, direction, self.bodies@[k], tn as int, td as int))
                    &&& 0 < td <= 0x40_0000_0000_0000
                    &&& 0 <= tn <= 0x1_0000_0000_0000_0000
                    &&& tn as int <= (MAX_TOI as int) * (td as int)
                    &&& forall|j: int, tn2: int, td2: int| 0 <= j < i
                        && ray_hits_body(origin, direction, entries[j].1)
                        && #[trigger] param_in_body(origin, direction, entries[j].1, tn2, td2)
                        ==> le_within(tn as int, td as int, tn2, td2, a)
                },
            decreases n - i,
        {
            proof {
                lemma_kv_lookup(entries, i as int);
                assert(self.bodies@.contains_key(entries[i as int].0));
                assert(body_ok(entries[i as int].1));
            }
            let cand = body_entry(origin, direction, &self.bodies.entries[i].1);
            match cand {
                None => {},
                Some((en, ed)) => {
                    let ghost k0 = entries[i as int].0;
                    match best {
                        None => {
                            best = Some((en, ed));
                            proof {
                                assert(self.bodies@.contains_key(k0)
                                && ray_hits_body(origin, direction, self.bodies@[k0])
                                && param_in_body(
                                    origin, direction, self.bodies@[k0], en as int, ed as int,
                                ));
                                assert forall|j: int, tn2: int, td2: int| 0 <= j < i + 1
                                    && ray_hits_body(origin, direction, entries[j].1)
                                    && #[trigger] param_in_body(origin, direction, entries[j].1, tn2, td2)
                                    implies le_within(en as int, ed as int, tn2, td2, a) by {
                                }
                            }
                        },
                        Some((btn, btd)) => {
                            if frac_le(btn, btd, en, ed) {
                                proof {
                                    assert forall|j: int, tn2: int, td2: int| 0 <= j < i + 1
                                        && ray_hits_body(origin, direction, entries[j].1)
                                        && #[trigger] param_in_body(origin, direction, entries[j].1, tn2, td2)
                                        implies le_within(btn as int, btd as int, tn2, td2, a) by {
                                        if j == i {
                                            assert(le_within(en as int, ed as int, tn2, td2, a));
                                            lemma_le_within_trans(
                                                btn as int, btd as int, en as int, ed as int,
                                                tn2, td2, a,
                                            );
                                        }
                                    }
                                }
                            } else {
                                best = Some((en, ed));
                                proof {
                                    assert(self.bodies@.contains_key(k0)
                                        && ray_hits_body(origin, direction, self.bodies@[k0])
                                        && param_in_body(
                                            origin, direction, self.bodies@[k0],
                                            en as int, ed as int,
                                        ));
                                    assert forall|j: int, tn2: int, td2: int| 0 <= j < i + 1
                                        && ray_hits_body(origin, direction, entries[j].1)
                                        && #[trigger] param_in_body(origin, direction, entries[j].1, tn2, td2)
                                        implies le_within(en as int, ed as int, tn2, td2, a) by {
                                        if j < i {
                                            assert(le_within(btn as int, btd as int, tn2, td2, a));
                                            lemma_le_within_trans(
                                                en as int, ed as int, btn as int, btd as int,
                                                tn2, td2, a,
                                            );
                                        }
                                    }
                                }
                            }
                        },
                    }
                },
            }
            i = i + 1;
        }
        proof {
            if best is None {
                assert forall|k: u64| #[trigger] self.bodies@.contains_key(k)
                    implies !ray_hits_body(origin, direction, self.bodies@[k]) by {
                    lemma_kv_contains(entries, k);
                    let j = choose|j: int| 0 <= j < entries.len() && entries[j].0 == k;
                    lemma_kv_lookup(entries, j);
                }
            } else {
                let (tn, td) = best.unwrap();
                assert forall|k: u64, tn2: int, td2: int|
                    self.bodies@.contains_key(k)
                    && ray_hits_body(origin, direction, self.bodies@[k])
                    && #[trigger] param_in_body(origin, direction, self.bodies@[k], tn2, td2)
                    implies le_within(tn as int, td as int, tn2, td2, a) by {
                    lemma_kv_contains(entries, k);
                    let j = choose|j: int| 0 <= j < entries.len() && entries[j].0 == k;
                    lemma_kv_lookup(entries, j);
                    assert(entries[j].1 == self.bodies@[k]);
                }
                assert(no_nearer_body_hit(*self, origin, direction, tn as int, td as int));
            }
        }
        let fn_ = self.floors.len();
        let mut fi: usize = 0;
        while fi < fn_
            invariant
                self.wf(),
                origin.bounded(),
                direction.bounded(),
                !(direction.x == 0 && direction.y == 0 && direction.z == 0),
                a == dir_norm2(direction),
                a > 0,
                fi <= fn_,
                fn_ == self.floors@.len(),
                best is None ==> forall|k: u64| #[trigger] self.bodies@.contains_key(k)
                    ==> !ray_hits_body(origin, direction, self.bodies@[k]),
                best is None ==> forall|j: int| 0 <= j < fi
                    ==> !ray_hits_floor(origin, direction, #[trigger] self.floors@[j]),
                best matches Some((tn, td)) ==> {
                    &&& ((exists|k: u64|
                        #[trigger] self.bodies@.contains_key(k)
                        && ray_hits_body(origin, direction, self.bodies@[k])
                        && param_in_body(origin, direction, self.bodies@[k], tn as int, td as int))
                        || (exists|j: int|
                            0 <= j < self.floors@.len()
                            && ray_hits_floor(origin, direction, #[trigger] self.floors@[j])
                            && param_in_floor(
                                origin, direction, self.floors@[j],
                                tn as int, td as int,
                            )))
                    &&& 0 < td <= 0x40_0000_0000_0000
                    &&& 0 <= tn <= 0x1_0000_0000_0000_0000
                    &&& tn as int <= (MAX_TOI as int) * (td as int)
                    &&& no_nearer_body_hit(*self, origin, direction, tn as int, td as int)
                    &&& forall|j: int, tn2: int, td2: int| 0 <= j < fi
                        && ray_hits_floor(origin, direction, self.floors@[j])
                        && #[trigger] param_in_floor(origin, direction, self.floors@[j], tn2, td2)
                        ==> le_within(tn as int, td as int, tn2, td2, a)
                },
            decreases fn_ - fi,
        {
            let f = &self.floors[fi];
            let cand = aabb_entry(origin, direction, f.center, f.half.x, f.half.y, f.half.z);
            match cand {
                None => {},
                Some((en, ed)) => {
                    proof {
                        assert forall|tn2: int, td2: int|
                            #[trigger] param_in_floor(
                                origin, direction, self.floors@[fi as int], tn2, td2,
                            )
                            implies le_within(en as int, ed as int, tn2, td2, a) by {
                            lemma_le_within_from_exact(en as int, ed as int, tn2, td2, a);
                        }
                    }
                    match best {
                        None => {
                            best = Some((en, ed));
                            proof {
                                assert(ray_hits_floor(origin, direction, self.floors@[fi as int])
                                    && param_in_floor(
                                        origin, direction, self.floors@[fi as int],
                                        en as int, ed as int,
                                    ));
                            }
                        },
                        Some((btn, btd)) => {
                            if frac_le(btn, btd, en, ed) {
                                proof {
                                    assert forall|j: int, tn2: int, td2: int| 0 <= j < fi + 1
                                        && ray_hits_floor(origin, direction, self.floors@[j])
                                        && #[trigger] param_in_floor(
                                            origin, direction, self.floors@[j], tn2, td2,
                                        )
                                        implies le_within(btn as int, btd as int, tn2, td2, a) by {
                                        if j == fi {
                                            assert(le_within(en as int, ed as int, tn2, td2, a));
                                            lemma_le_within_trans(
                                                btn as int, btd as int, en as int, ed as int,
                                                tn2, td2, a,
                                            );
                                        }
                                    }
                                }
                            } else {
                                best = Some((en, ed));
                                proof {
                                    assert(ray_hits_floor(
                                        origin, direction, self.floors@[fi as int],
                                    ) && param_in_floor(
                                        origin, direction, self.floors@[fi as int],
                                        en as int, ed as int,
                                    ));
                                    assert forall|k: u64, tn2: int, td2: int|
                                        self.bodies@.contains_key(k)
                                        && ray_hits_body(origin, direction, self.bodies@[k])
                                        && #[trigger] param_in_body(
                                            origin, direction, self.bodies@[k], tn2, td2,
                                        )
                                        implies le_within(en as int, ed as int, tn2, td2, a) by {
                                        assert(le_within(btn as int, btd as int, tn2, td2, a));
                                        lemma_le_within_trans(
                                            en as int, ed as int, btn as int, btd as int,
                                            tn2, td2, a,
                                        );
                                    }
                                    assert forall|j: int, tn2: int, td2: int| 0 <= j < fi + 1
                                        && ray_hits_floor(origin, direction, self.floors@[j])
                                        && #[trigger] param_in_floor(
                                            origin, direction, self.floors@[j], tn2, td2,
                                        )
                                        implies le_within(en as int, ed as int, tn2, td2, a) by {
                                        if j < fi {
                                            assert(le_within(btn as int, btd as int, tn2, td2, a));
                                            lemma_le_within_trans(
                                                en as int, ed as int, btn as int, btd as int,
                                                tn2, td2, a,
                                            );
                                        }
                                    }
                                }
                            }
                        },
                    }
                },
            }
            fi = fi + 1;
        }
        match best {
            None => None,
            Some((tn, td)) => {
                let p = ray_point(origin, direction, tn, td);
                proof {
                    assert(near_hit_point(*self, origin, direction, p, tn as int, td as int));
                    assert(no_nearer_hit(*self, origin, direction, tn as int, td as int));
                    lemma_resolves_intro(*self, origin, direction, p, tn as int, td as int);
                }
                Some(p)
            },
        }
    }
}

} // verus!

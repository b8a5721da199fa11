//! The sphereflake: a sphere carrying nine smaller copies of itself on its
//! surface, recursively — six around the equator and three tilted above —
//! gathered under a small tree per level.

use vstd::prelude::*;
use crate::fixed::SCALE;
use crate::vec3::{Vec3, Point3, VMAX, within};
use crate::material::{Material, material_wf, copy_material};
use crate::hittable::{Hittable, HittableComposite, Sphere, BVH, hittable_wf, bvh_tree_ok};
use crate::trig::{fp_sin_deg, fp_cos_deg};

verus! {

/// A sixth of a turn in fixed-point degrees.
pub const SIXTH_TURN: i64 = 3932160;  // 60 * 65536

/// A third of a turn in fixed-point degrees.
pub const THIRD_TURN: i64 = 7864320;  // 120 * 65536

/// The tilt of the three upper children, about 51.4 degrees.
pub const FLAKE_TILT: i64 = 3370938;

/// A twelfth of a turn in fixed-point degrees.
pub const TWELFTH_TURN: i64 = 1966080;  // 30 * 65536

/// A sphereflake standing upright on its base sphere.
pub fn new_sphereflake_upright(
    center: Point3,
    radius: i64,
    material: Material,
    recursion_level: usize,
) -> (r: Hittable)
    requires
        within(center, (VMAX / 2) as int),
        0 < radius <= VMAX / 2,
        material_wf(material),
    ensures
        hittable_wf(r),
        bvh_tree_ok(r),
{
    let initial = Sphere::new(center, radius, material);
    new_sphereflake(initial, Vec3 { x: 0, y: SCALE, z: 0 }, Vec3 { x: SCALE, y: 0, z: 0 },
        recursion_level)
}

/// Grow a sphereflake from a base sphere. `normal` orients the flake,
/// `rotation_axis` spins the children's own orientations; each level adds
/// nine children of a third the radius, and the level's spheres live under
/// one tree node.
pub fn new_sphereflake(
    initial: Sphere,
    normal: Vec3,
    rotation_axis: Vec3,
    recursion_level: usize,
) -> (r: Hittable)
    requires
        within(initial.center, (VMAX / 2) as int),
        0 < initial.radius <= VMAX / 2,
        material_wf(initial.material),
        hittable_wf(Hittable::Sphere(initial)),
        within(normal, VMAX as int),
        within(rotation_axis, VMAX as int),
    ensures
        hittable_wf(r),
        bvh_tree_ok(r),
    decreases recursion_level,
{
    if recursion_level == 0 {
        return Hittable::Sphere(initial);
    }
    let child_radius = initial.radius / 3;
    if child_radius < 1 {
        return Hittable::Sphere(initial);
    }
    let un = normal.normalize_wide();
    let axis_unit = rotation_axis.normalize_wide();
    // the first child direction: the unit normal swung a quarter turn down
    // about the spin axis, stretched to the parent-child distance
    let base = un.rotate_rodrigues(-SCALE, 0, &axis_unit);
    let reach = initial.radius + child_radius;
    proof {
        crate::fixed::lemma_fmul_bound(base.x as int, reach as int, VMAX as int, VMAX as int);
        crate::fixed::lemma_fmul_bound(base.y as int, reach as int, VMAX as int, VMAX as int);
        crate::fixed::lemma_fmul_bound(base.z as int, reach as int, VMAX as int, VMAX as int);
    }
    let irv = base.scale_sat(reach, VMAX / 2);

    let mut spheres = HittableComposite::new();
    spheres.add_hittable(
        Hittable::Sphere(
            Sphere::new(initial.center, initial.radius, copy_material(&initial.material)),
        ),
    );

    let mut i: usize = 0;
    while i < 6
        invariant
            i <= 6,
            hittable_wf(Hittable::Composite(spheres)),
            bvh_tree_ok(Hittable::Composite(spheres)),
            spheres.objects@.len() >= 1,
            within(initial.center, (VMAX / 2) as int),
            0 < child_radius <= VMAX / 2,
            material_wf(initial.material),
            within(irv, VMAX as int),
            within(un, 2 * SCALE as int),
            within(axis_unit, 2 * SCALE as int),
            recursion_level >= 1,
        decreases 6 - i,
    {
        let theta = (i as i64) * SIXTH_TURN;
        let s = fp_sin_deg(theta);
        let c = fp_cos_deg(theta);
        let child_normal = irv.rotate_rodrigues(s, c, &un);
        let child_center = initial.center.add_sat(&child_normal, VMAX / 2);
        let child = Sphere::new(child_center, child_radius, copy_material(&initial.material));
        let child_axis = axis_unit.rotate_rodrigues(s, c, &un);
        let flake = new_sphereflake(child, child_normal, child_axis, recursion_level - 1);
        spheres.add_hittable(flake);
        i = i + 1;
    }

    // three upper children: the base direction tilted away from the pole
    let tilt_axis = axis_unit.rotate_rodrigues(
        fp_sin_deg(TWELFTH_TURN),
        fp_cos_deg(TWELFTH_TURN),
        &un,
    ).normalize_wide();
    let irv_upper = irv.rotate_rodrigues(
        fp_sin_deg(TWELFTH_TURN),
        fp_cos_deg(TWELFTH_TURN),
        &un,
    ).rotate_rodrigues(fp_sin_deg(FLAKE_TILT), fp_cos_deg(FLAKE_TILT), &tilt_axis);
    let mut j: usize = 0;
    while j < 3
        invariant
            j <= 3,
            hittable_wf(Hittable::Composite(spheres)),
            bvh_tree_ok(Hittable::Composite(spheres)),
            spheres.objects@.len() >= 1,
            within(initial.center, (VMAX / 2) as int),
            0 < child_radius <= VMAX / 2,
            material_wf(initial.material),
            within(irv_upper, VMAX as int),
            within(un, 2 * SCALE as int),
            within(axis_unit, 2 * SCALE as int),
            recursion_level >= 1,
        decreases 3 - j,
    {
        let theta = (j as i64) * THIRD_TURN;
        let s = fp_sin_deg(theta);
        let c = fp_cos_deg(theta);
        let child_normal = irv_upper.rotate_rodrigues(s, c, &un);
        let child_center = initial.center.add_sat(&child_normal, VMAX / 2);
        let child = Sphere::new(child_center, child_radius, copy_material(&initial.material));
        let child_axis = axis_unit.rotate_rodrigues(s, c, &un);
        let flake = new_sphereflake(child, child_normal, child_axis, recursion_level - 1);
        spheres.add_hittable(flake);
        j = j + 1;
    }
    BVH::new(spheres)
}

} // verus!

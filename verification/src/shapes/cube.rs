//! Axis-aligned boxes composed of six square faces.

use vstd::prelude::*;

use crate::common::{div_trunc, tdiv, FP_ONE, T_MAX};
use crate::hittable::{h_mat, HitRecord, Hittable};
use crate::hittable_list::{list_hit_post, wf_list, HittableList};
use crate::material::{wf_material, Material};
use crate::ray::{wf_ray, Ray};
use crate::shapes::square::{sq_u_axis, Square};
use crate::vec3::{fits3, gcross, glen2, lemma_unit_axis, Point3, Vec3, GV};

verus! {

/// Midpoint of two fixed-point coordinates.
pub open spec fn mid(a: int, b: int) -> int {
    tdiv(a + b, 2)
}

/// The larger of two scalars.
pub open spec fn gmax(a: int, b: int) -> int {
    if a > b {
        a
    } else {
        b
    }
}

/// A box between two corner points, built from six squares, each sized
/// to the larger of the two relevant face dimensions.
pub struct Cube {
    pub sides: HittableList,
}

/// Every side is a square carrying the box's material.
pub open spec fn cube_sides_ok(sides: Seq<Hittable>, m: Material) -> bool {
    &&& sides.len() == 6
    &&& wf_list(sides)
    &&& forall|i: int|
        0 <= i < 6 ==> ((#[trigger] sides[i]) matches Hittable::Square(_) && h_mat(sides[i]) == m)
}

/// `h` is the square face with the given center, stored unit normal,
/// side length and material, with the in-plane axes the square
/// constructor derives from that normal.
pub open spec fn is_face(h: Hittable, c: GV, n: GV, size: int, m: Material) -> bool {
    &&& h matches Hittable::Square(q)
    &&& q.center.gv() == c
    &&& q.normal.gv() == n
    &&& q.u_axis.gv() == sq_u_axis(n)
    &&& q.v_axis.gv() == gcross(n, sq_u_axis(n))
    &&& q.size as int == size
    &&& q.mat == m
}

/// The six faces of the box `[p_min, p_max]` with face dimensions
/// `w, h, d`, in insertion order: +z, -z, +y, -y, +x, -x, each centered
/// at its face center, sized to the larger of the two in-plane
/// dimensions, with the outward axis as stored normal.
pub open spec fn cube_faces(
    sides: Seq<Hittable>,
    p_min: GV,
    p_max: GV,
    w: int,
    h: int,
    d: int,
    m: Material,
) -> bool {
    let cx = mid(p_min.x, p_max.x);
    let cy = mid(p_min.y, p_max.y);
    let cz = mid(p_min.z, p_max.z);
    &&& sides.len() == 6
    &&& is_face(sides[0], GV { x: cx, y: cy, z: p_max.z }, GV { x: 0, y: 0, z: 65536 },
        gmax(w, h), m)
    &&& is_face(sides[1], GV { x: cx, y: cy, z: p_min.z }, GV { x: 0, y: 0, z: -65536 },
        gmax(w, h), m)
    &&& is_face(sides[2], GV { x: cx, y: p_max.y, z: cz }, GV { x: 0, y: 65536, z: 0 },
        gmax(w, d), m)
    &&& is_face(sides[3], GV { x: cx, y: p_min.y, z: cz }, GV { x: 0, y: -65536, z: 0 },
        gmax(w, d), m)
    &&& is_face(sides[4], GV { x: p_max.x, y: cy, z: cz }, GV { x: 65536, y: 0, z: 0 },
        gmax(h, d), m)
    &&& is_face(sides[5], GV { x: p_min.x, y: cy, z: cz }, GV { x: -65536, y: 0, z: 0 },
        gmax(h, d), m)
}

impl Cube {
    /// A box from its minimum and maximum corners; delegates
    /// intersection to its six-face aggregate.
    pub fn new(p_min: Point3, p_max: Point3, material: Material) -> (res: Cube)
        requires
            fits3(p_min.gv(), 2147483648),
            fits3(p_max.gv(), 2147483648),
            p_min.x <= p_max.x,
            p_min.y <= p_max.y,
            p_min.z <= p_max.z,
            wf_material(material),
        ensures
            cube_sides_ok(res.sides.objects@, material),
            cube_faces(
                res.sides.objects@,
                p_min.gv(),
                p_max.gv(),
                p_max.x - p_min.x,
                p_max.y - p_min.y,
                p_max.z - p_min.z,
                material,
            ),
    {
        let mut sides = HittableList::new();

        let width = p_max.x - p_min.x;
        let height = p_max.y - p_min.y;
        let depth = p_max.z - p_min.z;

        proof {
            crate::common::lemma_tdiv_abs_le((p_min.x + p_max.x) as int, 2, 2147483648int);
            crate::common::lemma_tdiv_abs_le((p_min.y + p_max.y) as int, 2, 2147483648int);
            crate::common::lemma_tdiv_abs_le((p_min.z + p_max.z) as int, 2, 2147483648int);
            assert(glen2(GV { x: 0, y: 0, z: 65536 as int }) >= 1) by (nonlinear_arith);
            assert(glen2(GV { x: 0, y: 0, z: -65536 as int }) >= 1) by (nonlinear_arith);
            assert(glen2(GV { x: 0, y: 65536 as int, z: 0 }) >= 1) by (nonlinear_arith);
            assert(glen2(GV { x: 0, y: -65536 as int, z: 0 }) >= 1) by (nonlinear_arith);
            assert(glen2(GV { x: 65536 as int, y: 0, z: 0 }) >= 1) by (nonlinear_arith);
            assert(glen2(GV { x: -65536 as int, y: 0, z: 0 }) >= 1) by (nonlinear_arith);
            lemma_unit_axis();
        }
        let center_x = div_trunc(p_min.x + p_max.x, 2);
        let center_y = div_trunc(p_min.y + p_max.y, 2);
        let center_z = div_trunc(p_min.z + p_max.z, 2);

        let wh = if width > height { width } else { height };
        let wd = if width > depth { width } else { depth };
        let hd = if height > depth { height } else { depth };

        let front_face = Square::new(
            Vec3 { x: center_x, y: center_y, z: p_max.z },
            Vec3 { x: 0, y: 0, z: FP_ONE },
            wh,
            material,
        );
        let back_face = Square::new(
            Vec3 { x: center_x, y: center_y, z: p_min.z },
            Vec3 { x: 0, y: 0, z: -FP_ONE },
            wh,
            material,
        );
        let top_face = Square::new(
            Vec3 { x: center_x, y: p_max.y, z: center_z },
            Vec3 { x: 0, y: FP_ONE, z: 0 },
            wd,
            material,
        );
        let bottom_face = Square::new(
            Vec3 { x: center_x, y: p_min.y, z: center_z },
            Vec3 { x: 0, y: -FP_ONE, z: 0 },
            wd,
            material,
        );
        let right_face = Square::new(
            Vec3 { x: p_max.x, y: center_y, z: center_z },
            Vec3 { x: FP_ONE, y: 0, z: 0 },
            hd,
            material,
        );
        let left_face = Square::new(
            Vec3 { x: p_min.x, y: center_y, z: center_z },
            Vec3 { x: -FP_ONE, y: 0, z: 0 },
            hd,
            material,
        );

        sides.add(Hittable::Square(front_face));
        sides.add(Hittable::Square(back_face));
        sides.add(Hittable::Square(top_face));
        sides.add(Hittable::Square(bottom_face));
        sides.add(Hittable::Square(right_face));
        sides.add(Hittable::Square(left_face));

        Cube { sides }
    }

    /// A cube of side `size` centered at `center`: the same box
    /// `Cube::new` builds between `center - size/2` and
    /// `center + size/2`.
    pub fn centered(center: Point3, size: i128, material: Material) -> (res: Cube)
        requires
            fits3(center.gv(), 1073741824),
            0 <= size <= 1073741824,
            wf_material(material),
        ensures
            cube_sides_ok(res.sides.objects@, material),
            ({
                let half = tdiv(size as int, 2);
                cube_faces(
                    res.sides.objects@,
                    GV { x: center.gv().x - half, y: center.gv().y - half, z: center.gv().z - half },
                    GV { x: center.gv().x + half, y: center.gv().y + half, z: center.gv().z + half },
                    2 * half,
                    2 * half,
                    2 * half,
                    material,
                )
            }),
    {
        let half_size = div_trunc(size, 2);
        let p_min = Vec3 { x: center.x - half_size, y: center.y - half_size, z: center.z
            - half_size };
        let p_max = Vec3 { x: center.x + half_size, y: center.y + half_size, z: center.z
            + half_size };
        Cube::new(p_min, p_max, material)
    }

    /// A box from a corner and three edge lengths: the same box
    /// `Cube::new` builds between `corner` and `corner + extent`.
    pub fn from_size(corner: Point3, width: i128, height: i128, depth: i128, material: Material)
        -> (res: Cube)
        requires
            fits3(corner.gv(), 1073741824),
            0 <= width <= 1073741824,
            0 <= height <= 1073741824,
            0 <= depth <= 1073741824,
            wf_material(material),
        ensures
            cube_sides_ok(res.sides.objects@, material),
            cube_faces(
                res.sides.objects@,
                corner.gv(),
                GV {
                    x: corner.gv().x + width,
                    y: corner.gv().y + height,
                    z: corner.gv().z + depth,
                },
                width as int,
                height as int,
                depth as int,
                material,
            ),
    {
        let p_max = Vec3 { x: corner.x + width, y: corner.y + height, z: corner.z + depth };
        Cube::new(corner, p_max, material)
    }

    /// Intersect the ray with the box: exactly the aggregate's
    /// closest-hit search over the six faces.
    pub fn hit(&self, r: &Ray, t_min: i128, t_max: i128) -> (res: Option<HitRecord>)
        requires
            wf_list(self.sides.objects@),
            wf_ray(*r),
            -T_MAX <= t_min,
            t_max <= T_MAX,
        ensures
            list_hit_post(self.sides.objects@, *r, t_min as int, t_max as int, res),
    {
        self.sides.hit(r, t_min, t_max)
    }
}

/// A box whose six faces are placed from possibly unordered corners: the
/// dimensions are taken by magnitude.
pub struct RectangularBox {
    pub sides: HittableList,
}

impl RectangularBox {
    /// A box from two corners in either order: the six faces sit at the
    /// corners' face centers and are sized by the dimensions' magnitudes.
    pub fn new(p_min: Point3, p_max: Point3, material: Material) -> (res: RectangularBox)
        requires
            fits3(p_min.gv(), 2147483648),
            fits3(p_max.gv(), 2147483648),
            wf_material(material),
        ensures
            cube_sides_ok(res.sides.objects@, material),
            cube_faces(
                res.sides.objects@,
                p_min.gv(),
                p_max.gv(),
                crate::common::abs_i(p_max.x - p_min.x),
                crate::common::abs_i(p_max.y - p_min.y),
                crate::common::abs_i(p_max.z - p_min.z),
                material,
            ),
    {
        let mut sides = HittableList::new();

        let wraw = p_max.x - p_min.x;
        let hraw = p_max.y - p_min.y;
        let draw = p_max.z - p_min.z;
        let width = if wraw < 0 { -wraw } else { wraw };
        let height = if hraw < 0 { -hraw } else { hraw };
        let depth = if draw < 0 { -draw } else { draw };

        proof {
            crate::common::lemma_tdiv_abs_le((p_min.x + p_max.x) as int, 2, 2147483648int);
            crate::common::lemma_tdiv_abs_le((p_min.y + p_max.y) as int, 2, 2147483648int);
            crate::common::lemma_tdiv_abs_le((p_min.z + p_max.z) as int, 2, 2147483648int);
            assert(glen2(GV { x: 0, y: 0, z: 65536 as int }) >= 1) by (nonlinear_arith);
            assert(glen2(GV { x: 0, y: 0, z: -65536 as int }) >= 1) by (nonlinear_arith);
            assert(glen2(GV { x: 0, y: 65536 as int, z: 0 }) >= 1) by (nonlinear_arith);
            assert(glen2(GV { x: 0, y: -65536 as int, z: 0 }) >= 1) by (nonlinear_arith);
            assert(glen2(GV { x: 65536 as int, y: 0, z: 0 }) >= 1) by (nonlinear_arith);
            assert(glen2(GV { x: -65536 as int, y: 0, z: 0 }) >= 1) by (nonlinear_arith);
            lemma_unit_axis();
        }
        let center_x = div_trunc(p_min.x + p_max.x, 2);
        let center_y = div_trunc(p_min.y + p_max.y, 2);
        let center_z = div_trunc(p_min.z + p_max.z, 2);

        let wh = if width > height { width } else { height };
        let wd = if width > depth { width } else { depth };
        let hd = if height > depth { height } else { depth };

        sides.add(Hittable::Square(Square::new(
            Vec3 { x: center_x, y: center_y, z: p_max.z },
            Vec3 { x: 0, y: 0, z: FP_ONE },
            wh,
            material,
        )));
        sides.add(Hittable::Square(Square::new(
            Vec3 { x: center_x, y: center_y, z: p_min.z },
            Vec3 { x: 0, y: 0, z: -FP_ONE },
            wh,
            material,
        )));
        sides.add(Hittable::Square(Square::new(
            Vec3 { x: center_x, y: p_max.y, z: center_z },
            Vec3 { x: 0, y: FP_ONE, z: 0 },
            wd,
            material,
        )));
        sides.add(Hittable::Square(Square::new(
            Vec3 { x: center_x, y: p_min.y, z: center_z },
            Vec3 { x: 0, y: -FP_ONE, z: 0 },
            wd,
            material,
        )));
        sides.add(Hittable::Square(Square::new(
            Vec3 { x: p_max.x, y: center_y, z: center_z },
            Vec3 { x: FP_ONE, y: 0, z: 0 },
            hd,
            material,
        )));
        sides.add(Hittable::Square(Square::new(
            Vec3 { x: p_min.x, y: center_y, z: center_z },
            Vec3 { x: -FP_ONE, y: 0, z: 0 },
            hd,
            material,
        )));

        RectangularBox { sides }
    }

    /// Intersect the ray with the box through its six-face aggregate.
    pub fn hit(&self, r: &Ray, t_min: i128, t_max: i128) -> (res: Option<HitRecord>)
        requires
            wf_list(self.sides.objects@),
            wf_ray(*r),
            -T_MAX <= t_min,
            t_max <= T_MAX,
        ensures
            list_hit_post(self.sides.objects@, *r, t_min as int, t_max as int, res),
    {
        self.sides.hit(r, t_min, t_max)
    }
}

} // verus!

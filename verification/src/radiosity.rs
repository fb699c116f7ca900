//! The progressive radiosity solver.
//!
//! Faces are planar quadrilateral patches carrying a diffuse color and a
//! brightness state.  The solver repeatedly transfers energy between every
//! ordered pair of distinct faces (including four axis-mirrored variants of
//! each source, which stand in for the periodic continuation of tiling
//! segments) and accumulates the received energy per face.  All arithmetic
//! is fixed-point, so the whole bake is a pure function of its inputs; the
//! contracts below pin each step down exactly.

use vstd::prelude::*;
use crate::fixed::{SCALE, BRIGHT_LIMIT, cap_bright, tdiv};
use crate::vector::{
    Vec3, Vec2, Axis, spec_reflect, vec3_in_range, vec2_in_range, OP_LIMIT,
};
use crate::radiosity_color::Rgba8;
use crate::texture::{Texture, texture_pixels, texture_width, texture_height};
use vstd::pervasive::VecAdditionalExecFns;

verus! {

/// Bound on face corner coordinates (32.0 units in fixed point).
pub const COORD_LIMIT: i64 = 2097152;

/// Smallest admissible squared distance between the centers of two distinct
/// faces, measured on corner-coordinate sums (four times the center), so the
/// value carries `16 * SCALE * SCALE`.  It equals a real squared distance of
/// 1/4096: anything closer is malformed input geometry and aborts the bake.
pub const MIN_PAIR_DIST: i64 = 16777216;

/// Largest value the clamped orientation factors can take under
/// [`face_wf`] bounds.
pub const FORM_LIMIT: i64 = 3298534883328;

/// Largest value the squared pair distance can take under [`face_wf`]
/// bounds.
pub const DIST_LIMIT: i64 = 844424930131968;

/// Divisor folding the area normalization (1/32²) together with the
/// fixed-point scaling of the corner-sum geometry.
pub const TRANSFER_DIV: i64 = 64;

/// Side length of the baked lightmap texture, in texels.
pub const LIGHTMAP_SIZE: u32 = 128;

/// A per-channel (red, green, blue) light energy triple, fixed-point.
#[derive(Clone, Copy, Debug, PartialEq, Eq, Structural)]
pub struct Brightness {
    pub r: i64,
    pub g: i64,
    pub b: i64,
}

/// A planar quadrilateral surface patch with its radiance state.
///
/// `corners[0]` and `corners[3]` are the diagonal pair whose midpoint
/// anchors the face in the lightmap atlas.  `brightness` is the settled
/// light received so far; `last_iteration_brightness` is the energy still
/// propagating in the current round.
#[derive(Clone, Copy, Debug)]
pub struct Face {
    pub corners: [Vec3; 4],
    pub texture_position: [Vec2; 4],
    pub normal: Vec3,
    pub brightness: Brightness,
    pub last_iteration_brightness: Brightness,
    pub id: u32,
    pub color: Rgba8,
}

/// All three channels of a brightness triple are admissible energies.
pub open spec fn bright_wf(b: Brightness) -> bool {
    &&& 0 <= b.r <= BRIGHT_LIMIT
    &&& 0 <= b.g <= BRIGHT_LIMIT
    &&& 0 <= b.b <= BRIGHT_LIMIT
}

/// The geometric fields of a face are within the solver's working range:
/// corner coordinates bounded, normal components within one unit, and the
/// texture placement inside the atlas with its anchor strictly inside.
pub open spec fn face_geom_wf(f: Face) -> bool {
    &&& vec3_in_range(f.corners[0], COORD_LIMIT as int)
    &&& vec3_in_range(f.corners[1], COORD_LIMIT as int)
    &&& vec3_in_range(f.corners[2], COORD_LIMIT as int)
    &&& vec3_in_range(f.corners[3], COORD_LIMIT as int)
    &&& vec3_in_range(f.normal, SCALE as int)
    &&& uv_in_atlas(f.texture_position[0])
    &&& uv_in_atlas(f.texture_position[1])
    &&& uv_in_atlas(f.texture_position[2])
    &&& uv_in_atlas(f.texture_position[3])
    &&& f.texture_position[0].x + f.texture_position[3].x < 2 * SCALE
    &&& f.texture_position[0].y + f.texture_position[3].y < 2 * SCALE
}

/// A texture coordinate inside the unit atlas square.
pub open spec fn uv_in_atlas(t: Vec2) -> bool {
    &&& 0 <= t.x <= SCALE
    &&& 0 <= t.y <= SCALE
}

/// A face the solver accepts: admissible geometry and brightness state.
pub open spec fn face_wf(f: Face) -> bool {
    &&& face_geom_wf(f)
    &&& bright_wf(f.brightness)
    &&& bright_wf(f.last_iteration_brightness)
}

/// Every face of the sequence is well-formed.
pub open spec fn faces_wf(faces: Seq<Face>) -> bool {
    forall|i: int| 0 <= i < faces.len() ==> face_wf(#[trigger] faces[i])
}

/// Sum of the four corner x coordinates: four times the center, exact.
pub open spec fn qx(f: Face) -> int {
    f.corners[0].x + f.corners[1].x + f.corners[2].x + f.corners[3].x
}

/// Sum of the four corner y coordinates.
pub open spec fn qy(f: Face) -> int {
    f.corners[0].y + f.corners[1].y + f.corners[2].y + f.corners[3].y
}

/// Sum of the four corner z coordinates.
pub open spec fn qz(f: Face) -> int {
    f.corners[0].z + f.corners[1].z + f.corners[2].z + f.corners[3].z
}

/// Squared center distance between two faces, on corner sums (so the value
/// carries `16 * SCALE * SCALE`).
pub open spec fn pair_dist(a: Face, b: Face) -> int {
    let dx = qx(a) - qx(b);
    let dy = qy(a) - qy(b);
    let dz = qz(a) - qz(b);
    dx * dx + dy * dy + dz * dz
}

/// Unclamped orientation factor of the receiver: the dot product of the
/// receiver-to-source offset (on corner sums) with the receiver's normal.
/// Positive when the receiver is turned toward the source.
pub open spec fn cos_receiver(recv: Face, src: Face) -> int {
    (qx(src) - qx(recv)) * recv.normal.x + (qy(src) - qy(recv)) * recv.normal.y + (qz(src)
        - qz(recv)) * recv.normal.z
}

/// Unclamped orientation factor of the source: the dot product of the
/// source-to-receiver offset (on corner sums) with the source's normal.
/// Positive when the source is turned toward the receiver.
pub open spec fn cos_source(recv: Face, src: Face) -> int {
    (qx(recv) - qx(src)) * src.normal.x + (qy(recv) - qy(src)) * src.normal.y + (qz(recv)
        - qz(src)) * src.normal.z
}

/// Negative cosines clamp to zero: back-facing pairs exchange no light.
pub open spec fn clamp0(x: int) -> int {
    if x > 0 {
        x
    } else {
        0
    }
}

/// Fixed-point albedo of a color channel: the byte scaled to `[0, 1)`.
pub open spec fn albedo(channel: u8) -> int {
    channel * 256
}

/// The exact energy one source variant hands one receiver on one channel.
///
/// `a` is the receiver's albedo, `p` the source's pending brightness, `f1`
/// and `f2` the clamped orientation factors, `d` the squared pair distance
/// on corner sums.  The quotient chain realizes
/// `a * p * f1 * f2 / (SCALE * d * d * 64)`, which is the point-to-point
/// form factor together with the inverse-square falloff and the 1/32² area
/// normalization; the result saturates at `BRIGHT_LIMIT`.
pub open spec fn transfer_amount(a: int, p: int, f1: int, f2: int, d: int) -> int {
    let t1 = a * p / (SCALE as int);
    let u1 = t1 * f1;
    let u2 = u1 / d;
    let u3 = u2 * f2;
    let u4 = u3 / d;
    cap_bright(u4 / (TRANSFER_DIV as int))
}

/// A face mirrored across the plane orthogonal to `axis`: corners and
/// normal transform, everything else is preserved.
pub open spec fn face_reflect(f: Face, axis: Axis) -> Face {
    Face {
        corners: [
            spec_reflect(f.corners[0], axis),
            spec_reflect(f.corners[1], axis),
            spec_reflect(f.corners[2], axis),
            spec_reflect(f.corners[3], axis),
        ],
        normal: spec_reflect(f.normal, axis),
        ..f
    }
}

/// The `k`-th virtual variant of a source face: the face itself, its mirror
/// across the Z plane, across the X plane, or across both.
pub open spec fn variant(f: Face, k: int) -> Face {
    let fx = if k == 2 || k == 3 {
        face_reflect(f, Axis::X)
    } else {
        f
    };
    if k == 1 || k == 3 {
        face_reflect(fx, Axis::Z)
    } else {
        fx
    }
}

/// The three channel amounts a single source variant hands a receiver.
pub open spec fn term_rgb(recv: Face, var: Face) -> (int, int, int) {
    let f1 = clamp0(cos_receiver(recv, var));
    let f2 = clamp0(cos_source(recv, var));
    let d = pair_dist(recv, var);
    (
        transfer_amount(albedo(recv.color.r), var.last_iteration_brightness.r as int, f1, f2, d),
        transfer_amount(albedo(recv.color.g), var.last_iteration_brightness.g as int, f1, f2, d),
        transfer_amount(albedo(recv.color.b), var.last_iteration_brightness.b as int, f1, f2, d),
    )
}

/// Saturating elementwise addition of a term onto a pending triple.
pub open spec fn add_cap(p: (int, int, int), t: (int, int, int)) -> (int, int, int) {
    (cap_bright(p.0 + t.0), cap_bright(p.1 + t.1), cap_bright(p.2 + t.2))
}

/// Folds the four variants of one source into a receiver's pending light.
pub open spec fn add_variants(p: (int, int, int), recv: Face, src: Face) -> (int, int, int) {
    let p0 = add_cap(p, term_rgb(recv, variant(src, 0)));
    let p1 = add_cap(p0, term_rgb(recv, variant(src, 1)));
    let p2 = add_cap(p1, term_rgb(recv, variant(src, 2)));
    add_cap(p2, term_rgb(recv, variant(src, 3)))
}

/// Folds the first `n` snapshot faces (skipping the receiver's own id) into
/// a receiver's pending light.
pub open spec fn gather(p: (int, int, int), recv: Face, snap: Seq<Face>, n: int) -> (
    int,
    int,
    int,
)
    decreases n,
{
    if n <= 0 {
        p
    } else {
        let prev = gather(p, recv, snap, n - 1);
        if snap[n - 1].id == recv.id {
            prev
        } else {
            add_variants(prev, recv, snap[n - 1])
        }
    }
}

/// The settle phase on one face: pending light folds into the accumulated
/// total (saturating) and the pending slot resets to zero.
pub open spec fn settle_face(f: Face) -> Face {
    Face {
        brightness: Brightness {
            r: cap_bright(f.brightness.r + f.last_iteration_brightness.r) as i64,
            g: cap_bright(f.brightness.g + f.last_iteration_brightness.g) as i64,
            b: cap_bright(f.brightness.b + f.last_iteration_brightness.b) as i64,
        },
        last_iteration_brightness: Brightness { r: 0, g: 0, b: 0 },
        ..f
    }
}

/// One full solver round: every face settles, then receives from the
/// round-start snapshot of every other face and its variants, in face order.
pub open spec fn round_spec(faces: Seq<Face>) -> Seq<Face> {
    Seq::new(
        faces.len(),
        |i: int|
            {
                let s = settle_face(faces[i]);
                let p = gather((0int, 0int, 0int), s, faces, faces.len() as int);
                Face {
                    last_iteration_brightness: Brightness {
                        r: p.0 as i64,
                        g: p.1 as i64,
                        b: p.2 as i64,
                    },
                    ..s
                }
            },
    )
}

/// Seeding: each face's initial emission (its starting brightness) becomes
/// the first round's pending light.
pub open spec fn seed_face(f: Face) -> Face {
    Face { last_iteration_brightness: f.brightness, ..f }
}

/// `n` solver rounds applied after another.
pub open spec fn rounds(faces: Seq<Face>, n: int) -> Seq<Face>
    decreases n,
{
    if n <= 0 {
        faces
    } else {
        round_spec(rounds(faces, n - 1))
    }
}

/// The full bake: seed, run the configured rounds, then settle once more so
/// no energy is left stranded in the pending slots.
pub open spec fn bake_spec(faces: Seq<Face>, iters: int) -> Seq<Face> {
    rounds(faces.map_values(|f: Face| seed_face(f)), iters).map_values(|f: Face| settle_face(f))
}

/// No two distinct-id faces (counting all four variants of the second) sit
/// closer than the minimum admissible distance.
pub open spec fn pairs_ok(faces: Seq<Face>) -> bool {
    forall|i: int, j: int, k: int|
        0 <= i < faces.len() && 0 <= j < faces.len() && 0 <= k < 4 && faces[i].id != faces[j].id
            ==> #[trigger] pair_dist(faces[i], variant(faces[j], k)) >= MIN_PAIR_DIST
}


/// The face center in fixed point: each corner-sum coordinate quartered,
/// rounding toward zero.
pub open spec fn spec_center(f: Face) -> Vec3 {
    Vec3 { x: tdiv(qx(f), 4) as i64, y: tdiv(qy(f), 4) as i64, z: tdiv(qz(f), 4) as i64 }
}

/// The subdivision table: the `i`-th corner of the `c`-th child is the
/// midpoint of the parent corners named by the returned pair.
pub open spec fn subdiv_pair(c: int, i: int) -> (usize, usize) {
    if c == 0 {
        if i == 0 { (0usize, 0usize) } else if i == 1 { (0usize, 1usize) }
        else if i == 2 { (0usize, 2usize) } else { (0usize, 3usize) }
    } else if c == 1 {
        if i == 0 { (0usize, 1usize) } else if i == 1 { (1usize, 1usize) }
        else if i == 2 { (0usize, 3usize) } else { (1usize, 3usize) }
    } else if c == 2 {
        if i == 0 { (0usize, 2usize) } else if i == 1 { (0usize, 3usize) }
        else if i == 2 { (2usize, 2usize) } else { (2usize, 3usize) }
    } else {
        if i == 0 { (0usize, 3usize) } else if i == 1 { (1usize, 3usize) }
        else if i == 2 { (2usize, 3usize) } else { (3usize, 3usize) }
    }
}

/// Midpoint of two parent corners, rounding toward zero.
pub open spec fn mid3(f: Face, pr: (usize, usize)) -> Vec3 {
    Vec3 {
        x: tdiv(f.corners[pr.0 as int].x + f.corners[pr.1 as int].x, 2) as i64,
        y: tdiv(f.corners[pr.0 as int].y + f.corners[pr.1 as int].y, 2) as i64,
        z: tdiv(f.corners[pr.0 as int].z + f.corners[pr.1 as int].z, 2) as i64,
    }
}

/// Midpoint of two parent texture positions, rounding toward zero.
pub open spec fn mid2(f: Face, pr: (usize, usize)) -> Vec2 {
    Vec2 {
        x: tdiv(f.texture_position[pr.0 as int].x + f.texture_position[pr.1 as int].x, 2) as i64,
        y: tdiv(f.texture_position[pr.0 as int].y + f.texture_position[pr.1 as int].y, 2) as i64,
    }
}

/// The `c`-th child of a subdivided face: corners and texture placement are
/// the table midpoints; normal, color, id and brightness state carry over.
pub open spec fn child_face(f: Face, c: int) -> Face {
    Face {
        corners: [
            mid3(f, subdiv_pair(c, 0)),
            mid3(f, subdiv_pair(c, 1)),
            mid3(f, subdiv_pair(c, 2)),
            mid3(f, subdiv_pair(c, 3)),
        ],
        texture_position: [
            mid2(f, subdiv_pair(c, 0)),
            mid2(f, subdiv_pair(c, 1)),
            mid2(f, subdiv_pair(c, 2)),
            mid2(f, subdiv_pair(c, 3)),
        ],
        ..f
    }
}

/// The corner-index pairs whose midpoints form the four child faces of a
/// subdivision, one row per child.
pub fn get_subdivisions() -> (r: [[(usize, usize); 4]; 4])
    ensures
        forall|c: int, i: int|
            0 <= c < 4 && 0 <= i < 4 ==> r[c][i] == subdiv_pair(c, i),
{
    [
        [(0, 0), (0, 1), (0, 2), (0, 3)],
        [(0, 1), (1, 1), (0, 3), (1, 3)],
        [(0, 2), (0, 3), (2, 2), (2, 3)],
        [(0, 3), (1, 3), (2, 3), (3, 3)],
    ]
}

impl Face {
    /// The arithmetic mean of the four corners.
    pub fn center(&self) -> (r: Vec3)
        requires
            face_geom_wf(*self),
        ensures
            r == spec_center(*self),
            vec3_in_range(r, COORD_LIMIT as int),
    {
        let sx = self.corners[0].x + self.corners[1].x + self.corners[2].x + self.corners[3].x;
        let sy = self.corners[0].y + self.corners[1].y + self.corners[2].y + self.corners[3].y;
        let sz = self.corners[0].z + self.corners[1].z + self.corners[2].z + self.corners[3].z;
        Vec3 { x: quarter(sx), y: quarter(sy), z: quarter(sz) }
    }

    /// The extent of the face's axis-aligned bounding box: componentwise
    /// maximum minus minimum over the four corners.
    pub fn size(&self) -> (r: Vec3)
        requires
            face_geom_wf(*self),
        ensures
            r.x == corner_max_x(*self) - corner_min_x(*self),
            r.y == corner_max_y(*self) - corner_min_y(*self),
            r.z == corner_max_z(*self) - corner_min_z(*self),
            vec3_in_range(r, 2 * COORD_LIMIT as int),
    {
        Vec3 {
            x: max4(self.corners[0].x, self.corners[1].x, self.corners[2].x, self.corners[3].x)
                - min4(
                self.corners[0].x,
                self.corners[1].x,
                self.corners[2].x,
                self.corners[3].x,
            ),
            y: max4(self.corners[0].y, self.corners[1].y, self.corners[2].y, self.corners[3].y)
                - min4(
                self.corners[0].y,
                self.corners[1].y,
                self.corners[2].y,
                self.corners[3].y,
            ),
            z: max4(self.corners[0].z, self.corners[1].z, self.corners[2].z, self.corners[3].z)
                - min4(
                self.corners[0].z,
                self.corners[1].z,
                self.corners[2].z,
                self.corners[3].z,
            ),
        }
    }

    /// Fixed-point squared distance between the centers of two faces.
    pub fn distance_squared(&self, other: &Face) -> (r: i64)
        requires
            face_geom_wf(*self),
            face_geom_wf(*other),
        ensures
            r == crate::vector::raw_dist_sq(spec_center(*self), spec_center(*other)) / (
            SCALE as int),
            r >= 0,
    {
        let c1 = self.center();
        let c2 = other.center();
        c1.distance_squared(&c2)
    }

    /// The face mirrored across the plane orthogonal to `axis`.
    pub fn reflect(&self, axis: Axis) -> (r: Face)
        requires
            vec3_in_range(self.corners[0], OP_LIMIT as int),
            vec3_in_range(self.corners[1], OP_LIMIT as int),
            vec3_in_range(self.corners[2], OP_LIMIT as int),
            vec3_in_range(self.corners[3], OP_LIMIT as int),
            vec3_in_range(self.normal, OP_LIMIT as int),
        ensures
            r == face_reflect(*self, axis),
    {
        Face {
            corners: [
                self.corners[0].reflect(axis),
                self.corners[1].reflect(axis),
                self.corners[2].reflect(axis),
                self.corners[3].reflect(axis),
            ],
            normal: self.normal.reflect(axis),
            ..*self
        }
    }

    /// The four children that exactly tile this face at doubled resolution.
    pub fn subdivide(&self) -> (r: [Face; 4])
        requires
            face_geom_wf(*self),
        ensures
            r[0] == child_face(*self, 0),
            r[1] == child_face(*self, 1),
            r[2] == child_face(*self, 2),
            r[3] == child_face(*self, 3),
    {
        let table = get_subdivisions();
        [
            make_child(self, &table, 0),
            make_child(self, &table, 1),
            make_child(self, &table, 2),
            make_child(self, &table, 3),
        ]
    }
}

/// Every entry of the subdivision table names a valid parent corner.
proof fn lemma_subdiv_pair_bounds(c: int, i: int)
    requires
        0 <= c < 4,
        0 <= i < 4,
    ensures
        subdiv_pair(c, i).0 < 4,
        subdiv_pair(c, i).1 < 4,
{
}

/// Builds one subdivision child from the parent and the table row.
fn make_child(f: &Face, table: &[[(usize, usize); 4]; 4], c: usize) -> (r: Face)
    requires
        face_geom_wf(*f),
        c < 4,
        forall|a: int, i: int|
            0 <= a < 4 && 0 <= i < 4 ==> table[a][i] == subdiv_pair(a, i),
    ensures
        r == child_face(*f, c as int),
{
    proof {
        lemma_subdiv_pair_bounds(c as int, 0);
        lemma_subdiv_pair_bounds(c as int, 1);
        lemma_subdiv_pair_bounds(c as int, 2);
        lemma_subdiv_pair_bounds(c as int, 3);
    }
    let row = table[c];
    Face {
        corners: [
            f.corners[row[0].0].midpoint(&f.corners[row[0].1]),
            f.corners[row[1].0].midpoint(&f.corners[row[1].1]),
            f.corners[row[2].0].midpoint(&f.corners[row[2].1]),
            f.corners[row[3].0].midpoint(&f.corners[row[3].1]),
        ],
        texture_position: [
            f.texture_position[row[0].0].midpoint(&f.texture_position[row[0].1]),
            f.texture_position[row[1].0].midpoint(&f.texture_position[row[1].1]),
            f.texture_position[row[2].0].midpoint(&f.texture_position[row[2].1]),
            f.texture_position[row[3].0].midpoint(&f.texture_position[row[3].1]),
        ],
        ..*f
    }
}

/// The four virtual variants of a source face, eagerly materialized as the
/// reflection generator's whole output.
pub fn face_reflections(f: &Face) -> (r: [Face; 4])
    requires
        face_geom_wf(*f),
    ensures
        r[0] == variant(*f, 0),
        r[1] == variant(*f, 1),
        r[2] == variant(*f, 2),
        r[3] == variant(*f, 3),
{
    let rx = f.reflect(Axis::X);
    [*f, f.reflect(Axis::Z), rx, rx.reflect(Axis::Z)]
}

/// Truncating division of a corner sum by four.
fn quarter(s: i64) -> (r: i64)
    requires
        -0x4000_0000_0000_0000 <= s <= 0x4000_0000_0000_0000,
    ensures
        r == tdiv(s as int, 4),
{
    if s >= 0 {
        s / 4
    } else {
        -((-s) / 4)
    }
}



/// The bake's single error: two distinct faces (or a virtual variant of
/// one) sit closer than the minimum admissible distance.  The corner sums
/// are four times the face centers, exact in fixed point.
#[derive(Clone, Copy, Debug, PartialEq, Eq, Structural)]
pub enum RadiosityError {
    DegenerateFacePair { id_a: u32, id_b: u32, corner_sum_a: Vec3, corner_sum_b: Vec3 },
}

/// The error names a pair that really is degenerate: a receiver and a
/// variant of a distinct-id source closer than the minimum distance.
pub open spec fn degenerate_witness(faces: Seq<Face>, e: RadiosityError) -> bool {
    exists|i: int, j: int, k: int|
        0 <= i < faces.len() && 0 <= j < faces.len() && 0 <= k < 4 && faces[i].id != faces[j].id
            && #[trigger] pair_dist(faces[i], variant(faces[j], k)) < MIN_PAIR_DIST && e == (
        RadiosityError::DegenerateFacePair {
            id_a: faces[i].id,
            id_b: faces[j].id,
            corner_sum_a: Vec3 {
                x: qx(faces[i]) as i64,
                y: qy(faces[i]) as i64,
                z: qz(faces[i]) as i64,
            },
            corner_sum_b: Vec3 {
                x: qx(variant(faces[j], k)) as i64,
                y: qy(variant(faces[j], k)) as i64,
                z: qz(variant(faces[j], k)) as i64,
            },
        })
}

/// The corner-coordinate sums of a face: four times its center, exact.
fn corner_sums(f: &Face) -> (r: (i64, i64, i64))
    requires
        vec3_in_range(f.corners[0], OP_LIMIT as int),
        vec3_in_range(f.corners[1], OP_LIMIT as int),
        vec3_in_range(f.corners[2], OP_LIMIT as int),
        vec3_in_range(f.corners[3], OP_LIMIT as int),
    ensures
        r.0 == qx(*f),
        r.1 == qy(*f),
        r.2 == qz(*f),
{
    (
        f.corners[0].x + f.corners[1].x + f.corners[2].x + f.corners[3].x,
        f.corners[0].y + f.corners[1].y + f.corners[2].y + f.corners[3].y,
        f.corners[0].z + f.corners[1].z + f.corners[2].z + f.corners[3].z,
    )
}

/// Everything the transfer formula needs of one (receiver, source variant)
/// pair: the squared distance and the two clamped orientation factors.
fn pair_geometry(recv: &Face, var: &Face) -> (r: (i64, i64, i64))
    requires
        face_geom_wf(*recv),
        face_geom_wf(*var),
    ensures
        r.0 == pair_dist(*recv, *var),
        0 <= r.0 <= DIST_LIMIT,
        r.1 == clamp0(cos_receiver(*recv, *var)),
        0 <= r.1 <= FORM_LIMIT,
        r.2 == clamp0(cos_source(*recv, *var)),
        0 <= r.2 <= FORM_LIMIT,
{
    let (ax, ay, az) = corner_sums(recv);
    let (bx, by, bz) = corner_sums(var);
    let dx = ax - bx;
    let dy = ay - by;
    let dz = az - bz;
    proof {
        lemma_pair_products(dx as int, dy as int, dz as int, recv.normal, var.normal);
    }
    let d = dx * dx + dy * dy + dz * dz;
    let c1 = (-dx) * recv.normal.x + (-dy) * recv.normal.y + (-dz) * recv.normal.z;
    let c2 = dx * var.normal.x + dy * var.normal.y + dz * var.normal.z;
    let f1 = if c1 > 0 { c1 } else { 0 };
    let f2 = if c2 > 0 { c2 } else { 0 };
    (d, f1, f2)
}

/// Bounds for the products formed from corner-sum differences and unit
/// normals: squares and mixed products stay well inside `i64`, squares are
/// non-negative, and the three-term sums respect the published limits.
proof fn lemma_pair_products(dx: int, dy: int, dz: int, n1: Vec3, n2: Vec3)
    requires
        -0x100_0000 <= dx <= 0x100_0000,
        -0x100_0000 <= dy <= 0x100_0000,
        -0x100_0000 <= dz <= 0x100_0000,
        vec3_in_range(n1, SCALE as int),
        vec3_in_range(n2, SCALE as int),
    ensures
        0 <= dx * dx <= 0x1_0000_0000_0000,
        0 <= dy * dy <= 0x1_0000_0000_0000,
        0 <= dz * dz <= 0x1_0000_0000_0000,
        -0x100_0000_0000 <= (-dx) * n1.x <= 0x100_0000_0000,
        -0x100_0000_0000 <= (-dy) * n1.y <= 0x100_0000_0000,
        -0x100_0000_0000 <= (-dz) * n1.z <= 0x100_0000_0000,
        -0x100_0000_0000 <= dx * n2.x <= 0x100_0000_0000,
        -0x100_0000_0000 <= dy * n2.y <= 0x100_0000_0000,
        -0x100_0000_0000 <= dz * n2.z <= 0x100_0000_0000,
{
    assert(0 <= dx * dx <= 0x1_0000_0000_0000 && 0 <= dy * dy <= 0x1_0000_0000_0000 && 0 <= dz
        * dz <= 0x1_0000_0000_0000) by (nonlinear_arith)
        requires
            -0x100_0000 <= dx <= 0x100_0000,
            -0x100_0000 <= dy <= 0x100_0000,
            -0x100_0000 <= dz <= 0x100_0000,
    ;
    assert(-0x100_0000_0000 <= (-dx) * n1.x <= 0x100_0000_0000 && -0x100_0000_0000 <= (-dy)
        * n1.y <= 0x100_0000_0000 && -0x100_0000_0000 <= (-dz) * n1.z <= 0x100_0000_0000
        && -0x100_0000_0000 <= dx * n2.x <= 0x100_0000_0000 && -0x100_0000_0000 <= dy * n2.y
        <= 0x100_0000_0000 && -0x100_0000_0000 <= dz * n2.z <= 0x100_0000_0000)
        by (nonlinear_arith)
        requires
            -0x100_0000 <= dx <= 0x100_0000,
            -0x100_0000 <= dy <= 0x100_0000,
            -0x100_0000 <= dz <= 0x100_0000,
            vec3_in_range(n1, SCALE as int),
            vec3_in_range(n2, SCALE as int),
            SCALE == 65536,
    ;
}

/// One channel of transferred energy; the executable twin of
/// [`transfer_amount`].
fn transfer_term(a: i64, p: i64, f1: i64, f2: i64, d: i64) -> (r: i64)
    requires
        0 <= a <= SCALE,
        0 <= p <= BRIGHT_LIMIT,
        0 <= f1 <= FORM_LIMIT,
        0 <= f2 <= FORM_LIMIT,
        MIN_PAIR_DIST <= d <= DIST_LIMIT,
    ensures
        r == transfer_amount(a as int, p as int, f1 as int, f2 as int, d as int),
        0 <= r <= BRIGHT_LIMIT,
{
    proof {
        assert(0 <= a * p <= 281474976710656) by (nonlinear_arith)
            requires
                0 <= a <= SCALE,
                0 <= p <= BRIGHT_LIMIT,
                SCALE == 65536,
                BRIGHT_LIMIT == 0x1_0000_0000i64,
        ;
    }
    let ap: i64 = a * p;
    let t1: i64 = ap / SCALE;
    proof {
        vstd::arithmetic::div_mod::lemma_div_nonincreasing(ap as int, SCALE as int);
        vstd::arithmetic::div_mod::lemma_div_pos_is_pos(ap as int, SCALE as int);
        assert(0 <= (t1 as int) * f1 <= 928455029464035206174343168) by (nonlinear_arith)
            requires
                0 <= t1 <= 281474976710656,
                0 <= f1 <= FORM_LIMIT,
                FORM_LIMIT == 3298534883328i64,
        ;
    }
    let u1: i128 = (t1 as i128) * (f1 as i128);
    let u2: i128 = u1 / (d as i128);
    proof {
        assert(0 <= u1 as int <= 928455029464035206174343168);
        vstd::arithmetic::div_mod::lemma_div_pos_is_pos(u1 as int, d as int);
        vstd::arithmetic::div_mod::lemma_fundamental_div_mod(u1 as int, d as int);
        vstd::arithmetic::div_mod::lemma_mod_bound(u1 as int, d as int);
        assert((d as int) * (u2 as int) <= u1 as int);
        let ghost gu2 = u2 as int;
        vstd::arithmetic::mul::lemma_mul_inequality(16777216, d as int, gu2);
        assert(16777216 * gu2 <= (d as int) * gu2);
        assert(gu2 <= 55340232221128654848) by (nonlinear_arith)
            requires
                16777216 * gu2 <= 928455029464035206174343168,
                0 <= gu2,
        ;
        assert(0 <= (u2 as int) * f2 <= 182541686432865033815525261574144)
            by (nonlinear_arith)
            requires
                0 <= u2 <= 55340232221128654848,
                0 <= f2 <= 3298534883328i64,
        ;
    }
    let u3: i128 = u2 * (f2 as i128);
    let u4: i128 = u3 / (d as i128);
    proof {
        vstd::arithmetic::div_mod::lemma_div_nonincreasing(u3 as int, d as int);
        vstd::arithmetic::div_mod::lemma_div_pos_is_pos(u3 as int, d as int);
    }
    let t: i128 = u4 / 64;
    proof {
        vstd::arithmetic::div_mod::lemma_div_nonincreasing(u4 as int, 64);
        vstd::arithmetic::div_mod::lemma_div_pos_is_pos(u4 as int, 64);
    }
    if t > (BRIGHT_LIMIT as i128) {
        BRIGHT_LIMIT
    } else {
        t as i64
    }
}

/// Checks every ordered pair of distinct-id faces, with all four variants
/// of the source, against the minimum-distance invariant.  Returns the
/// first offending pair, or confirms that none exists.
fn check_all_distances(faces: &Vec<Face>) -> (r: Result<(), RadiosityError>)
    requires
        faces_wf(faces@),
    ensures
        r is Ok <==> pairs_ok(faces@),
        r matches Err(e) ==> degenerate_witness(faces@, e),
{
    let n = faces.len();
    let mut i: usize = 0;
    while i < n
        invariant
            faces_wf(faces@),
            n == faces@.len(),
            i <= n,
            forall|a: int, b: int, k: int|
                0 <= a < i && 0 <= b < n && 0 <= k < 4 && faces@[a].id != faces@[b].id
                    ==> #[trigger] pair_dist(faces@[a], variant(faces@[b], k)) >= MIN_PAIR_DIST,
        decreases n - i,
    {
        let recv = faces[i];
        let mut j: usize = 0;
        while j < n
            invariant
                faces_wf(faces@),
                n == faces@.len(),
                i < n,
                j <= n,
                recv == faces@[i as int],
                forall|a: int, b: int, k: int|
                    0 <= a < i && 0 <= b < n && 0 <= k < 4 && faces@[a].id != faces@[b].id
                        ==> #[trigger] pair_dist(faces@[a], variant(faces@[b], k))
                        >= MIN_PAIR_DIST,
                forall|b: int, k: int|
                    0 <= b < j && 0 <= k < 4 && faces@[i as int].id != faces@[b].id
                        ==> #[trigger] pair_dist(faces@[i as int], variant(faces@[b], k))
                        >= MIN_PAIR_DIST,
            decreases n - j,
        {
            let src = faces[j];
            if recv.id != src.id {
                let vars = face_reflections(&src);
                let mut k: usize = 0;
                while k < 4
                    invariant
                        faces_wf(faces@),
                        n == faces@.len(),
                        i < n,
                        j < n,
                        recv == faces@[i as int],
                        src == faces@[j as int],
                        recv.id != src.id,
                        face_geom_wf(recv),
                        face_geom_wf(src),
                        k <= 4,
                        vars[0] == variant(src, 0),
                        vars[1] == variant(src, 1),
                        vars[2] == variant(src, 2),
                        vars[3] == variant(src, 3),
                        forall|t: int|
                            0 <= t < k ==> #[trigger] pair_dist(recv, variant(src, t))
                                >= MIN_PAIR_DIST,
                    decreases 4 - k,
                {
                    let var = vars[k];
                    proof {
                        lemma_variant_geom_wf(src, k as int);
                    }
                    let (d, _f1, _f2) = pair_geometry(&recv, &var);
                    if d < MIN_PAIR_DIST {
                        let (sax, say, saz) = corner_sums(&recv);
                        let (sbx, sby, sbz) = corner_sums(&var);
                        let e = RadiosityError::DegenerateFacePair {
                            id_a: recv.id,
                            id_b: src.id,
                            corner_sum_a: Vec3 { x: sax, y: say, z: saz },
                            corner_sum_b: Vec3 { x: sbx, y: sby, z: sbz },
                        };
                        proof {
                            assert(variant(src, k as int).id == src.id);
                            assert(degenerate_witness(faces@, e)) by {
                                assert(0 <= i < faces@.len() && 0 <= j < faces@.len() && 0 <= (
                                k as int) < 4 && faces@[i as int].id != faces@[j as int].id
                                    && pair_dist(
                                    faces@[i as int],
                                    variant(faces@[j as int], k as int),
                                ) < MIN_PAIR_DIST);
                            }
                        }
                        return Err(e);
                    }
                    k += 1;
                }
            }
            j += 1;
        }
        i += 1;
    }
    Ok(())
}

/// Mirroring a face preserves well-formed geometry: reflection only flips
/// coordinate signs and leaves the texture placement alone.
pub proof fn lemma_variant_geom_wf(f: Face, k: int)
    requires
        face_geom_wf(f),
        0 <= k < 4,
    ensures
        face_geom_wf(variant(f, k)),
        variant(f, k).id == f.id,
        variant(f, k).color == f.color,
        variant(f, k).last_iteration_brightness == f.last_iteration_brightness,
        variant(f, k).brightness == f.brightness,
{
}



/// Two faces agree on everything the transfer geometry reads: corners,
/// normal, placement, identity and color.
pub open spec fn same_geometry(a: Face, b: Face) -> bool {
    &&& a.corners == b.corners
    &&& a.texture_position == b.texture_position
    &&& a.normal == b.normal
    &&& a.id == b.id
    &&& a.color == b.color
}

/// Saturating addition of two admissible brightness values.
fn cap_add(a: i64, b: i64) -> (r: i64)
    requires
        0 <= a <= BRIGHT_LIMIT,
        0 <= b <= BRIGHT_LIMIT,
    ensures
        r == cap_bright(a + b),
        0 <= r <= BRIGHT_LIMIT,
{
    let s = a + b;
    if s > BRIGHT_LIMIT {
        BRIGHT_LIMIT
    } else {
        s
    }
}

/// Adds the light one source variant hands the receiver onto a pending
/// triple, channel by channel.
fn receive_from_variant(p: Brightness, recv: &Face, var: &Face) -> (r: Brightness)
    requires
        face_geom_wf(*recv),
        face_geom_wf(*var),
        bright_wf(p),
        bright_wf(var.last_iteration_brightness),
        pair_dist(*recv, *var) >= MIN_PAIR_DIST,
    ensures
        (r.r as int, r.g as int, r.b as int) == add_cap(
            (p.r as int, p.g as int, p.b as int),
            term_rgb(*recv, *var),
        ),
        bright_wf(r),
{
    let (d, f1, f2) = pair_geometry(recv, var);
    let pend = var.last_iteration_brightness;
    let tr = transfer_term((recv.color.r as i64) * 256, pend.r, f1, f2, d);
    let tg = transfer_term((recv.color.g as i64) * 256, pend.g, f1, f2, d);
    let tb = transfer_term((recv.color.b as i64) * 256, pend.b, f1, f2, d);
    Brightness { r: cap_add(p.r, tr), g: cap_add(p.g, tg), b: cap_add(p.b, tb) }
}

/// A source with nothing pending transfers nothing on any channel.
pub proof fn lemma_transfer_amount_zero(a: int, f1: int, f2: int, d: int)
    requires
        d > 0,
    ensures
        transfer_amount(a, 0, f1, f2, d) == 0,
{
    vstd::arithmetic::mul::lemma_mul_basics(a);
    assert(a * 0 == 0);
    assert((0int) / (SCALE as int) == 0) by {
        vstd::arithmetic::div_mod::lemma_basic_div(0, SCALE as int);
    }
    vstd::arithmetic::mul::lemma_mul_basics(f1);
    assert(0 * f1 == 0);
    assert((0int) / (d as int) == 0) by {
        vstd::arithmetic::div_mod::lemma_basic_div(0, d);
    }
    vstd::arithmetic::mul::lemma_mul_basics(f2);
    assert(0 * f2 == 0);
    assert((0int) / (TRANSFER_DIV as int) == 0) by {
        vstd::arithmetic::div_mod::lemma_basic_div(0, TRANSFER_DIV as int);
    }
}

/// A variant transforms only geometry: the source's pending light carries
/// over unchanged.
pub proof fn lemma_variant_preserves_state(f: Face, k: int)
    ensures
        variant(f, k).last_iteration_brightness == f.last_iteration_brightness,
        variant(f, k).brightness == f.brightness,
        variant(f, k).id == f.id,
        variant(f, k).color == f.color,
{
}

/// Skipping a source whose pending light is zero on every channel leaves
/// the receiver's gathered light unchanged, provided the pair respects the
/// distance invariant.
pub proof fn lemma_zero_source(p: (int, int, int), recv: Face, src: Face)
    requires
        src.last_iteration_brightness.r == 0,
        src.last_iteration_brightness.g == 0,
        src.last_iteration_brightness.b == 0,
        0 <= p.0 <= BRIGHT_LIMIT,
        0 <= p.1 <= BRIGHT_LIMIT,
        0 <= p.2 <= BRIGHT_LIMIT,
        forall|k: int| 0 <= k < 4 ==> #[trigger] pair_dist(recv, variant(src, k)) > 0,
    ensures
        add_variants(p, recv, src) == p,
{
    assert forall|k: int| 0 <= k < 4 implies #[trigger] term_rgb(recv, variant(src, k)) == (
    0int,
    0int,
    0int,
    ) by {
        lemma_variant_preserves_state(src, k);
        let f1 = clamp0(cos_receiver(recv, variant(src, k)));
        let f2 = clamp0(cos_source(recv, variant(src, k)));
        let d = pair_dist(recv, variant(src, k));
        lemma_transfer_amount_zero(albedo(recv.color.r), f1, f2, d);
        lemma_transfer_amount_zero(albedo(recv.color.g), f1, f2, d);
        lemma_transfer_amount_zero(albedo(recv.color.b), f1, f2, d);
    }
    assert(add_variants(p, recv, src) == p);
}

/// One full solver round, in place: settle every face, then gather the
/// energy each face receives from the round-start snapshot.
fn run_round(faces: &mut Vec<Face>)
    requires
        faces_wf(old(faces)@),
        pairs_ok(old(faces)@),
    ensures
        final(faces)@ == round_spec(old(faces)@),
        faces_wf(final(faces)@),
{
    let n = faces.len();
    let ghost orig = faces@;
    proof {
        assert(n == orig.len());
    }
    let mut snap: Vec<Face> = Vec::new();
    let mut j: usize = 0;
    while j < n
        invariant
            n == faces@.len(),
            faces@ == orig,
            j <= n,
            snap@ == orig.take(j as int),
        decreases n - j,
    {
        snap.push(faces[j]);
        proof {
            assert(snap@ =~= orig.take(j + 1));
        }
        j += 1;
    }
    proof {
        assert(snap@ =~= orig);
    }
    settle_faces(faces);
    proof {
        assert(forall|t: int|
            0 <= t < n ==> faces@[t] == settle_face(#[trigger] orig[t]));
    }
    let mut i: usize = 0;
    while i < n
        invariant
            n == faces@.len(),
            n == orig.len(),
            snap@ == orig,
            faces_wf(orig),
            pairs_ok(orig),
            i <= n,
            forall|t: int| 0 <= t < i ==> faces@[t] == round_spec(orig)[t],
            forall|t: int| 0 <= t < i ==> face_wf(#[trigger] faces@[t]),
            forall|t: int| i <= t < n ==> faces@[t] == settle_face(orig[t]),
        decreases n - i,
    {
        proof {
            assert(face_wf(orig[i as int]));
        }
        let recv = faces[i];
        proof {
            assert(face_geom_wf(recv));
        }
        let mut p = Brightness { r: 0, g: 0, b: 0 };
        let mut j: usize = 0;
        proof {
            assert((p.r as int, p.g as int, p.b as int) == gather(
                (0int, 0int, 0int),
                recv,
                orig,
                0,
            ));
        }
        while j < n
            invariant
                n == faces@.len(),
                n == orig.len(),
                snap@ == orig,
                faces_wf(orig),
                pairs_ok(orig),
                i < n,
                j <= n,
                recv == settle_face(orig[i as int]),
                face_geom_wf(recv),
                bright_wf(p),
                (p.r as int, p.g as int, p.b as int) == gather(
                    (0int, 0int, 0int),
                    recv,
                    orig,
                    j as int,
                ),
            decreases n - j,
        {
            proof {
                assert(face_wf(orig[j as int]));
            }
            let src = snap[j];
            if src.id != recv.id && !(src.last_iteration_brightness.r == 0
                && src.last_iteration_brightness.g == 0 && src.last_iteration_brightness.b
                == 0) {
                let vars = face_reflections(&src);
                proof {
                    assert(recv.id == orig[i as int].id);
                    assert(recv.corners == orig[i as int].corners);
                    assert forall|k: int| 0 <= k < 4 implies #[trigger] pair_dist(
                        recv,
                        variant(src, k),
                    ) >= MIN_PAIR_DIST by {
                        assert(pair_dist(orig[i as int], variant(orig[j as int], k))
                            >= MIN_PAIR_DIST);
                        assert(pair_dist(recv, variant(src, k)) == pair_dist(
                            orig[i as int],
                            variant(orig[j as int], k),
                        ));
                    }
                    lemma_variant_geom_wf(src, 0);
                    lemma_variant_geom_wf(src, 1);
                    lemma_variant_geom_wf(src, 2);
                    lemma_variant_geom_wf(src, 3);
                }
                let p0 = receive_from_variant(p, &recv, &vars[0]);
                let p1 = receive_from_variant(p0, &recv, &vars[1]);
                let p2 = receive_from_variant(p1, &recv, &vars[2]);
                let p3 = receive_from_variant(p2, &recv, &vars[3]);
                proof {
                    assert((p3.r as int, p3.g as int, p3.b as int) == add_variants(
                        (p.r as int, p.g as int, p.b as int),
                        recv,
                        orig[j as int],
                    ));
                }
                p = p3;
            } else {
                proof {
                    if src.id != recv.id {
                        assert forall|k: int| 0 <= k < 4 implies #[trigger] pair_dist(
                            recv,
                            variant(src, k),
                        ) > 0 by {
                            assert(pair_dist(orig[i as int], variant(orig[j as int], k))
                                >= MIN_PAIR_DIST);
                        }
                        lemma_zero_source((p.r as int, p.g as int, p.b as int), recv, src);
                    }
                }
            }
            j += 1;
        }
        proof {
            assert(round_spec(orig)[i as int] == Face {
                last_iteration_brightness: Brightness { r: p.r, g: p.g, b: p.b },
                ..recv
            });
        }
        faces.set(i, Face { last_iteration_brightness: p, ..recv });
        i += 1;
    }
    proof {
        assert(faces@ =~= round_spec(orig));
    }
}



/// The texel column a face's UV anchor (midpoint of texture corners 0 and
/// 3) lands on in a square image of side `res`.
pub open spec fn texel_x(f: Face, res: u32) -> int {
    (f.texture_position[0].x + f.texture_position[3].x) * res / 2 / (SCALE as int)
}

/// The texel row of a face's UV anchor.
pub open spec fn texel_y(f: Face, res: u32) -> int {
    (f.texture_position[0].y + f.texture_position[3].y) * res / 2 / (SCALE as int)
}

/// A brightness channel scaled by 256 and clamped to a byte.
pub open spec fn shade(b: int) -> int {
    let v = b * 256 / (SCALE as int);
    if v > 255 {
        255
    } else {
        v
    }
}

/// The fully opaque pixel a face writes: its accumulated brightness,
/// channelwise shaded to bytes.
pub open spec fn face_pixel(f: Face) -> (u8, u8, u8, u8) {
    (
        shade(f.brightness.r as int) as u8,
        shade(f.brightness.g as int) as u8,
        shade(f.brightness.b as int) as u8,
        255u8,
    )
}

/// The value the rasterizer leaves at `(x, y)`: the pixel of the last face
/// anchored there, or the untouched zero pixel.  Later faces win because
/// the rasterizer writes them in face order.
pub open spec fn raster_value(faces: Seq<Face>, res: u32, x: u32, y: u32) -> (u8, u8, u8, u8)
    decreases faces.len(),
{
    if faces.len() == 0 {
        (0u8, 0u8, 0u8, 0u8)
    } else if texel_x(faces.last(), res) == x && texel_y(faces.last(), res) == y {
        face_pixel(faces.last())
    } else {
        raster_value(faces.drop_last(), res, x, y)
    }
}

/// Scales one brightness channel to a byte, saturating at 255.
fn shade_channel(b: i64) -> (r: u8)
    requires
        0 <= b <= BRIGHT_LIMIT,
    ensures
        r == shade(b as int),
{
    let v = b * 256 / SCALE;
    proof {
        vstd::arithmetic::div_mod::lemma_div_pos_is_pos(b * 256, SCALE as int);
    }
    if v > 255 {
        255
    } else {
        v as u8
    }
}

/// Writes each face's settled brightness into a fresh square lightmap at
/// the texel of its UV anchor, in face order, one pixel per face.
pub fn write_lightmap(faces: &Vec<Face>, resolution: u32) -> (tex: Texture)
    requires
        faces_wf(faces@),
        resolution <= 16384,
    ensures
        texture_width(tex) == resolution,
        texture_height(tex) == resolution,
        forall|x: u32, y: u32|
            x < resolution && y < resolution ==> texture_pixels(tex)[(x, y)] == raster_value(
                faces@,
                resolution,
                x,
                y,
            ),
{
    proof {
        assert(resolution * resolution * 4 <= 0x4000_0000) by (nonlinear_arith)
            requires
                0 <= resolution <= 16384,
        ;
    }
    let mut tex = Texture::new(resolution, resolution);
    proof {
        assert(faces@.take(0) =~= Seq::<Face>::empty());
    }
    let n = faces.len();
    let mut i: usize = 0;
    while i < n
        invariant
            n == faces@.len(),
            faces_wf(faces@),
            resolution <= 16384,
            i <= n,
            texture_width(tex) == resolution,
            texture_height(tex) == resolution,
            forall|x: u32, y: u32|
                x < resolution && y < resolution ==> texture_pixels(tex)[(x, y)] == raster_value(
                    faces@.take(i as int),
                    resolution,
                    x,
                    y,
                ),
        decreases n - i,
    {
        proof {
            assert(face_wf(faces@[i as int]));
        }
        let f = faces[i];
        let sx = f.texture_position[0].x + f.texture_position[3].x;
        let sy = f.texture_position[0].y + f.texture_position[3].y;
        proof {
            assert(0 <= sx * (resolution as i64) <= 0x8_0000_0000) by (nonlinear_arith)
                requires
                    0 <= sx <= 131072,
                    0 <= resolution <= 16384,
            ;
            assert(0 <= sy * (resolution as i64) <= 0x8_0000_0000) by (nonlinear_arith)
                requires
                    0 <= sy <= 131072,
                    0 <= resolution <= 16384,
            ;
        }
        let px = sx * (resolution as i64) / 2 / SCALE;
        let py = sy * (resolution as i64) / 2 / SCALE;
        proof {
            vstd::arithmetic::div_mod::lemma_div_pos_is_pos(sx * (resolution as i64), 2);
            vstd::arithmetic::div_mod::lemma_div_pos_is_pos(
                sx * (resolution as i64) / 2,
                SCALE as int,
            );
            vstd::arithmetic::div_mod::lemma_div_pos_is_pos(sy * (resolution as i64), 2);
            vstd::arithmetic::div_mod::lemma_div_pos_is_pos(
                sy * (resolution as i64) / 2,
                SCALE as int,
            );
            assert(px == texel_x(f, resolution));
            assert(py == texel_y(f, resolution));
        }
        if px < (resolution as i64) && py < (resolution as i64) {
            let pixel = (
                shade_channel(f.brightness.r),
                shade_channel(f.brightness.g),
                shade_channel(f.brightness.b),
                255u8,
            );
            tex.put_pixel(px as u32, py as u32, pixel);
        }
        proof {
            assert(faces@.take(i + 1).drop_last() =~= faces@.take(i as int));
            assert(faces@.take(i + 1).last() == f);
            assert forall|x: u32, y: u32| x < resolution && y < resolution implies texture_pixels(
                tex,
            )[(x, y)] == raster_value(faces@.take(i + 1), resolution, x, y) by {
                if px == x && py == y {
                    assert(raster_value(faces@.take(i + 1), resolution, x, y) == face_pixel(f));
                } else {
                    assert(raster_value(faces@.take(i + 1), resolution, x, y) == raster_value(
                        faces@.take(i as int),
                        resolution,
                        x,
                        y,
                    ));
                }
            }
        }
        i += 1;
    }
    proof {
        assert(faces@.take(n as int) =~= faces@);
    }
    tex
}



/// The settle phase over the whole face list: every face's pending light
/// folds into its accumulated brightness.
fn settle_faces(faces: &mut Vec<Face>)
    requires
        faces_wf(old(faces)@),
    ensures
        final(faces)@ == old(faces)@.map_values(|f: Face| settle_face(f)),
        faces_wf(final(faces)@),
{
    let ghost orig = faces@;
    let n = faces.len();
    let mut i: usize = 0;
    while i < n
        invariant
            n == faces@.len(),
            n == orig.len(),
            faces_wf(orig),
            i <= n,
            forall|t: int| 0 <= t < i ==> faces@[t] == settle_face(#[trigger] orig[t]),
            forall|t: int| 0 <= t < i ==> face_wf(#[trigger] faces@[t]),
            forall|t: int| i <= t < n ==> faces@[t] == orig[t],
        decreases n - i,
    {
        proof {
            assert(face_wf(orig[i as int]));
        }
        let f = faces[i];
        let settled = Face {
            brightness: Brightness {
                r: cap_add(f.brightness.r, f.last_iteration_brightness.r),
                g: cap_add(f.brightness.g, f.last_iteration_brightness.g),
                b: cap_add(f.brightness.b, f.last_iteration_brightness.b),
            },
            last_iteration_brightness: Brightness { r: 0, g: 0, b: 0 },
            ..f
        };
        faces.set(i, settled);
        i += 1;
    }
    proof {
        assert(faces@ =~= orig.map_values(|f: Face| settle_face(f)));
    }
}

/// A round only moves light around: the geometry, identity and color of
/// every face are exactly those it started the round with.
pub proof fn lemma_round_geometry(s: Seq<Face>)
    ensures
        round_spec(s).len() == s.len(),
        forall|i: int|
            0 <= i < s.len() ==> same_geometry(#[trigger] round_spec(s)[i], s[i]),
{
    assert forall|i: int| 0 <= i < s.len() implies same_geometry(
        #[trigger] round_spec(s)[i],
        s[i],
    ) by {
        assert(round_spec(s)[i] == {
            let st = settle_face(s[i]);
            let p = gather((0int, 0int, 0int), st, s, s.len() as int);
            Face {
                last_iteration_brightness: Brightness {
                    r: p.0 as i64,
                    g: p.1 as i64,
                    b: p.2 as i64,
                },
                ..st
            }
        });
    }
}

/// The distance invariant only reads geometry, so it carries over between
/// any two face lists that agree on geometry pointwise.
pub proof fn lemma_pairs_ok_transport(s1: Seq<Face>, s2: Seq<Face>)
    requires
        s1.len() == s2.len(),
        forall|i: int| 0 <= i < s1.len() ==> same_geometry(#[trigger] s2[i], s1[i]),
        pairs_ok(s1),
    ensures
        pairs_ok(s2),
{
    assert forall|i: int, j: int, k: int|
        0 <= i < s2.len() && 0 <= j < s2.len() && 0 <= k < 4 && s2[i].id != s2[j].id implies #[trigger] pair_dist(
        s2[i],
        variant(s2[j], k),
    ) >= MIN_PAIR_DIST by {
        assert(same_geometry(s2[i], s1[i]));
        assert(same_geometry(s2[j], s1[j]));
        assert(pair_dist(s1[i], variant(s1[j], k)) >= MIN_PAIR_DIST);
        assert(variant(s2[j], k).corners == variant(s1[j], k).corners);
        assert(pair_dist(s2[i], variant(s2[j], k)) == pair_dist(s1[i], variant(s1[j], k)));
    }
}

/// Runs the progressive radiosity bake in place and rasterizes the result.
///
/// The distance invariant is checked up front over every ordered pair and
/// every source variant; a violation reports the offending pair and leaves
/// the face list untouched.  On success the face list holds exactly the
/// state [`bake_spec`] assigns it, and the returned lightmap holds the
/// rasterization of that state.
pub fn simulate_radiosity(faces: &mut Vec<Face>, iterations: u8) -> (result: Result<
    Texture,
    RadiosityError,
>)
    requires
        faces_wf(old(faces)@),
    ensures
        match result {
            Ok(tex) => {
                &&& pairs_ok(old(faces)@)
                &&& final(faces)@ == bake_spec(old(faces)@, iterations as int)
                &&& faces_wf(final(faces)@)
                &&& texture_width(tex) == LIGHTMAP_SIZE
                &&& texture_height(tex) == LIGHTMAP_SIZE
                &&& forall|x: u32, y: u32|
                    x < LIGHTMAP_SIZE && y < LIGHTMAP_SIZE ==> texture_pixels(tex)[(x, y)]
                        == raster_value(
                        bake_spec(old(faces)@, iterations as int),
                        LIGHTMAP_SIZE,
                        x,
                        y,
                    )
            },
            Err(e) => {
                &&& !pairs_ok(old(faces)@)
                &&& final(faces)@ == old(faces)@
                &&& degenerate_witness(old(faces)@, e)
            },
        },
{
    let ghost orig = faces@;
    match check_all_distances(faces) {
        Err(e) => {
            return Err(e);
        },
        Ok(_) => {},
    }
    let n = faces.len();
    let mut i: usize = 0;
    while i < n
        invariant
            n == faces@.len(),
            n == orig.len(),
            faces_wf(orig),
            i <= n,
            forall|t: int| 0 <= t < i ==> faces@[t] == seed_face(#[trigger] orig[t]),
            forall|t: int| i <= t < n ==> faces@[t] == orig[t],
        decreases n - i,
    {
        proof {
            assert(face_wf(orig[i as int]));
        }
        let f = faces[i];
        faces.set(i, Face { last_iteration_brightness: f.brightness, ..f });
        i += 1;
    }
    let ghost seeded = orig.map_values(|f: Face| seed_face(f));
    proof {
        assert(faces@ =~= seeded);
        assert(faces_wf(seeded)) by {
            assert forall|t: int| 0 <= t < seeded.len() implies face_wf(
                #[trigger] seeded[t],
            ) by {
                assert(face_wf(orig[t]));
                assert(seeded[t] == seed_face(orig[t]));
            }
        }
        assert(pairs_ok(seeded)) by {
            assert forall|t: int| 0 <= t < seeded.len() implies same_geometry(
                #[trigger] seeded[t],
                orig[t],
            ) by {
                assert(seeded[t] == seed_face(orig[t]));
            }
            lemma_pairs_ok_transport(orig, seeded);
        }
    }
    let mut it: u8 = 0;
    while it < iterations
        invariant
            iterations <= u8::MAX,
            it <= iterations,
            faces@ == rounds(seeded, it as int),
            faces@.len() == seeded.len(),
            faces_wf(seeded),
            pairs_ok(seeded),
            faces_wf(faces@),
            pairs_ok(faces@),
            forall|t: int|
                0 <= t < seeded.len() ==> same_geometry(#[trigger] faces@[t], seeded[t]),
        decreases iterations - it,
    {
        let ghost before = faces@;
        run_round(faces);
        proof {
            lemma_round_geometry(before);
            assert forall|t: int| 0 <= t < seeded.len() implies same_geometry(
                #[trigger] faces@[t],
                seeded[t],
            ) by {
                assert(same_geometry(round_spec(before)[t], before[t]));
                assert(same_geometry(before[t], seeded[t]));
            }
            lemma_pairs_ok_transport(seeded, faces@);
            assert(faces@ == rounds(seeded, it + 1));
        }
        it += 1;
    }
    settle_faces(faces);
    proof {
        assert(faces@ == bake_spec(orig, iterations as int));
    }
    let tex = write_lightmap(faces, LIGHTMAP_SIZE);
    Ok(tex)
}



/// One subdivision pass over a face list: each face is replaced by its
/// four children, in order.
pub open spec fn subdivide_all(s: Seq<Face>) -> Seq<Face> {
    Seq::new(s.len() * 4, |t: int| child_face(s[t / 4], t % 4))
}

/// `times` subdivision passes applied after another.
pub open spec fn subdivide_rec(s: Seq<Face>, times: int) -> Seq<Face>
    decreases times,
{
    if times <= 0 {
        s
    } else {
        subdivide_all(subdivide_rec(s, times - 1))
    }
}

/// The midpoint of two coordinates within a symmetric bound stays within
/// that bound.
proof fn lemma_mid_bound(a: int, b: int, lim: int)
    requires
        0 <= lim,
        -lim <= a <= lim,
        -lim <= b <= lim,
    ensures
        -lim <= tdiv(a + b, 2) <= lim,
{
    let sum = a + b;
    if sum >= 0 {
        vstd::arithmetic::div_mod::lemma_div_is_ordered(sum, 2 * lim, 2);
        assert((2 * lim) / 2 == lim);
        vstd::arithmetic::div_mod::lemma_div_pos_is_pos(sum, 2);
    } else {
        vstd::arithmetic::div_mod::lemma_div_is_ordered(-sum, 2 * lim, 2);
        assert((2 * lim) / 2 == lim);
        vstd::arithmetic::div_mod::lemma_div_pos_is_pos(-sum, 2);
    }
}

/// Subdivision children of a well-formed face are well-formed: midpoint
/// corners stay in range, midpoint texture positions stay in the atlas,
/// and every child's UV anchor stays strictly inside it.
pub proof fn lemma_child_wf(f: Face, c: int)
    requires
        face_wf(f),
        0 <= c < 4,
    ensures
        face_wf(child_face(f, c)),
{
    let ch = child_face(f, c);
    lemma_subdiv_pair_bounds(c, 0);
    lemma_subdiv_pair_bounds(c, 1);
    lemma_subdiv_pair_bounds(c, 2);
    lemma_subdiv_pair_bounds(c, 3);
    assert forall|i: int| 0 <= i < 4 implies vec3_in_range(
        #[trigger] mid3(f, subdiv_pair(c, i)),
        COORD_LIMIT as int,
    ) by {
        let pr = subdiv_pair(c, i);
        let a = f.corners[pr.0 as int];
        let b = f.corners[pr.1 as int];
        lemma_mid_bound(a.x as int, b.x as int, COORD_LIMIT as int);
        lemma_mid_bound(a.y as int, b.y as int, COORD_LIMIT as int);
        lemma_mid_bound(a.z as int, b.z as int, COORD_LIMIT as int);
    }
    assert forall|i: int| 0 <= i < 4 implies uv_in_atlas(#[trigger] mid2(f, subdiv_pair(c, i)))
        by {
        let pr = subdiv_pair(c, i);
        let a = f.texture_position[pr.0 as int];
        let b = f.texture_position[pr.1 as int];
        assert(0 <= tdiv(a.x + b.x, 2) <= SCALE && 0 <= tdiv(a.y + b.y, 2) <= SCALE) by {
            vstd::arithmetic::div_mod::lemma_div_is_ordered(a.x + b.x, 2 * SCALE, 2);
            vstd::arithmetic::div_mod::lemma_div_is_ordered(a.y + b.y, 2 * SCALE, 2);
            vstd::arithmetic::div_mod::lemma_div_pos_is_pos(a.x + b.x, 2);
            vstd::arithmetic::div_mod::lemma_div_pos_is_pos(a.y + b.y, 2);
        }
    }
    let t0 = f.texture_position[0];
    let t1 = f.texture_position[1];
    let t2 = f.texture_position[2];
    let t3 = f.texture_position[3];
    assert(ch.texture_position[0] == mid2(f, subdiv_pair(c, 0)));
    assert(ch.texture_position[3] == mid2(f, subdiv_pair(c, 3)));
    assert(ch.texture_position[0].x + ch.texture_position[3].x < 2 * SCALE
        && ch.texture_position[0].y + ch.texture_position[3].y < 2 * SCALE) by {
        lemma_anchor_strict(t0.x as int, t1.x as int, t2.x as int, t3.x as int, c);
        lemma_anchor_strict(t0.y as int, t1.y as int, t2.y as int, t3.y as int, c);
    }
}

/// The UV anchor of each subdivision child stays strictly inside the
/// atlas, given that the parent's does.
proof fn lemma_anchor_strict(t0: int, t1: int, t2: int, t3: int, c: int)
    requires
        0 <= c < 4,
        0 <= t0 <= SCALE,
        0 <= t1 <= SCALE,
        0 <= t2 <= SCALE,
        0 <= t3 <= SCALE,
        t0 + t3 < 2 * SCALE,
    ensures
        c == 0 ==> tdiv(t0 + t0, 2) + tdiv(t0 + t3, 2) < 2 * SCALE,
        c == 1 ==> tdiv(t0 + t1, 2) + tdiv(t1 + t3, 2) < 2 * SCALE,
        c == 2 ==> tdiv(t0 + t2, 2) + tdiv(t2 + t3, 2) < 2 * SCALE,
        c == 3 ==> tdiv(t0 + t3, 2) + tdiv(t3 + t3, 2) < 2 * SCALE,
{
}

/// Subdivides every face of the list the requested number of times (each
/// pass replaces a face with its four children), then runs the bake.
pub fn radiosity_subdivide(faces: &mut Vec<Face>, iterations: u8, subdivisions: u8) -> (result:
    Result<Texture, RadiosityError>)
    requires
        faces_wf(old(faces)@),
    ensures
        match result {
            Ok(tex) => {
                &&& pairs_ok(subdivide_rec(old(faces)@, subdivisions as int))
                &&& final(faces)@ == bake_spec(
                    subdivide_rec(old(faces)@, subdivisions as int),
                    iterations as int,
                )
                &&& texture_width(tex) == LIGHTMAP_SIZE
                &&& texture_height(tex) == LIGHTMAP_SIZE
                &&& forall|x: u32, y: u32|
                    x < LIGHTMAP_SIZE && y < LIGHTMAP_SIZE ==> texture_pixels(tex)[(x, y)]
                        == raster_value(final(faces)@, LIGHTMAP_SIZE, x, y)
            },
            Err(e) => {
                &&& !pairs_ok(subdivide_rec(old(faces)@, subdivisions as int))
                &&& final(faces)@ == subdivide_rec(old(faces)@, subdivisions as int)
                &&& degenerate_witness(final(faces)@, e)
            },
        },
{
    let ghost orig = faces@;
    let mut s: u8 = 0;
    while s < subdivisions
        invariant
            s <= subdivisions,
            faces@ == subdivide_rec(orig, s as int),
            faces_wf(faces@),
        decreases subdivisions - s,
    {
        let ghost before = faces@;
        let n = faces.len();
        let mut next: Vec<Face> = Vec::new();
        let mut i: usize = 0;
        while i < n
            invariant
                n == faces@.len(),
                faces@ == before,
                faces_wf(before),
                i <= n,
                next@.len() == 4 * i,
                forall|t: int|
                    0 <= t < 4 * i ==> next@[t] == child_face(#[trigger] before[t / 4], t % 4),
                forall|t: int| 0 <= t < 4 * i ==> face_wf(#[trigger] next@[t]),
            decreases n - i,
        {
            proof {
                assert(face_wf(before[i as int]));
            }
            let children = faces[i].subdivide();
            proof {
                lemma_child_wf(before[i as int], 0);
                lemma_child_wf(before[i as int], 1);
                lemma_child_wf(before[i as int], 2);
                lemma_child_wf(before[i as int], 3);
            }
            next.push(children[0]);
            next.push(children[1]);
            next.push(children[2]);
            next.push(children[3]);
            proof {
                assert forall|t: int| 0 <= t < 4 * (i + 1) implies next@[t] == child_face(
                    #[trigger] before[t / 4],
                    t % 4,
                ) by {
                    if t >= 4 * i {
                        assert(t / 4 == i && (t == 4 * i + t % 4));
                    }
                }
            }
            i += 1;
        }
        *faces = next;
        proof {
            assert(faces@ =~= subdivide_all(before));
            assert(faces@ == subdivide_rec(orig, s + 1));
        }
        s += 1;
    }
    simulate_radiosity(faces, iterations)
}



/// The largest of four coordinates.
pub open spec fn spec_max4(a: int, b: int, c: int, d: int) -> int {
    let m1 = if a >= b {
        a
    } else {
        b
    };
    let m2 = if c >= d {
        c
    } else {
        d
    };
    if m1 >= m2 {
        m1
    } else {
        m2
    }
}

/// The smallest of four coordinates.
pub open spec fn spec_min4(a: int, b: int, c: int, d: int) -> int {
    let m1 = if a <= b {
        a
    } else {
        b
    };
    let m2 = if c <= d {
        c
    } else {
        d
    };
    if m1 <= m2 {
        m1
    } else {
        m2
    }
}

/// The largest x coordinate among a face's corners.
pub open spec fn corner_max_x(f: Face) -> int {
    spec_max4(f.corners[0].x as int, f.corners[1].x as int, f.corners[2].x as int, f.corners[3].x as int)
}

/// The smallest x coordinate among a face's corners.
pub open spec fn corner_min_x(f: Face) -> int {
    spec_min4(f.corners[0].x as int, f.corners[1].x as int, f.corners[2].x as int, f.corners[3].x as int)
}

/// The largest y coordinate among a face's corners.
pub open spec fn corner_max_y(f: Face) -> int {
    spec_max4(f.corners[0].y as int, f.corners[1].y as int, f.corners[2].y as int, f.corners[3].y as int)
}

/// The smallest y coordinate among a face's corners.
pub open spec fn corner_min_y(f: Face) -> int {
    spec_min4(f.corners[0].y as int, f.corners[1].y as int, f.corners[2].y as int, f.corners[3].y as int)
}

/// The largest z coordinate among a face's corners.
pub open spec fn corner_max_z(f: Face) -> int {
    spec_max4(f.corners[0].z as int, f.corners[1].z as int, f.corners[2].z as int, f.corners[3].z as int)
}

/// The smallest z coordinate among a face's corners.
pub open spec fn corner_min_z(f: Face) -> int {
    spec_min4(f.corners[0].z as int, f.corners[1].z as int, f.corners[2].z as int, f.corners[3].z as int)
}

/// The larger of four fixed-point values.
fn max4(a: i64, b: i64, c: i64, d: i64) -> (r: i64)
    ensures
        r == spec_max4(a as int, b as int, c as int, d as int),
{
    let m1 = if a >= b {
        a
    } else {
        b
    };
    let m2 = if c >= d {
        c
    } else {
        d
    };
    if m1 >= m2 {
        m1
    } else {
        m2
    }
}

/// The smaller of four fixed-point values.
fn min4(a: i64, b: i64, c: i64, d: i64) -> (r: i64)
    ensures
        r == spec_min4(a as int, b as int, c as int, d as int),
{
    let m1 = if a <= b {
        a
    } else {
        b
    };
    let m2 = if c <= d {
        c
    } else {
        d
    };
    if m1 <= m2 {
        m1
    } else {
        m2
    }
}


} // verus!

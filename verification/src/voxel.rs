//! Voxel-grid surface extraction.
//!
//! A voxel grid is a cube of cells, each with a material color and an
//! emission.  Every filled cell contributes one quadrilateral face per side
//! that borders an empty cell or the outside; the faces carry atlas texture
//! placements and seed the radiosity solver.

use vstd::prelude::*;
use crate::fixed::{SCALE, BRIGHT_LIMIT};
use crate::vector::{Vec3, Vec2};
use crate::radiosity_color::RadiosityColor;
use crate::radiosity::{Face, Brightness, RadiosityError, bake_spec};
use crate::texture::{Texture, texture_pixels, texture_width, texture_height};

verus! {

/// One side of a unit cube: its corner positions (components 0 or one unit
/// in fixed point), its outward normals, the six triangle indices that
/// wind it outward, and the grid offset of the neighbor it faces.
pub struct CubeSide {
    pub vertices: [Vec3; 4],
    pub normals: [Vec3; 4],
    pub indices: [usize; 6],
    pub offset: (i32, i32, i32),
}

/// Generator of the six cube sides: three edges (x, y, z), each with a
/// back and a front side.
pub struct CubeSides {
    pub edge: u8,
    pub front: bool,
}

/// How many sides the generator has already produced.
pub open spec fn sides_done(c: CubeSides) -> int {
    c.edge * 2 + if c.front {
        1int
    } else {
        0int
    }
}

/// The axis triple of an edge: the outward axis and the two axes that span
/// the side, as fixed-point unit vectors.
pub open spec fn edge_axes(edge: int) -> (Vec3, Vec3, Vec3) {
    if edge == 0 {
        (
            Vec3 { x: SCALE, y: 0, z: 0 },
            Vec3 { x: 0, y: SCALE, z: 0 },
            Vec3 { x: 0, y: 0, z: SCALE },
        )
    } else if edge == 1 {
        (
            Vec3 { x: 0, y: SCALE, z: 0 },
            Vec3 { x: 0, y: 0, z: SCALE },
            Vec3 { x: SCALE, y: 0, z: 0 },
        )
    } else {
        (
            Vec3 { x: 0, y: 0, z: SCALE },
            Vec3 { x: SCALE, y: 0, z: 0 },
            Vec3 { x: 0, y: SCALE, z: 0 },
        )
    }
}

/// The `s`-th cube side (`s` counts back and front of each edge in turn):
/// corner positions, normals, winding and neighbor offset.
pub open spec fn cube_side_spec(s: int) -> CubeSide {
    let edge = s / 2;
    let front = s % 2 == 1;
    let axes = edge_axes(edge);
    let n = axes.0;
    let a = axes.1;
    let b = axes.2;
    let shift = if front {
        n
    } else {
        Vec3 { x: 0, y: 0, z: 0 }
    };
    let sign: int = if front {
        1
    } else {
        -1
    };
    CubeSide {
        vertices: [
            shift,
            Vec3 { x: (a.x + shift.x) as i64, y: (a.y + shift.y) as i64, z: (a.z + shift.z) as i64 },
            Vec3 { x: (b.x + shift.x) as i64, y: (b.y + shift.y) as i64, z: (b.z + shift.z) as i64 },
            Vec3 {
                x: (a.x + b.x + shift.x) as i64,
                y: (a.y + b.y + shift.y) as i64,
                z: (a.z + b.z + shift.z) as i64,
            },
        ],
        normals: [
            Vec3 { x: (sign * n.x) as i64, y: (sign * n.y) as i64, z: (sign * n.z) as i64 },
            Vec3 { x: (sign * n.x) as i64, y: (sign * n.y) as i64, z: (sign * n.z) as i64 },
            Vec3 { x: (sign * n.x) as i64, y: (sign * n.y) as i64, z: (sign * n.z) as i64 },
            Vec3 { x: (sign * n.x) as i64, y: (sign * n.y) as i64, z: (sign * n.z) as i64 },
        ],
        indices: if front {
            [0usize, 1usize, 2usize, 2usize, 1usize, 3usize]
        } else {
            [0usize, 2usize, 1usize, 1usize, 2usize, 3usize]
        },
        offset: (
            ((sign * n.x) / (SCALE as int)) as i32,
            ((sign * n.y) / (SCALE as int)) as i32,
            ((sign * n.z) / (SCALE as int)) as i32,
        ),
    }
}

impl CubeSides {
    /// A fresh generator, positioned before the first side.
    pub fn new() -> (r: CubeSides)
        ensures
            r.edge == 0,
            !r.front,
            sides_done(r) == 0,
    {
        CubeSides { edge: 0, front: false }
    }

    /// The side the generator currently points at.
    pub fn get_item(&self) -> (r: CubeSide)
        requires
            self.edge < 3,
        ensures
            r == cube_side_spec(sides_done(*self)),
    {
        let (n, a, b) = match self.edge {
            0 => (
                Vec3 { x: SCALE, y: 0, z: 0 },
                Vec3 { x: 0, y: SCALE, z: 0 },
                Vec3 { x: 0, y: 0, z: SCALE },
            ),
            1 => (
                Vec3 { x: 0, y: SCALE, z: 0 },
                Vec3 { x: 0, y: 0, z: SCALE },
                Vec3 { x: SCALE, y: 0, z: 0 },
            ),
            _ => (
                Vec3 { x: 0, y: 0, z: SCALE },
                Vec3 { x: SCALE, y: 0, z: 0 },
                Vec3 { x: 0, y: SCALE, z: 0 },
            ),
        };
        let shift = if self.front {
            n
        } else {
            Vec3 { x: 0, y: 0, z: 0 }
        };
        let indices: [usize; 6] = if self.front {
            [0, 1, 2, 2, 1, 3]
        } else {
            [0, 2, 1, 1, 2, 3]
        };
        let sign: i64 = if self.front {
            1
        } else {
            -1
        };
        let outward = Vec3 { x: sign * n.x, y: sign * n.y, z: sign * n.z };
        CubeSide {
            vertices: [
                shift,
                Vec3 { x: a.x + shift.x, y: a.y + shift.y, z: a.z + shift.z },
                Vec3 { x: b.x + shift.x, y: b.y + shift.y, z: b.z + shift.z },
                Vec3 {
                    x: a.x + b.x + shift.x,
                    y: a.y + b.y + shift.y,
                    z: a.z + b.z + shift.z,
                },
            ],
            normals: [outward, outward, outward, outward],
            indices,
            offset: (
                (outward.x / SCALE) as i32,
                (outward.y / SCALE) as i32,
                (outward.z / SCALE) as i32,
            ),
        }
    }

    /// Produces the next side, or nothing once all six are out.
    pub fn next(&mut self) -> (r: Option<CubeSide>)
        ensures
            sides_done(*old(self)) >= 6 ==> r is None && *final(self) == *old(self),
            sides_done(*old(self)) < 6 ==> r == Some(cube_side_spec(sides_done(*old(self))))
                && sides_done(*final(self)) == sides_done(*old(self)) + 1,
    {
        if self.edge >= 3 {
            return None;
        }
        let item = self.get_item();
        if self.front {
            self.edge += 1;
            self.front = false;
        } else {
            self.front = true;
        }
        Some(item)
    }
}

/// A cubic voxel grid with its cells in a flat vector, x-major then y then
/// z.
pub struct VoxelGrid {
    pub size: usize,
    pub cells: Vec<RadiosityColor>,
}

/// An admissible grid: cubic cell count, a workable side length, and every
/// cell's emission an admissible brightness.
pub open spec fn grid_wf(g: VoxelGrid) -> bool {
    &&& 1 <= g.size <= 256
    &&& g.cells@.len() == g.size * g.size * g.size
    &&& forall|i: int|
        0 <= i < g.cells@.len() ==> 0 <= (#[trigger] g.cells@[i]).emission <= BRIGHT_LIMIT
}

/// The flat index of cell `(x, y, z)`.
pub open spec fn cell_index(g: VoxelGrid, x: int, y: int, z: int) -> int {
    x * g.size * g.size + y * g.size + z
}

/// The cell at `(x, y, z)`; meaningful only in bounds.
pub open spec fn cell_at(g: VoxelGrid, x: int, y: int, z: int) -> RadiosityColor {
    g.cells@[cell_index(g, x, y, z)]
}

/// The coordinates lie outside the grid, or the cell there is empty
/// (its color's alpha channel is zero).
pub open spec fn spec_empty_or_oob(g: VoxelGrid, x: int, y: int, z: int) -> bool {
    ||| !(0 <= x < g.size && 0 <= y < g.size && 0 <= z < g.size)
    ||| cell_at(g, x, y, z).color.a == 0
}

/// The cell is inside the grid and holds material.
pub open spec fn spec_filled(g: VoxelGrid, x: int, y: int, z: int) -> bool {
    !spec_empty_or_oob(g, x, y, z)
}

/// Whether the cell at `coords` is empty or outside the grid; a filled
/// cell grows a face toward every such neighbor.
pub fn is_empty_or_out_of_bounds(g: &VoxelGrid, coords: (i32, i32, i32)) -> (r: bool)
    requires
        grid_wf(*g),
    ensures
        r == spec_empty_or_oob(*g, coords.0 as int, coords.1 as int, coords.2 as int),
{
    if coords.0 < 0 || coords.1 < 0 || coords.2 < 0 {
        return true;
    }
    let size = g.size;
    if coords.0 >= size as i32 || coords.1 >= size as i32 || coords.2 >= size as i32 {
        return true;
    }
    let x = coords.0 as usize;
    let y = coords.1 as usize;
    let z = coords.2 as usize;
    proof {
        assert(x * size <= 256 * 256 && x * size * size <= 256 * 256 * 256 && y * size <= 256
            * 256 && x * size * size + y * size + z < size * size * size) by (nonlinear_arith)
            requires
                x < size,
                y < size,
                z < size,
                1 <= size <= 256,
        ;
    }
    g.cells[x * size * size + y * size + z].color.a == 0
}

/// Side `s` of cell `(x, y, z)` borders an empty cell or the outside, so a
/// face is generated for it.
pub open spec fn side_exposed(g: VoxelGrid, x: int, y: int, z: int, s: int) -> bool {
    let off = cube_side_spec(s).offset;
    spec_empty_or_oob(g, x + off.0, y + off.1, z + off.2)
}

/// The exposed sides (as `(x, y, z, side)` tuples) of one cell, among the
/// sides numbered below `s`; empty if the cell holds no material.
pub open spec fn cell_sides_upto(g: VoxelGrid, x: int, y: int, z: int, s: int) -> Seq<
    (int, int, int, int),
>
    decreases s,
{
    if s <= 0 {
        Seq::empty()
    } else {
        let prev = cell_sides_upto(g, x, y, z, s - 1);
        if spec_filled(g, x, y, z) && side_exposed(g, x, y, z, s - 1) {
            prev + seq![(x, y, z, s - 1)]
        } else {
            prev
        }
    }
}

/// All exposed sides of the cells with flat index below `c`, in cell order
/// then side order.
pub open spec fn sides_upto(g: VoxelGrid, c: int) -> Seq<(int, int, int, int)>
    decreases c,
{
    if c <= 0 {
        Seq::empty()
    } else {
        let x = (c - 1) / (g.size * g.size);
        let y = ((c - 1) % (g.size * g.size)) / (g.size as int);
        let z = (c - 1) % (g.size as int);
        sides_upto(g, c - 1) + cell_sides_upto(g, x, y, z, 6)
    }
}

/// Every exposed side of the whole grid, in generation order.
pub open spec fn all_sides(g: VoxelGrid) -> Seq<(int, int, int, int)> {
    sides_upto(g, g.size * g.size * g.size)
}

/// A cube corner of cell `(x, y, z)` scaled into the unit cube the grid
/// fills: `(coordinate * SCALE + corner) / size`.
pub open spec fn world_coord(x: int, v: int, size: int) -> int {
    (x * SCALE + v) / size
}

/// The texture-atlas placement of the `t`-th face: a margin-inset quad in
/// the `t`-th slot of a 64-by-64 atlas.
pub open spec fn atlas_quad(t: int) -> [Vec2; 4] {
    let ox = (t / 64) * 1024;
    let oy = (t % 64) * 1024;
    [
        Vec2 { x: (256 + ox) as i64, y: (256 + oy) as i64 },
        Vec2 { x: (768 + ox) as i64, y: (1024 + oy) as i64 },
        Vec2 { x: (1024 + ox) as i64, y: (768 + oy) as i64 },
        Vec2 { x: (768 + ox) as i64, y: (768 + oy) as i64 },
    ]
}

/// The face generated for exposed side `e`, as the `t`-th face overall:
/// its corners are the cube side's corners in world coordinates, its color
/// and emission come from the cell, and its id and atlas slot are `t`.
pub open spec fn mesh_face(g: VoxelGrid, e: (int, int, int, int), t: int) -> Face {
    let cs = cube_side_spec(e.3);
    let cell = cell_at(g, e.0, e.1, e.2);
    Face {
        corners: [
            Vec3 {
                x: world_coord(e.0, cs.vertices[0].x as int, g.size as int) as i64,
                y: world_coord(e.1, cs.vertices[0].y as int, g.size as int) as i64,
                z: world_coord(e.2, cs.vertices[0].z as int, g.size as int) as i64,
            },
            Vec3 {
                x: world_coord(e.0, cs.vertices[1].x as int, g.size as int) as i64,
                y: world_coord(e.1, cs.vertices[1].y as int, g.size as int) as i64,
                z: world_coord(e.2, cs.vertices[1].z as int, g.size as int) as i64,
            },
            Vec3 {
                x: world_coord(e.0, cs.vertices[2].x as int, g.size as int) as i64,
                y: world_coord(e.1, cs.vertices[2].y as int, g.size as int) as i64,
                z: world_coord(e.2, cs.vertices[2].z as int, g.size as int) as i64,
            },
            Vec3 {
                x: world_coord(e.0, cs.vertices[3].x as int, g.size as int) as i64,
                y: world_coord(e.1, cs.vertices[3].y as int, g.size as int) as i64,
                z: world_coord(e.2, cs.vertices[3].z as int, g.size as int) as i64,
            },
        ],
        texture_position: atlas_quad(t),
        normal: cs.normals[0],
        brightness: Brightness { r: cell.emission, g: cell.emission, b: cell.emission },
        last_iteration_brightness: Brightness { r: 0, g: 0, b: 0 },
        id: t as u32,
        color: cell.color,
    }
}

/// The face list the grid generates, before any baking.
pub open spec fn gen_faces(g: VoxelGrid) -> Seq<Face> {
    Seq::new(all_sides(g).len(), |t: int| mesh_face(g, all_sides(g)[t], t))
}

/// The mesh a voxel grid generates: vertex attributes, triangle indices,
/// and the per-face radiosity records.
pub struct VoxelMesh {
    pub positions: Vec<Vec3>,
    pub normals: Vec<Vec3>,
    pub texture_coordinates: Vec<Vec2>,
    pub indexes: Vec<usize>,
    pub faces: Vec<Face>,
}

/// Why a grid could not be meshed and baked.
#[derive(Clone, Copy, Debug, PartialEq, Eq, Structural)]
pub enum VoxelMeshError {
    /// More exposed faces than the texture atlas has slots.
    AtlasFull,
    /// The generated faces violate the minimum-distance invariant.
    Degenerate(RadiosityError),
}


/// The cube-side table only holds unit-cube corners and unit normals.
proof fn lemma_cube_side_values(st: int)
    requires
        0 <= st < 6,
    ensures
        forall|i: int|
            0 <= i < 4 ==> {
                let v = #[trigger] cube_side_spec(st).vertices[i];
                (v.x == 0 || v.x == SCALE) && (v.y == 0 || v.y == SCALE) && (v.z == 0 || v.z
                    == SCALE)
            },
        crate::vector::vec3_in_range(cube_side_spec(st).normals[0], SCALE as int),
        -1 <= cube_side_spec(st).offset.0 <= 1,
        -1 <= cube_side_spec(st).offset.1 <= 1,
        -1 <= cube_side_spec(st).offset.2 <= 1,
{
    assert(st == 0 || st == 1 || st == 2 || st == 3 || st == 4 || st == 5);
    assert(st / 2 == 0 || st / 2 == 1 || st / 2 == 2);
    assert(st % 2 == 0 || st % 2 == 1);
    assert forall|i: int| 0 <= i < 4 implies {
        let v = #[trigger] cube_side_spec(st).vertices[i];
        (v.x == 0 || v.x == SCALE) && (v.y == 0 || v.y == SCALE) && (v.z == 0 || v.z == SCALE)
    } by {
        assert(i == 0 || i == 1 || i == 2 || i == 3);
        let cs = cube_side_spec(st);
    }
    assert((1int) * (65536int) == 65536 && ((-1int)) * (65536int) == -65536 && (1int) * (0int)
        == 0 && ((-1int)) * (0int) == 0) by (nonlinear_arith);
}

/// One world coordinate of a cube corner: exact, and inside the unit cube.
fn world(x: usize, v: i64, size: usize) -> (r: i64)
    requires
        x < size,
        1 <= size <= 256,
        v == 0 || v == SCALE,
    ensures
        r == world_coord(x as int, v as int, size as int),
        0 <= r <= SCALE,
{
    let num = (x as i64) * SCALE + v;
    proof {
        assert(num <= (size as i64) * SCALE && (size as i64) * SCALE > 0) by (nonlinear_arith)
            requires
                x < size,
                1 <= size <= 256,
                v == 0 || v == SCALE,
                num == (x as i64) * SCALE + v,
                SCALE == 65536,
        ;
        vstd::arithmetic::div_mod::lemma_div_is_ordered(
            num as int,
            (size as int) * (SCALE as int),
            size as int,
        );
        vstd::arithmetic::div_mod::lemma_div_multiples_vanish(SCALE as int, size as int);
        vstd::arithmetic::div_mod::lemma_div_pos_is_pos(num as int, size as int);
    }
    num / (size as i64)
}

/// Builds the face record for one exposed cube side.
fn build_face(
    g: &VoxelGrid,
    x: usize,
    y: usize,
    z: usize,
    side: &CubeSide,
    Ghost(st): Ghost<int>,
    t: usize,
) -> (r: Face)
    requires
        grid_wf(*g),
        x < g.size,
        y < g.size,
        z < g.size,
        0 <= st < 6,
        *side == cube_side_spec(st),
        t < 4096,
    ensures
        r == mesh_face(*g, (x as int, y as int, z as int, st), t as int),
        crate::radiosity::face_wf(r),
{
    proof {
        lemma_cube_side_values(st);
        assert(cell_index(*g, x as int, y as int, z as int) < g.cells@.len())
            by (nonlinear_arith)
            requires
                x < g.size,
                y < g.size,
                z < g.size,
                1 <= g.size <= 256,
                g.cells@.len() == g.size * g.size * g.size,
                cell_index(*g, x as int, y as int, z as int) == x * g.size * g.size + y
                    * g.size + z,
        ;
        assert(x * g.size <= 256 * 256 && x * g.size * g.size <= 256 * 256 * 256 && y * g.size
            <= 256 * 256) by (nonlinear_arith)
            requires
                x < g.size,
                y < g.size,
                1 <= g.size <= 256,
        ;
    }
    let size = g.size;
    let cell = g.cells[x * size * size + y * size + z];
    let ox = (t / 64) * 1024;
    let oy = (t % 64) * 1024;
    proof {
        vstd::arithmetic::div_mod::lemma_fundamental_div_mod(t as int, 64);
        vstd::arithmetic::div_mod::lemma_mod_bound(t as int, 64);
        vstd::arithmetic::div_mod::lemma_div_pos_is_pos(t as int, 64);
        assert(t / 64 <= 63);
    }
    let uv = [
        Vec2 { x: 256 + ox as i64, y: 256 + oy as i64 },
        Vec2 { x: 768 + ox as i64, y: 1024 + oy as i64 },
        Vec2 { x: 1024 + ox as i64, y: 768 + oy as i64 },
        Vec2 { x: 768 + ox as i64, y: 768 + oy as i64 },
    ];
    let corners = [
        Vec3 {
            x: world(x, side.vertices[0].x, size),
            y: world(y, side.vertices[0].y, size),
            z: world(z, side.vertices[0].z, size),
        },
        Vec3 {
            x: world(x, side.vertices[1].x, size),
            y: world(y, side.vertices[1].y, size),
            z: world(z, side.vertices[1].z, size),
        },
        Vec3 {
            x: world(x, side.vertices[2].x, size),
            y: world(y, side.vertices[2].y, size),
            z: world(z, side.vertices[2].z, size),
        },
        Vec3 {
            x: world(x, side.vertices[3].x, size),
            y: world(y, side.vertices[3].y, size),
            z: world(z, side.vertices[3].z, size),
        },
    ];
    Face {
        corners,
        texture_position: uv,
        normal: side.normals[0],
        brightness: Brightness { r: cell.emission, g: cell.emission, b: cell.emission },
        last_iteration_brightness: Brightness { r: 0, g: 0, b: 0 },
        id: t as u32,
        color: cell.color,
    }
}

/// A cell with no material contributes no sides.
proof fn lemma_cell_sides_empty(g: VoxelGrid, x: int, y: int, z: int, s: int)
    requires
        !spec_filled(g, x, y, z),
        s >= 0,
    ensures
        cell_sides_upto(g, x, y, z, s) =~= Seq::<(int, int, int, int)>::empty(),
    decreases s,
{
    if s > 0 {
        lemma_cell_sides_empty(g, x, y, z, s - 1);
    }
}

/// A cell's side list only grows as more sides are considered.
proof fn lemma_cell_sides_len_mono(g: VoxelGrid, x: int, y: int, z: int, s1: int, s2: int)
    requires
        s1 <= s2,
    ensures
        cell_sides_upto(g, x, y, z, s1).len() <= cell_sides_upto(g, x, y, z, s2).len(),
    decreases s2,
{
    if s1 < s2 && s2 > 0 {
        lemma_cell_sides_len_mono(g, x, y, z, s1, s2 - 1);
    }
}

/// The grid's side list only grows as more cells are considered.
proof fn lemma_sides_upto_len_mono(g: VoxelGrid, c1: int, c2: int)
    requires
        c1 <= c2,
    ensures
        sides_upto(g, c1).len() <= sides_upto(g, c2).len(),
    decreases c2,
{
    if c1 < c2 && c2 > 0 {
        lemma_sides_upto_len_mono(g, c1, c2 - 1);
    }
}

/// Unfolds the grid walk at cell `(x, y, z)`: the side list up to the next
/// flat index extends the one up to this cell's flat index by this cell's
/// sides.
proof fn lemma_flat_unfold(g: VoxelGrid, x: int, y: int, z: int)
    requires
        grid_wf(g),
        0 <= x < g.size,
        0 <= y < g.size,
        0 <= z < g.size,
    ensures
        sides_upto(g, x * g.size * g.size + y * g.size + z + 1) == sides_upto(
            g,
            x * g.size * g.size + y * g.size + z,
        ) + cell_sides_upto(g, x, y, z, 6),
{
    let sz = g.size as int;
    let c = x * sz * sz + y * sz + z;
    assert(0 <= y * sz + z < sz * sz && y * sz + z == y * sz + z && c == x * (sz * sz) + (y
        * sz + z)) by (nonlinear_arith)
        requires
            0 <= x < sz,
            0 <= y < sz,
            0 <= z < sz,
            c == x * sz * sz + y * sz + z,
            1 <= sz <= 256,
    ;
    vstd::arithmetic::div_mod::lemma_fundamental_div_mod_converse(c, sz * sz, x, y * sz + z);
    vstd::arithmetic::div_mod::lemma_fundamental_div_mod_converse(y * sz + z, sz, y, z);
    assert(c / (sz * sz) == x);
    assert((c % (sz * sz)) / sz == y);
    assert(c % sz == z) by {
        vstd::arithmetic::div_mod::lemma_mod_mod(c, sz, sz);
        assert(c == (x * sz + y) * sz + z) by (nonlinear_arith)
            requires
                c == x * sz * sz + y * sz + z,
        ;
        vstd::arithmetic::div_mod::lemma_fundamental_div_mod_converse(c, sz, x * sz + y, z);
    }
    assert(sides_upto(g, c + 1) == sides_upto(g, c) + cell_sides_upto(g, x, y, z, 6));
}



/// The mesh buffers faithfully reflect a side list: four vertices, four
/// normals and four texture coordinates per face, six triangle indices
/// into the face's own vertices, and one face record per side.
pub open spec fn mesh_built(
    g: VoxelGrid,
    positions: Seq<Vec3>,
    normals: Seq<Vec3>,
    uvs: Seq<Vec2>,
    indexes: Seq<usize>,
    faces: Seq<Face>,
    sides: Seq<(int, int, int, int)>,
) -> bool {
    &&& faces.len() == sides.len()
    &&& positions.len() == 4 * sides.len()
    &&& normals.len() == 4 * sides.len()
    &&& uvs.len() == 4 * sides.len()
    &&& indexes.len() == 6 * sides.len()
    &&& forall|t: int| 0 <= t < sides.len() ==> #[trigger] faces[t] == mesh_face(g, sides[t], t)
    &&& forall|t: int, i: int|
        0 <= t < sides.len() && 0 <= i < 4 ==> #[trigger] positions[4 * t + i]
            == mesh_face(g, sides[t], t).corners[i]
    &&& forall|t: int, i: int|
        0 <= t < sides.len() && 0 <= i < 4 ==> #[trigger] normals[4 * t + i]
            == mesh_face(g, sides[t], t).normal
    &&& forall|t: int, i: int|
        0 <= t < sides.len() && 0 <= i < 4 ==> #[trigger] uvs[4 * t + i]
            == mesh_face(g, sides[t], t).texture_position[i]
    &&& forall|t: int, w: int|
        0 <= t < sides.len() && 0 <= w < 6 ==> #[trigger] indexes[6 * t + w] == 4 * t
            + cube_side_spec(sides[t].3).indices[w]
}

/// Extracts the surface mesh of a voxel grid and bakes its lightmap.
///
/// Every filled cell contributes one face per side that borders an empty
/// cell or the outside; the faces are numbered in generation order, which
/// assigns each its atlas slot and id.  The face list is then run through
/// one round of the radiosity solver and rasterized.  Fails when the atlas
/// is out of slots or the generated faces violate the distance invariant.
#[verifier::rlimit(100)]
#[verifier::spinoff_prover]
pub fn voxel_to_mesh(g: &VoxelGrid) -> (r: Result<(VoxelMesh, Texture), VoxelMeshError>)
    requires
        grid_wf(*g),
    ensures
        match r {
            Ok((mesh, tex)) => {
                &&& all_sides(*g).len() <= 4096
                &&& crate::radiosity::pairs_ok(gen_faces(*g))
                &&& mesh.faces@ == bake_spec(gen_faces(*g), 1)
                &&& mesh_built(
                    *g,
                    mesh.positions@,
                    mesh.normals@,
                    mesh.texture_coordinates@,
                    mesh.indexes@,
                    gen_faces(*g),
                    all_sides(*g),
                )
                &&& texture_width(tex) == crate::radiosity::LIGHTMAP_SIZE
                &&& texture_height(tex) == crate::radiosity::LIGHTMAP_SIZE
                &&& forall|px: u32, py: u32|
                    px < crate::radiosity::LIGHTMAP_SIZE && py
                        < crate::radiosity::LIGHTMAP_SIZE ==> texture_pixels(tex)[(px, py)]
                        == crate::radiosity::raster_value(
                        mesh.faces@,
                        crate::radiosity::LIGHTMAP_SIZE,
                        px,
                        py,
                    )
            },
            Err(VoxelMeshError::AtlasFull) => all_sides(*g).len() > 4096,
            Err(VoxelMeshError::Degenerate(e)) => {
                &&& all_sides(*g).len() <= 4096
                &&& !crate::radiosity::pairs_ok(gen_faces(*g))
                &&& crate::radiosity::degenerate_witness(gen_faces(*g), e)
            },
        },
{
    let size = g.size;
    let mut positions: Vec<Vec3> = Vec::new();
    let mut normals: Vec<Vec3> = Vec::new();
    let mut texture_coordinates: Vec<Vec2> = Vec::new();
    let mut indexes: Vec<usize> = Vec::new();
    let mut faces: Vec<Face> = Vec::new();
    let mut x: usize = 0;
    while x < size
        invariant
            grid_wf(*g),
            size == g.size,
            x <= size,
            faces@.len() <= 4096,
            crate::radiosity::faces_wf(faces@),
            mesh_built(
                *g,
                positions@,
                normals@,
                texture_coordinates@,
                indexes@,
                faces@,
                sides_upto(*g, x * size * size),
            ),
        decreases size - x,
    {
        let mut y: usize = 0;
        while y < size
            invariant
                grid_wf(*g),
                size == g.size,
                x < size,
                y <= size,
                faces@.len() <= 4096,
                crate::radiosity::faces_wf(faces@),
                mesh_built(
                    *g,
                    positions@,
                    normals@,
                    texture_coordinates@,
                    indexes@,
                    faces@,
                    sides_upto(*g, x * size * size + y * size),
                ),
            decreases size - y,
        {
            let mut z: usize = 0;
            while z < size
                invariant
                    grid_wf(*g),
                    size == g.size,
                    x < size,
                    y < size,
                    z <= size,
                    faces@.len() <= 4096,
                    crate::radiosity::faces_wf(faces@),
                    mesh_built(
                        *g,
                        positions@,
                        normals@,
                        texture_coordinates@,
                        indexes@,
                        faces@,
                        sides_upto(*g, x * size * size + y * size + z),
                    ),
                decreases size - z,
            {
                let ghost c = x * size * size + y * size + z;
                let filled = !is_empty_or_out_of_bounds(
                    g,
                    (x as i32, y as i32, z as i32),
                );
                if filled {
                    let mut cube = CubeSides::new();
                    let ghost mut k: int = 0;
                    proof {
                        assert(cell_sides_upto(*g, x as int, y as int, z as int, 0)
                            =~= Seq::<(int, int, int, int)>::empty());
                        assert(sides_upto(*g, c) + cell_sides_upto(
                            *g,
                            x as int,
                            y as int,
                            z as int,
                            0,
                        ) =~= sides_upto(*g, c));
                    }
                    loop
                        invariant_except_break
                            grid_wf(*g),
                            size == g.size,
                            x < size,
                            y < size,
                            z < size,
                            c == x * size * size + y * size + z,
                            spec_filled(*g, x as int, y as int, z as int),
                            0 <= k <= 6,
                            sides_done(cube) == k,
                            faces@.len() <= 4096,
                            crate::radiosity::faces_wf(faces@),
                            mesh_built(
                                *g,
                                positions@,
                                normals@,
                                texture_coordinates@,
                                indexes@,
                                faces@,
                                sides_upto(*g, c) + cell_sides_upto(
                                    *g,
                                    x as int,
                                    y as int,
                                    z as int,
                                    k,
                                ),
                            ),
                        ensures
                            grid_wf(*g),
                            size == g.size,
                            faces@.len() <= 4096,
                            crate::radiosity::faces_wf(faces@),
                            mesh_built(
                                *g,
                                positions@,
                                normals@,
                                texture_coordinates@,
                                indexes@,
                                faces@,
                                sides_upto(*g, c) + cell_sides_upto(
                                    *g,
                                    x as int,
                                    y as int,
                                    z as int,
                                    6,
                                ),
                            ),
                        decreases 6 - k,
                    {
                        let side = match cube.next() {
                            None => {
                                proof {
                                    assert(k == 6);
                                }
                                break ;
                            },
                            Some(side) => side,
                        };
                        proof {
                            lemma_cube_side_values(k);
                        }
                        let exposed = is_empty_or_out_of_bounds(
                            g,
                            (
                                x as i32 + side.offset.0,
                                y as i32 + side.offset.1,
                                z as i32 + side.offset.2,
                            ),
                        );
                        if exposed {
                            if faces.len() >= 4096 {
                                proof {
                                    lemma_overfull(*g, c, x as int, y as int, z as int, k);
                                }
                                return Err(VoxelMeshError::AtlasFull);
                            }
                            let t = faces.len();
                            let ghost op = positions@;
                            let ghost onr = normals@;
                            let ghost ouv = texture_coordinates@;
                            let ghost oix = indexes@;
                            let ghost ofc = faces@;
                            let face = build_face(g, x, y, z, &side, Ghost(k), t);
                            let base = positions.len();
                            positions.push(face.corners[0]);
                            positions.push(face.corners[1]);
                            positions.push(face.corners[2]);
                            positions.push(face.corners[3]);
                            normals.push(face.normal);
                            normals.push(face.normal);
                            normals.push(face.normal);
                            normals.push(face.normal);
                            texture_coordinates.push(face.texture_position[0]);
                            texture_coordinates.push(face.texture_position[1]);
                            texture_coordinates.push(face.texture_position[2]);
                            texture_coordinates.push(face.texture_position[3]);
                            indexes.push(base + side.indices[0]);
                            indexes.push(base + side.indices[1]);
                            indexes.push(base + side.indices[2]);
                            indexes.push(base + side.indices[3]);
                            indexes.push(base + side.indices[4]);
                            indexes.push(base + side.indices[5]);
                            faces.push(face);
                            proof {
                                assert(positions@.subrange(0, 4 * t as int) =~= op);
                                assert(normals@.subrange(0, 4 * t as int) =~= onr);
                                assert(texture_coordinates@.subrange(0, 4 * t as int) =~= ouv);
                                assert(indexes@.subrange(0, 6 * t as int) =~= oix);
                                assert(faces@.subrange(0, t as int) =~= ofc);
                                lemma_built_push(
                                    *g,
                                    positions@,
                                    normals@,
                                    texture_coordinates@,
                                    indexes@,
                                    faces@,
                                    sides_upto(*g, c) + cell_sides_upto(
                                        *g,
                                        x as int,
                                        y as int,
                                        z as int,
                                        k,
                                    ),
                                    (x as int, y as int, z as int, k),
                                );
                                assert(sides_upto(*g, c) + cell_sides_upto(
                                    *g,
                                    x as int,
                                    y as int,
                                    z as int,
                                    k + 1,
                                ) =~= (sides_upto(*g, c) + cell_sides_upto(
                                    *g,
                                    x as int,
                                    y as int,
                                    z as int,
                                    k,
                                )).push((x as int, y as int, z as int, k)));
                            }
                        } else {
                            proof {
                                assert(sides_upto(*g, c) + cell_sides_upto(
                                    *g,
                                    x as int,
                                    y as int,
                                    z as int,
                                    k + 1,
                                ) =~= sides_upto(*g, c) + cell_sides_upto(
                                    *g,
                                    x as int,
                                    y as int,
                                    z as int,
                                    k,
                                ));
                            }
                        }
                        proof {
                            k = k + 1;
                        }
                    }
                } else {
                    proof {
                        lemma_cell_sides_empty(*g, x as int, y as int, z as int, 6);
                        assert(sides_upto(*g, c) + cell_sides_upto(
                            *g,
                            x as int,
                            y as int,
                            z as int,
                            6,
                        ) =~= sides_upto(*g, c));
                    }
                }
                proof {
                    lemma_flat_unfold(*g, x as int, y as int, z as int);
                }
                z += 1;
            }
            proof {
                assert(x * size * size + y * size + size == x * size * size + (y + 1) * size)
                    by (nonlinear_arith);
            }
            y += 1;
        }
        proof {
            assert(x * size * size + size * size == (x + 1) * size * size)
                by (nonlinear_arith);
        }
        x += 1;
    }
    proof {
        assert(x * size * size == size * size * size) by (nonlinear_arith)
            requires
                x == size,
        ;
        assert(faces@ =~= gen_faces(*g));
    }
    let tex = match crate::radiosity::simulate_radiosity(&mut faces, 1) {
        Err(e) => {
            return Err(VoxelMeshError::Degenerate(e));
        },
        Ok(tex) => tex,
    };
    Ok((VoxelMesh { positions, normals, texture_coordinates, indexes, faces }, tex))
}

/// When one more face than the atlas holds is about to be generated, the
/// grid as a whole has
/// more exposed sides than the atlas has slots.
proof fn lemma_overfull(g: VoxelGrid, c: int, x: int, y: int, z: int, k: int)
    requires
        grid_wf(g),
        0 <= x < g.size,
        0 <= y < g.size,
        0 <= z < g.size,
        c == x * g.size * g.size + y * g.size + z,
        0 <= k < 6,
        spec_filled(g, x, y, z),
        side_exposed(g, x, y, z, k),
        (sides_upto(g, c) + cell_sides_upto(g, x, y, z, k)).len() >= 4096,
    ensures
        all_sides(g).len() > 4096,
{
    let sz = g.size as int;
    lemma_cell_sides_len_mono(g, x, y, z, k + 1, 6);
    lemma_flat_unfold(g, x, y, z);
    assert(c + 1 <= sz * sz * sz) by (nonlinear_arith)
        requires
            0 <= x < sz,
            0 <= y < sz,
            0 <= z < sz,
            c == x * sz * sz + y * sz + z,
            1 <= sz,
    ;
    lemma_sides_upto_len_mono(g, c + 1, sz * sz * sz);
    assert(cell_sides_upto(g, x, y, z, k + 1).len() == cell_sides_upto(g, x, y, z, k).len()
        + 1);
}




/// Appending one face's records to every buffer extends the mesh-built
/// relation by that face's side.
proof fn lemma_built_push(
    g: VoxelGrid,
    positions: Seq<Vec3>,
    normals: Seq<Vec3>,
    uvs: Seq<Vec2>,
    indexes: Seq<usize>,
    faces: Seq<Face>,
    sides: Seq<(int, int, int, int)>,
    e: (int, int, int, int),
) -> (u: ())
    requires
        ({
            let t = sides.len() as int;
            let f = mesh_face(g, e, t);
            let cs = cube_side_spec(e.3);
            &&& mesh_built(
                g,
                positions.subrange(0, 4 * t),
                normals.subrange(0, 4 * t),
                uvs.subrange(0, 4 * t),
                indexes.subrange(0, 6 * t),
                faces.subrange(0, t),
                sides,
            )
            &&& positions.len() == 4 * t + 4
            &&& normals.len() == 4 * t + 4
            &&& uvs.len() == 4 * t + 4
            &&& indexes.len() == 6 * t + 6
            &&& faces.len() == t + 1
            &&& faces[t] == f
            &&& forall|i: int| 0 <= i < 4 ==> positions[4 * t + i] == f.corners[i]
            &&& forall|i: int| 0 <= i < 4 ==> #[trigger] normals[4 * t + i] == f.normal
            &&& forall|i: int| 0 <= i < 4 ==> uvs[4 * t + i] == f.texture_position[i]
            &&& forall|w: int| 0 <= w < 6 ==> indexes[6 * t + w] == 4 * t + cs.indices[w]
        }),
    ensures
        mesh_built(g, positions, normals, uvs, indexes, faces, sides.push(e)),
{
    let t = sides.len() as int;
    let ns = sides.push(e);
    assert(ns.len() == t + 1);
    assert forall|q: int| 0 <= q < ns.len() implies #[trigger] faces[q] == mesh_face(
        g,
        ns[q],
        q,
    ) by {
        if q < t {
            assert(faces.subrange(0, t)[q] == mesh_face(g, sides[q], q));
        }
    }
    assert forall|q: int, i: int| 0 <= q < ns.len() && 0 <= i < 4 implies #[trigger] positions[
        4 * q + i
    ] == mesh_face(g, ns[q], q).corners[i] by {
        if q < t {
            assert(positions.subrange(0, 4 * t)[4 * q + i] == mesh_face(
                g,
                sides[q],
                q,
            ).corners[i]);
        }
    }
    assert forall|q: int, i: int| 0 <= q < ns.len() && 0 <= i < 4 implies #[trigger] normals[
        4 * q + i
    ] == mesh_face(g, ns[q], q).normal by {
        if q < t {
            assert(normals.subrange(0, 4 * t)[4 * q + i] == mesh_face(g, sides[q], q).normal);
        }
    }
    assert forall|q: int, i: int| 0 <= q < ns.len() && 0 <= i < 4 implies #[trigger] uvs[4 * q
        + i] == mesh_face(g, ns[q], q).texture_position[i] by {
        if q < t {
            assert(uvs.subrange(0, 4 * t)[4 * q + i] == mesh_face(
                g,
                sides[q],
                q,
            ).texture_position[i]);
        }
    }
    assert forall|q: int, w: int| 0 <= q < ns.len() && 0 <= w < 6 implies #[trigger] indexes[6
        * q + w] == 4 * q + cube_side_spec(ns[q].3).indices[w] by {
        if q < t {
            assert(indexes.subrange(0, 6 * t)[6 * q + w] == 4 * q + cube_side_spec(
                sides[q].3,
            ).indices[w]);
        }
    }
}


} // verus!

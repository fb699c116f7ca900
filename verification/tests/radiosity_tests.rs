use voxel_bake::fixed::SCALE;
use voxel_bake::radiosity::{
    simulate_radiosity, radiosity_subdivide, write_lightmap, face_reflections, Brightness, Face,
    RadiosityError, LIGHTMAP_SIZE,
};
use voxel_bake::radiosity_color::Rgba8;
use voxel_bake::vector::{Vec2, Vec3};

fn v(x: i64, y: i64, z: i64) -> Vec3 {
    Vec3 { x, y, z }
}

fn white() -> Rgba8 {
    Rgba8 { r: 255, g: 255, b: 255, a: 255 }
}

fn bright(e: i64) -> Brightness {
    Brightness { r: e, g: e, b: e }
}

/// A unit quad in the plane `y = y0` (coordinates in fixed point), with
/// corners 0 and 3 diagonal and the given normal and emission.
fn quad_y(y0: i64, normal_y: i64, id: u32, emission: i64, slot: i64) -> Face {
    Face {
        corners: [v(0, y0, 0), v(SCALE, y0, 0), v(0, y0, SCALE), v(SCALE, y0, SCALE)],
        texture_position: [
            Vec2 { x: slot * 1024 + 256, y: 256 },
            Vec2 { x: slot * 1024 + 768, y: 1024 },
            Vec2 { x: slot * 1024 + 1024, y: 768 },
            Vec2 { x: slot * 1024 + 768, y: 768 },
        ],
        normal: v(0, normal_y, 0),
        brightness: bright(emission),
        last_iteration_brightness: bright(0),
        id,
        color: white(),
    }
}

/// Single-pair transfer: an emissive face A at y = 0 facing up and a dark
/// face B one unit above facing down.  After one round, B holds exactly
/// the transfer of A's emission: the direct term is
/// albedo * (1 / d^2) * (1 / 1024) * form_factor = (255/256) / 1024 of one
/// unit, which is 63 in fixed point, and the three mirror variants of A
/// (across the X plane, the Z plane, and both) add 15 + 15 + 7 more.
#[test]
fn single_pair_transfer() {
    let a = quad_y(0, SCALE, 0, SCALE, 0);
    let b = quad_y(SCALE, -SCALE, 1, 0, 1);
    let mut faces = vec![a, b];
    let result = simulate_radiosity(&mut faces, 1);
    assert!(result.is_ok());
    assert_eq!(faces[1].brightness, Brightness { r: 100, g: 100, b: 100 });
    assert_eq!(faces[1].last_iteration_brightness, Brightness { r: 0, g: 0, b: 0 });
    // A saw its own emission once at seeding and once at the first settle.
    assert_eq!(faces[0].brightness, Brightness { r: 2 * SCALE, g: 2 * SCALE, b: 2 * SCALE });
}

/// The received value decomposes into the hand-computed direct term of 63
/// plus the three mirror-variant terms.
#[test]
fn single_pair_direct_term_value() {
    let a = quad_y(0, SCALE, 0, SCALE, 0);
    let b = quad_y(SCALE, -SCALE, 1, 0, 1);
    let mut faces = vec![a, b];
    simulate_radiosity(&mut faces, 1).unwrap();
    // 63 direct + 15 + 15 + 7 from the mirrors.
    assert_eq!(faces[1].brightness.r, 63 + 15 + 15 + 7);
}

/// Zero-emission fixpoint: with no emissive face, everything stays dark
/// for any round count.
#[test]
fn zero_emission_stays_dark() {
    for rounds in [0u8, 1, 3, 8] {
        let a = quad_y(0, SCALE, 0, 0, 0);
        let b = quad_y(SCALE, -SCALE, 1, 0, 1);
        let mut faces = vec![a, b];
        simulate_radiosity(&mut faces, rounds).unwrap();
        for f in &faces {
            assert_eq!(f.brightness, Brightness { r: 0, g: 0, b: 0 });
            assert_eq!(f.last_iteration_brightness, Brightness { r: 0, g: 0, b: 0 });
        }
    }
}

/// Back-facing exclusion: a receiver below the source but turned away
/// from it (and from every mirror variant, which preserve the y axis)
/// receives nothing in any round.
#[test]
fn back_facing_receives_nothing() {
    // receiver at y = 0 facing down; emissive source at y = 1 above it.
    let receiver = quad_y(0, -SCALE, 0, 0, 0);
    let source = quad_y(SCALE, -SCALE, 1, SCALE, 1);
    let mut faces = vec![receiver, source];
    simulate_radiosity(&mut faces, 4).unwrap();
    assert_eq!(faces[0].brightness, Brightness { r: 0, g: 0, b: 0 });
}

/// Determinism: two runs over the same input settle bit-identical state.
#[test]
fn determinism_bit_identical() {
    let a = quad_y(0, SCALE, 0, SCALE, 0);
    let b = quad_y(SCALE, -SCALE, 1, 0, 1);
    let mut run1 = vec![a, b];
    let mut run2 = vec![a, b];
    simulate_radiosity(&mut run1, 5).unwrap();
    simulate_radiosity(&mut run2, 5).unwrap();
    for (f1, f2) in run1.iter().zip(run2.iter()) {
        assert_eq!(f1.brightness, f2.brightness);
        assert_eq!(f1.last_iteration_brightness, f2.last_iteration_brightness);
    }
}

/// Distance precondition: two distinct faces with coincident centers abort
/// the bake before any brightness changes, reporting the pair.
#[test]
fn degenerate_pair_rejected() {
    let a = quad_y(0, SCALE, 0, SCALE, 0);
    let mut b = quad_y(0, -SCALE, 1, 0, 1);
    b.corners = a.corners;
    let mut faces = vec![a, b];
    let result = simulate_radiosity(&mut faces, 1);
    match result {
        Err(RadiosityError::DegenerateFacePair { id_a, id_b, corner_sum_a, corner_sum_b }) => {
            assert_eq!(id_a, 0);
            assert_eq!(id_b, 1);
            assert_eq!(corner_sum_a, corner_sum_b);
        }
        Ok(_) => panic!("degenerate pair accepted"),
    }
    // no brightness mutation happened
    assert_eq!(faces[0].brightness, bright(SCALE));
    assert_eq!(faces[0].last_iteration_brightness, bright(0));
    assert_eq!(faces[1].brightness, bright(0));
}

/// An empty face list is a valid degenerate input: the bake succeeds and
/// the lightmap stays fully transparent black.
#[test]
fn empty_face_list() {
    let mut faces: Vec<Face> = Vec::new();
    let tex = simulate_radiosity(&mut faces, 3).unwrap();
    assert_eq!(tex.width(), LIGHTMAP_SIZE);
    assert_eq!(tex.height(), LIGHTMAP_SIZE);
    assert_eq!(tex.get_pixel(0, 0), (0, 0, 0, 0));
    assert_eq!(tex.get_pixel(127, 127), (0, 0, 0, 0));
}

/// Zero rounds still settle the seeded emission once: an isolated emissive
/// face ends at twice its emission, exactly as with one round and no
/// neighbors.
#[test]
fn zero_rounds_settles_seed() {
    let a = quad_y(0, SCALE, 0, 1000, 0);
    let mut faces = vec![a];
    simulate_radiosity(&mut faces, 0).unwrap();
    assert_eq!(faces[0].brightness, bright(2000));
    assert_eq!(faces[0].last_iteration_brightness, bright(0));
}

/// The rasterizer writes each face's shaded brightness at its UV anchor
/// and leaves the rest of the image untouched.
#[test]
fn lightmap_pixel_placement() {
    let mut a = quad_y(0, SCALE, 7, 0, 0);
    a.brightness = Brightness { r: SCALE / 2, g: SCALE / 4, b: 2 * SCALE };
    let faces = vec![a];
    let tex = write_lightmap(&faces, 128);
    // anchor u = (256 + 768) / 2 = 512 of 65536 -> texel 1 of 128.
    assert_eq!(tex.get_pixel(1, 1), (128, 64, 255, 255));
    assert_eq!(tex.get_pixel(0, 0), (0, 0, 0, 0));
    assert_eq!(tex.get_pixel(2, 1), (0, 0, 0, 0));
}

/// The lightmap of the baked pair holds the received brightness, scaled
/// by 256 and clamped to a byte, at the faces' atlas slots.
#[test]
fn bake_writes_lightmap() {
    let a = quad_y(0, SCALE, 0, SCALE, 0);
    let b = quad_y(SCALE, -SCALE, 1, 0, 1);
    let mut faces = vec![a, b];
    let tex = simulate_radiosity(&mut faces, 1).unwrap();
    // A's anchor: u = (256 + 768)/2 = 512 -> texel 1; B: u = 1024 + 512 -> texel 3.
    // A holds 2.0 units -> clamped to 255; B holds 100 -> 100 * 256 / 65536 = 0.
    assert_eq!(tex.get_pixel(1, 1), (255, 255, 255, 255));
    assert_eq!(tex.get_pixel(3, 1), (0, 0, 0, 255));
}

/// The reflection generator produces exactly the identity and the three
/// axis mirrors, preserving everything but geometry.
#[test]
fn reflections_are_four_mirrors() {
    let a = quad_y(SCALE, SCALE, 3, 42, 0);
    let vars = face_reflections(&a);
    assert_eq!(vars[0].corners[0], v(0, SCALE, 0));
    // variant 1 mirrors z, variant 2 mirrors x, variant 3 both.
    assert_eq!(vars[1].corners[3], v(SCALE, SCALE, -SCALE));
    assert_eq!(vars[2].corners[3], v(-SCALE, SCALE, SCALE));
    assert_eq!(vars[3].corners[3], v(-SCALE, SCALE, -SCALE));
    for k in 0..4 {
        assert_eq!(vars[k].id, 3);
        assert_eq!(vars[k].brightness, bright(42));
        assert_eq!(vars[k].normal.y, SCALE);
    }
}

/// Subdividing before the bake multiplies the face count by four per
/// level and the baked list is returned in place.
#[test]
fn subdivide_then_bake() {
    let a = quad_y(0, SCALE, 0, SCALE, 0);
    let mut faces = vec![a];
    let result = radiosity_subdivide(&mut faces, 1, 2);
    assert!(result.is_ok());
    assert_eq!(faces.len(), 16);
    for f in &faces {
        assert_eq!(f.id, 0);
        // siblings share an id, so no energy moves: emission settles twice.
        assert_eq!(f.brightness, bright(2 * SCALE));
    }
}

/// Face::size reports the bounding extents of the corners.
#[test]
fn face_size_extents() {
    let f = quad_y(3 * SCALE, SCALE, 0, 0, 0);
    let s = f.size();
    assert_eq!((s.x, s.y, s.z), (SCALE, 0, SCALE));
}

/// Subdivision UV coverage: one level of subdivision yields four children
/// whose texture placements are exact midpoints and whose boxes tile the
/// parent's box without gaps or overlap beyond the shared midlines.
#[test]
fn subdivision_tiles_uv() {
    let mut f = quad_y(0, SCALE, 0, 0, 0);
    // a rectangular placement: corners 0/3 diagonal, 1/2 completing it
    f.texture_position = [
        Vec2 { x: 100, y: 200 },
        Vec2 { x: 500, y: 200 },
        Vec2 { x: 100, y: 900 },
        Vec2 { x: 500, y: 900 },
    ];
    let children = f.subdivide();
    // child 0 keeps corner 0 and reaches the midlines
    assert_eq!(children[0].texture_position[0], Vec2 { x: 100, y: 200 });
    assert_eq!(children[0].texture_position[3], Vec2 { x: 300, y: 550 });
    // child 3 spans from the center to corner 3
    assert_eq!(children[3].texture_position[0], Vec2 { x: 300, y: 550 });
    assert_eq!(children[3].texture_position[3], Vec2 { x: 500, y: 900 });
    // children 1 and 2 fill the remaining quadrants
    assert_eq!(children[1].texture_position[1], Vec2 { x: 500, y: 200 });
    assert_eq!(children[2].texture_position[2], Vec2 { x: 100, y: 900 });
    // geometry subdivides the same way: child 0's far corner is the center
    assert_eq!(children[0].corners[3], Vec3 { x: SCALE / 2, y: 0, z: SCALE / 2 });
    for c in &children {
        assert_eq!(c.id, f.id);
        assert_eq!(c.normal, f.normal);
        assert_eq!(c.color.r, f.color.r);
    }
}

/// Energy conservation on a concrete scene: with unit emissions and faces
/// a unit apart, settled brightness stays within three times the largest
/// initial emission however many rounds run.
#[test]
fn energy_stays_bounded() {
    for rounds in [1u8, 2, 4, 8, 32] {
        let a = quad_y(0, SCALE, 0, SCALE, 0);
        let b = quad_y(SCALE, -SCALE, 1, SCALE, 1);
        let mut faces = vec![a, b];
        simulate_radiosity(&mut faces, rounds).unwrap();
        for f in &faces {
            assert!(f.brightness.r <= 3 * SCALE);
            assert!(f.brightness.g <= 3 * SCALE);
            assert!(f.brightness.b <= 3 * SCALE);
        }
    }
}


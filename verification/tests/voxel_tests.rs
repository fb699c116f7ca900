use voxel_bake::fixed::SCALE;
use voxel_bake::radiosity_color::{RadiosityColor, Rgba8};
use voxel_bake::voxel::{
    is_empty_or_out_of_bounds, voxel_to_mesh, CubeSides, VoxelGrid, VoxelMeshError,
};

fn cell(r: u8, g: u8, b: u8, a: u8, emission: i64) -> RadiosityColor {
    RadiosityColor { color: Rgba8 { r, g, b, a }, emission }
}

fn empty_cell() -> RadiosityColor {
    cell(0, 0, 0, 0, 0)
}

/// A grid of the given size with one filled cell.
fn single_cell_grid(size: usize, at: (usize, usize, usize), c: RadiosityColor) -> VoxelGrid {
    let mut cells = vec![empty_cell(); size * size * size];
    cells[at.0 * size * size + at.1 * size + at.2] = c;
    VoxelGrid { size, cells }
}

#[test]
fn cube_sides_yields_six_then_none() {
    let mut gen = CubeSides::new();
    let mut count = 0;
    while let Some(side) = gen.next() {
        count += 1;
        // all six triangle indices address the four side vertices
        for w in 0..6 {
            assert!(side.indices[w] < 4);
        }
        // the neighbor offset is a unit step along the outward normal
        let (ox, oy, oz) = side.offset;
        assert_eq!((ox.abs() + oy.abs() + oz.abs()), 1);
        assert_eq!(side.normals[0].x, ox as i64 * SCALE);
        assert_eq!(side.normals[0].y, oy as i64 * SCALE);
        assert_eq!(side.normals[0].z, oz as i64 * SCALE);
    }
    assert_eq!(count, 6);
    assert!(gen.next().is_none());
}

#[test]
fn cube_sides_first_item_is_back_x() {
    let gen = CubeSides::new();
    let side = gen.get_item();
    assert_eq!(side.offset, (-1, 0, 0));
    assert_eq!(side.normals[0].x, -SCALE);
    // back sides sit on the cell's origin plane
    assert_eq!(side.vertices[0].x, 0);
    assert_eq!(side.indices, [0, 2, 1, 1, 2, 3]);
}

#[test]
fn empty_or_out_of_bounds_cases() {
    let g = single_cell_grid(2, (0, 0, 0), cell(10, 20, 30, 255, 0));
    assert!(!is_empty_or_out_of_bounds(&g, (0, 0, 0)));
    assert!(is_empty_or_out_of_bounds(&g, (1, 0, 0)));
    assert!(is_empty_or_out_of_bounds(&g, (-1, 0, 0)));
    assert!(is_empty_or_out_of_bounds(&g, (0, 2, 0)));
    assert!(is_empty_or_out_of_bounds(&g, (0, 0, 5)));
}

#[test]
fn single_voxel_meshes_six_faces() {
    let g = single_cell_grid(2, (0, 0, 0), cell(200, 100, 50, 255, SCALE));
    let (mesh, tex) = voxel_to_mesh(&g).unwrap();
    assert_eq!(mesh.faces.len(), 6);
    assert_eq!(mesh.positions.len(), 24);
    assert_eq!(mesh.normals.len(), 24);
    assert_eq!(mesh.texture_coordinates.len(), 24);
    assert_eq!(mesh.indexes.len(), 36);
    assert_eq!(tex.width(), 128);
    for (t, f) in mesh.faces.iter().enumerate() {
        assert_eq!(f.id, t as u32);
        assert_eq!((f.color.r, f.color.g, f.color.b, f.color.a), (200, 100, 50, 255));
        // the cell spans half the unit cube: corners at 0 or SCALE/2
        for c in &f.corners {
            assert!(c.x == 0 || c.x == SCALE / 2);
            assert!(c.y == 0 || c.y == SCALE / 2);
            assert!(c.z == 0 || c.z == SCALE / 2);
        }
        // brightness settled at least the doubled seed, each channel
        assert!(f.brightness.r >= 2 * SCALE);
        assert!(f.brightness.g >= 2 * SCALE);
        assert!(f.brightness.b >= 2 * SCALE);
    }
    // every index addresses a generated vertex
    for ix in &mesh.indexes {
        assert!(*ix < mesh.positions.len());
    }
}

#[test]
fn interior_faces_are_culled() {
    // two adjacent filled cells share a hidden wall: 10 faces, not 12
    let size = 2;
    let mut cells = vec![empty_cell(); size * size * size];
    cells[0] = cell(1, 2, 3, 255, 0);
    cells[size] = cell(1, 2, 3, 255, 0); // (0,1,0)
    let g = VoxelGrid { size, cells };
    let (mesh, _tex) = voxel_to_mesh(&g).unwrap();
    assert_eq!(mesh.faces.len(), 10);
}

#[test]
fn checkerboard_overflows_atlas() {
    // a 16-cube checkerboard has 2048 * 6 exposed faces, far past the
    // 4096 atlas slots
    let size = 16;
    let mut cells = Vec::new();
    for x in 0..size {
        for y in 0..size {
            for z in 0..size {
                if (x + y + z) % 2 == 0 {
                    cells.push(cell(9, 9, 9, 255, 0));
                } else {
                    cells.push(empty_cell());
                }
            }
        }
    }
    let g = VoxelGrid { size, cells };
    match voxel_to_mesh(&g) {
        Err(VoxelMeshError::AtlasFull) => {}
        _ => panic!("atlas overflow not detected"),
    }
}

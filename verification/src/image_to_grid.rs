//! Builders that turn stacks of layer images into voxel grids, and the
//! palette the voxel textures quantize to.

use vstd::prelude::*;
use crate::fixed::BRIGHT_LIMIT;
use crate::radiosity_color::{RadiosityColor, Rgba8};
use crate::texture::{Texture, texture_pixels, texture_height};
use crate::voxel::{VoxelGrid, grid_wf, cell_at};

verus! {

/// The fixed 256-entry palette voxel textures quantize to.
pub const COLORS: [[u8; 3]; 256] = [
    [0, 0, 0], [128, 0, 0], [0, 128, 0], [128, 128, 0], [0, 0, 128], [128, 0, 128], [0, 128, 128], [192, 192, 192], [128, 128, 128], [255, 0, 0], [0, 255, 0], [255, 255, 0], [0, 0, 255], [255, 0, 255], [0, 255, 255], [255, 255, 255], [0, 0, 0], [0, 0, 95], [0, 0, 135], [0, 0, 175], [0, 0, 215], [0, 0, 255], [0, 95, 0], [0, 95, 95], [0, 95, 135], [0, 95, 175], [0, 95, 215], [0, 95, 255], [0, 135, 0], [0, 135, 95], [0, 135, 135], [0, 135, 175], [0, 135, 215], [0, 135, 255], [0, 175, 0], [0, 175, 95], [0, 175, 135], [0, 175, 175], [0, 175, 215], [0, 175, 255], [0, 215, 0], [0, 215, 95], [0, 215, 135], [0, 215, 175], [0, 215, 215], [0, 215, 255], [0, 255, 0], [0, 255, 95], [0, 255, 135], [0, 255, 175], [0, 255, 215], [0, 255, 255], [95, 0, 0], [95, 0, 95], [95, 0, 135], [95, 0, 175], [95, 0, 215], [95, 0, 255], [95, 95, 0], [95, 95, 95], [95, 95, 135], [95, 95, 175], [95, 95, 215], [95, 95, 255], [95, 135, 0], [95, 135, 95], [95, 135, 135], [95, 135, 175], [95, 135, 215], [95, 135, 255], [95, 175, 0], [95, 175, 95], [95, 175, 135], [95, 175, 175], [95, 175, 215], [95, 175, 255], [95, 215, 0], [95, 215, 95], [95, 215, 135], [95, 215, 175], [95, 215, 215], [95, 215, 255], [95, 255, 0], [95, 255, 95], [95, 255, 135], [95, 255, 175], [95, 255, 215], [95, 255, 255], [135, 0, 0], [135, 0, 95], [135, 0, 135], [135, 0, 175], [135, 0, 215], [135, 0, 255], [135, 95, 0], [135, 95, 95], [135, 95, 135], [135, 95, 175], [135, 95, 215], [135, 95, 255], [135, 135, 0], [135, 135, 95], [135, 135, 135], [135, 135, 175], [135, 135, 215], [135, 135, 255], [135, 175, 0], [135, 175, 95], [135, 175, 135], [135, 175, 175], [135, 175, 215], [135, 175, 255], [135, 215, 0], [135, 215, 95], [135, 215, 135], [135, 215, 175], [135, 215, 215], [135, 215, 255], [135, 255, 0], [135, 255, 95], [135, 255, 135], [135, 255, 175], [135, 255, 215], [135, 255, 255], [175, 0, 0], [175, 0, 95], [175, 0, 135], [175, 0, 175], [175, 0, 215], [175, 0, 255], [175, 95, 0], [175, 95, 95], [175, 95, 135], [175, 95, 175], [175, 95, 215], [175, 95, 255], [175, 135, 0], [175, 135, 95], [175, 135, 135], [175, 135, 175], [175, 135, 215], [175, 135, 255], [175, 175, 0], [175, 175, 95], [175, 175, 135], [175, 175, 175], [175, 175, 215], [175, 175, 255], [175, 215, 0], [175, 215, 95], [175, 215, 135], [175, 215, 175], [175, 215, 215], [175, 215, 255], [175, 255, 0], [175, 255, 95], [175, 255, 135], [175, 255, 175], [175, 255, 215], [175, 255, 255], [215, 0, 0], [215, 0, 95], [215, 0, 135], [215, 0, 175], [215, 0, 215], [215, 0, 255], [215, 95, 0], [215, 95, 95], [215, 95, 135], [215, 95, 175], [215, 95, 215], [215, 95, 255], [215, 135, 0], [215, 135, 95], [215, 135, 135], [215, 135, 175], [215, 135, 215], [215, 135, 255], [215, 175, 0], [215, 175, 95], [215, 175, 135], [215, 175, 175], [215, 175, 215], [215, 175, 255], [215, 215, 0], [215, 215, 95], [215, 215, 135], [215, 215, 175], [215, 215, 215], [215, 215, 255], [215, 255, 0], [215, 255, 95], [215, 255, 135], [215, 255, 175], [215, 255, 215], [215, 255, 255], [255, 0, 0], [255, 0, 95], [255, 0, 135], [255, 0, 175], [255, 0, 215], [255, 0, 255], [255, 95, 0], [255, 95, 95], [255, 95, 135], [255, 95, 175], [255, 95, 215], [255, 95, 255], [255, 135, 0], [255, 135, 95], [255, 135, 135], [255, 135, 175], [255, 135, 215], [255, 135, 255], [255, 175, 0], [255, 175, 95], [255, 175, 135], [255, 175, 175], [255, 175, 215], [255, 175, 255], [255, 215, 0], [255, 215, 95], [255, 215, 135], [255, 215, 175], [255, 215, 215], [255, 215, 255], [255, 255, 0], [255, 255, 95], [255, 255, 135], [255, 255, 175], [255, 255, 215], [255, 255, 255], [8, 8, 8], [18, 18, 18], [28, 28, 28], [38, 38, 38], [48, 48, 48], [58, 58, 58], [68, 68, 68], [78, 78, 78], [88, 88, 88], [98, 98, 98], [108, 108, 108], [118, 118, 118], [128, 128, 128], [138, 138, 138], [148, 148, 148], [158, 158, 158], [168, 168, 168], [178, 178, 178], [188, 188, 188], [198, 198, 198], [208, 208, 208], [218, 218, 218], [228, 228, 228], [238, 238, 238]
];

/// The L1 distance between a palette entry and a color's RGB part.
pub open spec fn palette_dist(entry: [u8; 3], c: Rgba8) -> int {
    abs_diff(entry[0] as int, c.r as int) + abs_diff(entry[1] as int, c.g as int) + abs_diff(
        entry[2] as int,
        c.b as int,
    )
}

/// The absolute difference of two integers.
pub open spec fn abs_diff(a: int, b: int) -> int {
    if a >= b {
        a - b
    } else {
        b - a
    }
}

/// The palette index whose entry is L1-closest to `color`; the first such
/// index when several entries tie.
pub fn closest_color(color: &Rgba8) -> (r: u8)
    ensures
        forall|j: int|
            0 <= j < 256 ==> palette_dist(COLORS[r as int], *color) <= palette_dist(
                #[trigger] COLORS[j],
                *color,
            ),
        forall|j: int|
            0 <= j < r ==> palette_dist(#[trigger] COLORS[j], *color) > palette_dist(
                COLORS[r as int],
                *color,
            ),
{
    let first = COLORS[0];
    let mut min_distance: i32 = diff(first[0], color.r) + diff(first[1], color.g) + diff(
        first[2],
        color.b,
    );
    let mut min_index: usize = 0;
    let mut i: usize = 1;
    while i < 256
        invariant
            1 <= i <= 256,
            min_index < i,
            min_distance == palette_dist(COLORS[min_index as int], *color),
            forall|j: int|
                0 <= j < i ==> min_distance <= palette_dist(#[trigger] COLORS[j], *color),
            forall|j: int|
                0 <= j < min_index ==> palette_dist(#[trigger] COLORS[j], *color)
                    > min_distance,
        decreases 256 - i,
    {
        let entry = COLORS[i];
        let dr = diff(entry[0], color.r);
        let dg = diff(entry[1], color.g);
        let db = diff(entry[2], color.b);
        let distance = dr + dg + db;
        proof {
            assert(distance == palette_dist(COLORS[i as int], *color));
        }
        if distance < min_distance {
            min_index = i;
            min_distance = distance;
        }
        i += 1;
    }
    min_index as u8
}

/// The absolute difference of two bytes.
fn diff(a: u8, b: u8) -> (r: i32)
    ensures
        r == abs_diff(a as int, b as int),
        0 <= r <= 255,
{
    if a >= b {
        (a - b) as i32
    } else {
        (b - a) as i32
    }
}

/// Which of the two layer stack orientations a segment kind samples at
/// `(x, z)`: straight segments always take the first, curved segments
/// switch at the diagonal.
pub open spec fn curve_pick(straight: bool, left: bool, x: int, z: int) -> bool {
    if straight {
        true
    } else if left {
        x < z
    } else {
        x > z
    }
}

/// The cell a segment builder writes at `(x, y, z)`: the sampled layer
/// pixel as the cell color, and the given emission where the pixel is
/// pure white.
pub open spec fn segment_cell(
    layers: [Texture; 16],
    straight: bool,
    left: bool,
    brightness: i64,
    x: int,
    y: int,
    z: int,
) -> RadiosityColor {
    let pick = curve_pick(straight, left, x, z);
    let lx = if pick {
        x
    } else {
        z
    };
    let px = if pick {
        z
    } else {
        x
    };
    let py = texture_height(layers[x]) - 1 - y;
    let p = texture_pixels(layers[lx])[(px as u32, py as u32)];
    RadiosityColor {
        color: Rgba8 { r: p.0, g: p.1, b: p.2, a: p.3 },
        emission: if p.0 == 255 && p.1 == 255 && p.2 == 255 && p.3 == 255 {
            brightness
        } else {
            0
        },
    }
}

/// Every layer is at least 16 texels wide and tall and all share one
/// height, so a 16-cube of cells can sample any of them.
pub open spec fn layers_wf(layers: [Texture; 16]) -> bool {
    forall|i: int|
        0 <= i < 16 ==> texture_height(#[trigger] layers[i]) == texture_height(layers[0])
            && texture_height(layers[i]) >= 16 && crate::texture::texture_width(layers[i])
            >= 16
}

/// Builds the 16-cube voxel grid of one segment from its layer stack.
fn curve_segment(layers: &[Texture; 16], straight: bool, left: bool, brightness: i64) -> (g:
    VoxelGrid)
    requires
        layers_wf(*layers),
        0 <= brightness <= BRIGHT_LIMIT,
    ensures
        g.size == 16,
        grid_wf(g),
        forall|x: int, y: int, z: int|
            0 <= x < 16 && 0 <= y < 16 && 0 <= z < 16 ==> #[trigger] cell_at(g, x, y, z)
                == segment_cell(*layers, straight, left, brightness, x, y, z),
{
    let mut cells: Vec<RadiosityColor> = Vec::new();
    let mut x: usize = 0;
    while x < 16
        invariant
            layers_wf(*layers),
            0 <= brightness <= BRIGHT_LIMIT,
            x <= 16,
            cells@.len() == 256 * x,
            forall|t: int|
                0 <= t < cells@.len() ==> #[trigger] cells@[t] == segment_cell(
                    *layers,
                    straight,
                    left,
                    brightness,
                    t / 256,
                    (t % 256) / 16,
                    t % 16,
                ),
            forall|t: int|
                0 <= t < cells@.len() ==> 0 <= (#[trigger] cells@[t]).emission <= BRIGHT_LIMIT,
        decreases 16 - x,
    {
        let mut y: usize = 0;
        while y < 16
            invariant
                layers_wf(*layers),
                0 <= brightness <= BRIGHT_LIMIT,
                x < 16,
                y <= 16,
                cells@.len() == 256 * x + 16 * y,
                forall|t: int|
                    0 <= t < cells@.len() ==> #[trigger] cells@[t] == segment_cell(
                        *layers,
                        straight,
                        left,
                        brightness,
                        t / 256,
                        (t % 256) / 16,
                        t % 16,
                    ),
                forall|t: int|
                    0 <= t < cells@.len() ==> 0 <= (#[trigger] cells@[t]).emission
                        <= BRIGHT_LIMIT,
            decreases 16 - y,
        {
            let mut z: usize = 0;
            while z < 16
                invariant
                    layers_wf(*layers),
                    0 <= brightness <= BRIGHT_LIMIT,
                    x < 16,
                    y < 16,
                    z <= 16,
                    cells@.len() == 256 * x + 16 * y + z,
                    forall|t: int|
                        0 <= t < cells@.len() ==> #[trigger] cells@[t] == segment_cell(
                            *layers,
                            straight,
                            left,
                            brightness,
                            t / 256,
                            (t % 256) / 16,
                            t % 16,
                        ),
                    forall|t: int|
                        0 <= t < cells@.len() ==> 0 <= (#[trigger] cells@[t]).emission
                            <= BRIGHT_LIMIT,
                decreases 16 - z,
            {
                let pick = if straight {
                    true
                } else if left {
                    x < z
                } else {
                    x > z
                };
                let lx = if pick {
                    x
                } else {
                    z
                };
                let px = if pick {
                    z
                } else {
                    x
                };
                proof {
                    assert(texture_height(layers@[x as int]) >= 16);
                    assert(texture_height(layers@[lx as int]) == texture_height(
                        layers@[x as int],
                    ));
                    assert(crate::texture::texture_width(layers@[lx as int]) >= 16);
                }
                let h = layers[x].height();
                let py = h - 1 - (y as u32);
                let p = layers[lx].get_pixel(px as u32, py);
                let cell = RadiosityColor {
                    color: Rgba8 { r: p.0, g: p.1, b: p.2, a: p.3 },
                    emission: if p.0 == 255 && p.1 == 255 && p.2 == 255 && p.3 == 255 {
                        brightness
                    } else {
                        0
                    },
                };
                cells.push(cell);
                proof {
                    let t = 256 * x + 16 * y + z;
                    vstd::arithmetic::div_mod::lemma_fundamental_div_mod_converse(
                        t as int,
                        256,
                        x as int,
                        16 * y + z,
                    );
                    vstd::arithmetic::div_mod::lemma_fundamental_div_mod_converse(
                        16 * y + z,
                        16,
                        y as int,
                        z as int,
                    );
                    vstd::arithmetic::div_mod::lemma_mod_mod(t as int, 16, 16);
                    vstd::arithmetic::div_mod::lemma_fundamental_div_mod_converse(
                        t as int,
                        16,
                        16 * (x as int) + y,
                        z as int,
                    );
                    assert(cells@[t as int] == cell);
                    assert(cell == segment_cell(
                        *layers,
                        straight,
                        left,
                        brightness,
                        x as int,
                        y as int,
                        z as int,
                    ));
                }
                z += 1;
            }
            y += 1;
        }
        x += 1;
    }
    let g = VoxelGrid { size: 16, cells };
    proof {
        assert(g.cells@.len() == 16 * 16 * 16);
        assert forall|x0: int, y0: int, z0: int|
            0 <= x0 < 16 && 0 <= y0 < 16 && 0 <= z0 < 16 implies #[trigger] cell_at(
            g,
            x0,
            y0,
            z0,
        ) == segment_cell(*layers, straight, left, brightness, x0, y0, z0) by {
            let t = x0 * 256 + y0 * 16 + z0;
            assert(0 <= 16 * y0 + z0 < 256);
            vstd::arithmetic::div_mod::lemma_fundamental_div_mod_converse(
                t,
                256,
                x0,
                16 * y0 + z0,
            );
            vstd::arithmetic::div_mod::lemma_fundamental_div_mod_converse(
                16 * y0 + z0,
                16,
                y0,
                z0,
            );
            vstd::arithmetic::div_mod::lemma_fundamental_div_mod_converse(
                t,
                16,
                16 * x0 + y0,
                z0,
            );
            assert(cells@[t] == segment_cell(
                *layers,
                straight,
                left,
                brightness,
                x0,
                y0,
                z0,
            ));
            let sz = g.size as int;
            assert(x0 * sz * sz + y0 * sz + z0 == t) by (nonlinear_arith)
                requires
                    sz == 16,
                    t == x0 * 256 + y0 * 16 + z0,
            ;
        }
    }
    g
}

/// A straight segment: every vertical slice samples the same stack.
pub fn straight_segment(layers: &[Texture; 16], brightness: i64) -> (g: VoxelGrid)
    requires
        layers_wf(*layers),
        0 <= brightness <= BRIGHT_LIMIT,
    ensures
        g.size == 16,
        grid_wf(g),
        forall|x: int, y: int, z: int|
            0 <= x < 16 && 0 <= y < 16 && 0 <= z < 16 ==> #[trigger] cell_at(g, x, y, z)
                == segment_cell(*layers, true, false, brightness, x, y, z),
{
    curve_segment(layers, true, false, brightness)
}

/// A leftward curve: the stack orientation switches below the diagonal.
pub fn left_curve_segment(layers: &[Texture; 16], brightness: i64) -> (g: VoxelGrid)
    requires
        layers_wf(*layers),
        0 <= brightness <= BRIGHT_LIMIT,
    ensures
        g.size == 16,
        grid_wf(g),
        forall|x: int, y: int, z: int|
            0 <= x < 16 && 0 <= y < 16 && 0 <= z < 16 ==> #[trigger] cell_at(g, x, y, z)
                == segment_cell(*layers, false, true, brightness, x, y, z),
{
    curve_segment(layers, false, true, brightness)
}

/// A rightward curve: the stack orientation switches above the diagonal.
pub fn right_curve_segment(layers: &[Texture; 16], brightness: i64) -> (g: VoxelGrid)
    requires
        layers_wf(*layers),
        0 <= brightness <= BRIGHT_LIMIT,
    ensures
        g.size == 16,
        grid_wf(g),
        forall|x: int, y: int, z: int|
            0 <= x < 16 && 0 <= y < 16 && 0 <= z < 16 ==> #[trigger] cell_at(g, x, y, z)
                == segment_cell(*layers, false, false, brightness, x, y, z),
{
    curve_segment(layers, false, false, brightness)
}

} // verus!

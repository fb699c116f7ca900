use image::{Rgba, RgbaImage};
use voxel_bake::fixed::SCALE;
use voxel_bake::image_to_grid::{
    closest_color, left_curve_segment, right_curve_segment, straight_segment, COLORS,
};
use voxel_bake::radiosity_color::Rgba8;
use voxel_bake::texture::Texture;

fn layer_stack(img: &RgbaImage) -> [Texture; 16] {
    std::array::from_fn(|_| Texture { image: img.clone() })
}

#[test]
fn closest_color_exact_hits() {
    assert_eq!(closest_color(&Rgba8 { r: 0, g: 0, b: 0, a: 255 }), 0);
    assert_eq!(closest_color(&Rgba8 { r: 128, g: 0, b: 0, a: 255 }), 1);
    // pure white appears first at palette index 15
    assert_eq!(closest_color(&Rgba8 { r: 255, g: 255, b: 255, a: 0 }), 15);
    let idx = closest_color(&Rgba8 { r: 93, g: 96, b: 133, a: 255 });
    assert_eq!(COLORS[idx as usize], [95, 95, 135]);
}

#[test]
fn straight_segment_samples_layers() {
    // a 16x16 layer, dark gray except one white pixel at (3, 15)
    let mut img = RgbaImage::from_pixel(16, 16, Rgba([40, 40, 40, 255]));
    img.put_pixel(3, 15, Rgba([255, 255, 255, 255]));
    let layers = layer_stack(&img);
    let g = straight_segment(&layers, SCALE);
    assert_eq!(g.size, 16);
    assert_eq!(g.cells.len(), 4096);
    // cell (x, y, z) samples layer x at (z, 15 - y): the white pixel at
    // image position (3, 15) lands at z = 3, y = 0, for every x.
    for x in 0..16usize {
        let c = g.cells[x * 256 + 0 * 16 + 3];
        assert_eq!((c.color.r, c.color.g, c.color.b, c.color.a), (255, 255, 255, 255));
        assert_eq!(c.emission, SCALE);
        let d = g.cells[x * 256 + 1 * 16 + 3];
        assert_eq!((d.color.r, d.color.g, d.color.b, d.color.a), (40, 40, 40, 255));
        assert_eq!(d.emission, 0);
    }
}

#[test]
fn curve_segments_switch_at_diagonal() {
    // two different layer images would be needed to tell orientations
    // apart per layer index; with identical layers the switch shows in
    // which image coordinate is sampled.
    let mut img = RgbaImage::from_pixel(16, 16, Rgba([10, 10, 10, 255]));
    img.put_pixel(5, 15, Rgba([200, 0, 0, 255]));
    let layers = layer_stack(&img);
    let l = left_curve_segment(&layers, 0);
    let r = right_curve_segment(&layers, 0);
    // left curve: for x < z the pixel coordinate is z, else x.
    // x = 0, z = 5: x < z, sample (z=5, 15) -> red marker.
    let c = l.cells[0 * 256 + 0 * 16 + 5];
    assert_eq!(c.color.r, 200);
    // right curve at the same cell: x > z is false, sample (x=0, 15).
    let c2 = r.cells[0 * 256 + 0 * 16 + 5];
    assert_eq!(c2.color.r, 10);
    // right curve: x = 6, z = 5 has x > z and samples (z=5, 15), the marker.
    let c3 = r.cells[6 * 256 + 0 * 16 + 5];
    assert_eq!(c3.color.r, 200);
}

#[test]
fn white_pixels_seed_emission_only_when_fully_white() {
    let mut img = RgbaImage::from_pixel(16, 16, Rgba([255, 255, 255, 254]));
    img.put_pixel(0, 15, Rgba([255, 255, 255, 255]));
    let layers = layer_stack(&img);
    let g = straight_segment(&layers, 777);
    assert_eq!(g.cells[0].emission, 777); // (0,0,0) -> pixel (0,15)
    assert_eq!(g.cells[1].emission, 0); // alpha 254 is not emissive
}

use voxel_bake::export_gltf::{buffer_layout, glb_total_length, pad_length};

#[test]
fn pad_length_rounds_up_to_four() {
    assert_eq!(pad_length(0), 0);
    assert_eq!(pad_length(1), 4);
    assert_eq!(pad_length(4), 4);
    assert_eq!(pad_length(5), 8);
    assert_eq!(pad_length(1023), 1024);
}

#[test]
fn buffer_layout_offsets_chain() {
    let l = buffer_layout(8, 8, 8, 12, 100);
    assert_eq!(l.normals_len, 96);
    assert_eq!(l.positions_offset, 96);
    assert_eq!(l.positions_len, 96);
    assert_eq!(l.uvs_offset, 192);
    assert_eq!(l.uvs_len, 64);
    assert_eq!(l.indices_offset, 256);
    assert_eq!(l.indices_len, 48);
    assert_eq!(l.image_offset, 304);
    assert_eq!(l.image_len, 100);
    assert_eq!(l.total_len, 404);
}

#[test]
fn glb_total_length_pads_and_adds_headers() {
    // payload of 10 bytes pads to 12, plus two chunk headers and the
    // twelve-byte top header
    assert_eq!(glb_total_length(7, 3), 12 + 28);
    assert_eq!(glb_total_length(4, 4), 8 + 28);
}

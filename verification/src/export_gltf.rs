//! Verified layout arithmetic for the binary asset container.
//!
//! The container is a chunked binary file: a twelve-byte header, a JSON
//! chunk and a binary chunk, each four-byte aligned.  The unverified writer
//! asks this module for every length and offset it emits, so the numbers in
//! the file are pinned down here; the actual file and image encoding stays
//! outside the verified core.

use vstd::prelude::*;

verus! {

/// Byte offsets and lengths of the five buffer views the mesh uses, in
/// container order: normals, positions, texture coordinates, triangle
/// indices, and the encoded texture image.  Normals and positions take
/// twelve bytes per entry, texture coordinates eight, indices four.
pub struct BufferLayout {
    pub normals_len: usize,
    pub positions_offset: usize,
    pub positions_len: usize,
    pub uvs_offset: usize,
    pub uvs_len: usize,
    pub indices_offset: usize,
    pub indices_len: usize,
    pub image_offset: usize,
    pub image_len: usize,
    pub total_len: usize,
}

/// Rounds a byte count up to the next multiple of four, as the container
/// requires each chunk to be four-byte aligned.
pub fn pad_length(x: usize) -> (r: usize)
    requires
        x + 3 <= usize::MAX,
    ensures
        r == ((x + 3) / 4) * 4,
        x <= r < x + 4,
        r % 4 == 0,
{
    ((x + 3) / 4) * 4
}

/// Computes the buffer views' offsets and lengths from the element counts.
/// Each view starts where the previous one ends.
pub fn buffer_layout(
    n_normals: usize,
    n_positions: usize,
    n_uvs: usize,
    n_indices: usize,
    image_len: usize,
) -> (r: BufferLayout)
    requires
        12 * n_normals + 12 * n_positions + 8 * n_uvs + 4 * n_indices + image_len
            <= usize::MAX,
    ensures
        r.normals_len == 12 * n_normals,
        r.positions_offset == r.normals_len,
        r.positions_len == 12 * n_positions,
        r.uvs_offset == r.positions_offset + r.positions_len,
        r.uvs_len == 8 * n_uvs,
        r.indices_offset == r.uvs_offset + r.uvs_len,
        r.indices_len == 4 * n_indices,
        r.image_offset == r.indices_offset + r.indices_len,
        r.image_len == image_len,
        r.total_len == r.image_offset + image_len,
{
    let normals_len = 12 * n_normals;
    let positions_len = 12 * n_positions;
    let uvs_len = 8 * n_uvs;
    let indices_len = 4 * n_indices;
    let positions_offset = normals_len;
    let uvs_offset = positions_offset + positions_len;
    let indices_offset = uvs_offset + uvs_len;
    let image_offset = indices_offset + indices_len;
    BufferLayout {
        normals_len,
        positions_offset,
        positions_len,
        uvs_offset,
        uvs_len,
        indices_offset,
        indices_len,
        image_offset,
        image_len,
        total_len: image_offset + image_len,
    }
}

/// The total file length the container header declares: the padded JSON
/// and binary payloads, the two eight-byte chunk headers, and the
/// twelve-byte top header.
pub fn glb_total_length(json_len: usize, binary_len: usize) -> (r: usize)
    requires
        json_len + binary_len + 31 <= usize::MAX,
    ensures
        r == ((json_len + binary_len + 3) / 4) * 4 + 28,
{
    pad_length(json_len + binary_len) + 16 + 12
}

} // verus!

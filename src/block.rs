//! Voxel materials, in-cell voxel addressing and the six face directions.
use vstd::prelude::*;

verus! {

/// Edge length of a cell, in voxels.
pub const CHUNK_SIZE: usize = 16;

/// Number of columns of voxels in a cell footprint (one heightmap entry each).
pub const HEIGHTMAP_SIZE: usize = 256;

/// Number of voxels in a cell.
pub const CHUNK_LENGTH: usize = 4096;

/// Number of face directions of a voxel.
pub const SIDE_COUNT: usize = 6;

/// Number of (voxel, side) faces in a cell.
pub const FACE_COUNT: usize = 24576;

/// Material of one voxel.
#[derive(Clone, Copy, PartialEq, Eq, Debug, Structural)]
pub enum Block {
    Air,
    Grass,
    Stone,
}

impl Block {
    /// Light passes through the voxel, so a face next to it shows.
    pub open spec fn translucent(self) -> bool {
        self is Air
    }

    pub fn is_translucent(&self) -> (r: bool)
        ensures
            r == self.translucent(),
    {
        match self {
            Block::Air => true,
            _ => false,
        }
    }
}

/// In-cell x coordinate of voxel `i` (voxels are laid out x-major, then y, then z).
pub open spec fn voxel_x(i: int) -> int {
    i / 256
}

pub open spec fn voxel_y(i: int) -> int {
    (i / 16) % 16
}

pub open spec fn voxel_z(i: int) -> int {
    i % 16
}

pub open spec fn voxel_index(x: int, y: int, z: int) -> int {
    x * 256 + y * 16 + z
}

pub open spec fn in_cell(x: int, y: int, z: int) -> bool {
    0 <= x < 16 && 0 <= y < 16 && 0 <= z < 16
}

/// Heightmap entry that covers voxel `i`.
pub open spec fn heightmap_index(i: int) -> int {
    voxel_x(i) * 16 + voxel_z(i)
}

/// The unit step of each face direction: +x, -x, +y, -y, +z, -z.
pub open spec fn side_dx(side: int) -> int {
    if side == 0 { 1 } else if side == 1 { -1 } else { 0 }
}

pub open spec fn side_dy(side: int) -> int {
    if side == 2 { 1 } else if side == 3 { -1 } else { 0 }
}

pub open spec fn side_dz(side: int) -> int {
    if side == 4 { 1 } else if side == 5 { -1 } else { 0 }
}

/// A coordinate that stepped one voxel out of a cell, taken into the adjacent cell.
pub open spec fn wrap(c: int) -> int {
    if c < 0 { c + 16 } else if c >= 16 { c - 16 } else { c }
}

pub proof fn lemma_voxel_coords(i: int)
    requires
        0 <= i < 4096,
    ensures
        in_cell(voxel_x(i), voxel_y(i), voxel_z(i)),
        voxel_index(voxel_x(i), voxel_y(i), voxel_z(i)) == i,
        0 <= heightmap_index(i) < 256,
{
}

pub proof fn lemma_index_coords(x: int, y: int, z: int)
    requires
        in_cell(x, y, z),
    ensures
        0 <= voxel_index(x, y, z) < 4096,
        voxel_x(voxel_index(x, y, z)) == x,
        voxel_y(voxel_index(x, y, z)) == y,
        voxel_z(voxel_index(x, y, z)) == z,
{
}

/// Corner `k` (0..4) of the face `side` of the unit voxel, as 0/1 offsets,
/// listed so that the two triangles 0-1-2 and 2-3-0 cover the face.
pub open spec fn corner(side: int, k: int) -> (int, int, int) {
    if side == 0 {
        if k == 0 { (1, 0, 0) } else if k == 1 { (1, 1, 0) } else if k == 2 { (1, 1, 1) } else { (1, 0, 1) }
    } else if side == 1 {
        if k == 0 { (0, 0, 1) } else if k == 1 { (0, 1, 1) } else if k == 2 { (0, 1, 0) } else { (0, 0, 0) }
    } else if side == 2 {
        if k == 0 { (0, 1, 0) } else if k == 1 { (0, 1, 1) } else if k == 2 { (1, 1, 1) } else { (1, 1, 0) }
    } else if side == 3 {
        if k == 0 { (0, 0, 0) } else if k == 1 { (1, 0, 0) } else if k == 2 { (1, 0, 1) } else { (0, 0, 1) }
    } else if side == 4 {
        if k == 0 { (1, 0, 1) } else if k == 1 { (1, 1, 1) } else if k == 2 { (0, 1, 1) } else { (0, 0, 1) }
    } else {
        if k == 0 { (0, 0, 0) } else if k == 1 { (0, 1, 0) } else if k == 2 { (1, 1, 0) } else { (1, 0, 0) }
    }
}

/// Executable form of `corner`.
pub fn face_corner(side: usize, k: usize) -> (r: (u8, u8, u8))
    requires
        side < 6,
        k < 4,
    ensures
        (r.0 as int, r.1 as int, r.2 as int) == corner(side as int, k as int),
{
    let table: [[u8; 12]; 6] = [
        [1, 0, 0, 1, 1, 0, 1, 1, 1, 1, 0, 1],
        [0, 0, 1, 0, 1, 1, 0, 1, 0, 0, 0, 0],
        [0, 1, 0, 0, 1, 1, 1, 1, 1, 1, 1, 0],
        [0, 0, 0, 1, 0, 0, 1, 0, 1, 0, 0, 1],
        [1, 0, 1, 1, 1, 1, 0, 1, 1, 0, 0, 1],
        [0, 0, 0, 0, 1, 0, 1, 1, 0, 1, 0, 0],
    ];
    let row = table[side];
    (row[3 * k], row[3 * k + 1], row[3 * k + 2])
}

} // verus!

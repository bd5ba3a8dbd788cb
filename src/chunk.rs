//! One cell of the world: its voxels, face visibility, mesh, and the
//! stage/progress record that sequences the work done on it.
use vstd::prelude::*;
use crate::block::{
    Block, CHUNK_LENGTH, FACE_COUNT, HEIGHTMAP_SIZE, corner, face_corner, heightmap_index, in_cell,
    lemma_index_coords, lemma_voxel_coords, side_dx, side_dy, side_dz, voxel_index, voxel_x, voxel_y,
    voxel_z, wrap,
};

verus! {

/// Cell coordinates stay within this bound, so that voxel coordinates
/// (`16 * cell + 15`) fit in an `i32`.
pub const MAX_CELL: i32 = 0x400_0000;

/// Pipeline phase of a cell.
#[derive(Clone, Copy, PartialEq, Eq, Debug, Structural)]
pub enum ChunkStateStage {
    ChunkGen,
    ChunkVisGen,
    MeshGen,
    Ready,
}

/// Reservation state, orthogonal to the stage.
#[derive(Clone, Copy, PartialEq, Eq, Debug, Structural)]
pub enum ChunkStateProgress {
    Waiting,
    TaskAssigned,
    Processing,
    SwitchingTo(ChunkStateStage),
}

/// The stage that follows `s`; `Ready` is last.
pub open spec fn next_stage(s: ChunkStateStage) -> ChunkStateStage {
    match s {
        ChunkStateStage::ChunkGen => ChunkStateStage::ChunkVisGen,
        ChunkStateStage::ChunkVisGen => ChunkStateStage::MeshGen,
        _ => ChunkStateStage::Ready,
    }
}

/// Stage and progress of a cell, kept together.
#[derive(Clone, Copy, PartialEq, Eq, Debug, Structural)]
pub struct ChunkState {
    pub stage: ChunkStateStage,
    pub progress: ChunkStateProgress,
}

/// What the start guard does: the new state, and whether the stage body runs.
pub open spec fn start_spec(st: ChunkState) -> (ChunkState, bool) {
    match st.progress {
        ChunkStateProgress::TaskAssigned => (
            ChunkState { stage: st.stage, progress: ChunkStateProgress::Processing },
            true,
        ),
        ChunkStateProgress::SwitchingTo(t) => (
            ChunkState { stage: t, progress: ChunkStateProgress::Waiting },
            false,
        ),
        _ => (st, false),
    }
}

/// What the end guard does: the new state, and whether the result is committed.
pub open spec fn end_spec(st: ChunkState) -> (ChunkState, bool) {
    match st.progress {
        ChunkStateProgress::SwitchingTo(t) => (
            ChunkState { stage: t, progress: ChunkStateProgress::Waiting },
            false,
        ),
        _ => (
            ChunkState { stage: next_stage(st.stage), progress: ChunkStateProgress::Waiting },
            true,
        ),
    }
}

/// What a reservation does: the new state, and whether it was taken.
pub open spec fn assign_spec(st: ChunkState) -> (ChunkState, bool) {
    match st.progress {
        ChunkStateProgress::Waiting => (
            ChunkState { stage: st.stage, progress: ChunkStateProgress::TaskAssigned },
            true,
        ),
        _ => (st, false),
    }
}

/// What a redirection does: an idle cell moves at once; a reserved or busy
/// one is told to move when its task starts or ends.
pub open spec fn redirect_spec(st: ChunkState, target: ChunkStateStage) -> ChunkState {
    match st.progress {
        ChunkStateProgress::Waiting => ChunkState { stage: target, progress: ChunkStateProgress::Waiting },
        _ => ChunkState { stage: st.stage, progress: ChunkStateProgress::SwitchingTo(target) },
    }
}

/// A start guard finds a stage body allowed to run on this state.
pub open spec fn start_allowed(st: ChunkState, expected: ChunkStateStage) -> bool {
    st.stage == expected && !(st.progress is Waiting)
}

/// An end guard finds the state that a running stage body can leave.
pub open spec fn end_allowed(st: ChunkState, current: ChunkStateStage) -> bool {
    st.stage == current && current != ChunkStateStage::Ready && (st.progress is Processing
        || st.progress is SwitchingTo)
}

/// Material of voxel `i` of cell `id`: empty above the surface and in caves,
/// the surface material exactly at the surface height, interior material below.
pub open spec fn classify(id: (int, int, int), heightmap: Seq<i32>, cave: Seq<bool>, i: int) -> Block {
    let wy = 16 * id.1 + voxel_y(i);
    let surface = heightmap[heightmap_index(i)] as int;
    if wy > surface {
        Block::Air
    } else if cave[i] {
        Block::Air
    } else if wy == surface {
        Block::Grass
    } else {
        Block::Stone
    }
}

/// The voxels that generation gives cell `id`.
pub open spec fn generated_blocks(id: (int, int, int), heightmap: Seq<i32>, cave: Seq<bool>) -> Seq<
    Block,
> {
    Seq::new(CHUNK_LENGTH as nat, |i: int| classify(id, heightmap, cave, i))
}

pub open spec fn cell_id_ok(id: (int, int, int)) -> bool {
    -MAX_CELL <= id.0 <= MAX_CELL && -MAX_CELL <= id.1 <= MAX_CELL && -MAX_CELL <= id.2 <= MAX_CELL
}

pub open spec fn id_of(id: [i32; 3]) -> (int, int, int) {
    (id[0] as int, id[1] as int, id[2] as int)
}

pub open spec fn blocks_view(o: Option<Vec<Block>>) -> Option<Seq<Block>> {
    match o {
        Some(v) => Some(v@),
        None => None,
    }
}

/// The voxel next to voxel `i` across face `side`: in this cell, in the adjacent
/// cell of that side, or none where that cell's voxels are not available.
pub open spec fn neighbor_block(
    blocks: Seq<Block>,
    neighbors: Seq<Option<Seq<Block>>>,
    i: int,
    side: int,
) -> Option<Block> {
    let nx = voxel_x(i) + side_dx(side);
    let ny = voxel_y(i) + side_dy(side);
    let nz = voxel_z(i) + side_dz(side);
    if in_cell(nx, ny, nz) {
        Some(blocks[voxel_index(nx, ny, nz)])
    } else {
        match neighbors[side] {
            Some(nb) => Some(nb[voxel_index(wrap(nx), wrap(ny), wrap(nz))]),
            None => None,
        }
    }
}

/// A face shows when its voxel is solid and the voxel across it is known and
/// translucent; an unknown neighbor hides it.
pub open spec fn face_visible(
    blocks: Seq<Block>,
    neighbors: Seq<Option<Seq<Block>>>,
    i: int,
    side: int,
) -> bool {
    !blocks[i].translucent() && match neighbor_block(blocks, neighbors, i, side) {
        Some(b) => b.translucent(),
        None => false,
    }
}

/// Visibility of every face, face `side` of voxel `i` at index `6 * i + side`.
pub open spec fn visibility_of(blocks: Seq<Block>, neighbors: Seq<Option<Seq<Block>>>) -> Seq<bool> {
    Seq::new(FACE_COUNT as nat, |f: int| face_visible(blocks, neighbors, f / 6, f % 6))
}

pub open spec fn neighbors_view(n: Seq<Option<Vec<Block>>>) -> Seq<Option<Seq<Block>>> {
    Seq::new(n.len(), |k: int| blocks_view(n[k]))
}

/// Neighbor data fit for visibility: one entry per side, each a full cell.
pub open spec fn neighbors_ok(n: Seq<Option<Seq<Block>>>) -> bool {
    n.len() == 6 && forall|k: int| 0 <= k < 6 ==> match #[trigger] n[k] {
        Some(b) => b.len() == CHUNK_LENGTH,
        None => true,
    }
}

/// One mesh vertex: the cell origin in voxels, the offset inside the cell,
/// the face direction (the normal) and the material (the colour).
#[derive(Clone, Copy, PartialEq, Eq, Debug, Structural)]
pub struct ChunkVertex {
    pub origin_x: i32,
    pub origin_y: i32,
    pub origin_z: i32,
    pub rel_x: u8,
    pub rel_y: u8,
    pub rel_z: u8,
    pub side: u8,
    pub block: Block,
}

/// Corner `k` of face `f` (voxel `f / 6`, side `f % 6`).
pub open spec fn face_vertex(id: (int, int, int), blocks: Seq<Block>, f: int, k: int) -> ChunkVertex {
    let i = f / 6;
    let side = f % 6;
    ChunkVertex {
        origin_x: (16 * id.0) as i32,
        origin_y: (16 * id.1) as i32,
        origin_z: (16 * id.2) as i32,
        rel_x: (voxel_x(i) + corner(side, k).0) as u8,
        rel_y: (voxel_y(i) + corner(side, k).1) as u8,
        rel_z: (voxel_z(i) + corner(side, k).2) as u8,
        side: side as u8,
        block: blocks[i],
    }
}

pub open spec fn quad_vertices(id: (int, int, int), blocks: Seq<Block>, f: int) -> Seq<ChunkVertex> {
    seq![face_vertex(id, blocks, f, 0), face_vertex(id, blocks, f, 1), face_vertex(id, blocks, f, 2), face_vertex(id, blocks, f, 3)]
}

/// Two triangles over the four vertices that start at `start`.
pub open spec fn quad_indices(start: int) -> Seq<u32> {
    seq![start as u32, (start + 1) as u32, (start + 2) as u32, (start + 2) as u32, (start + 3) as u32, start as u32]
}

/// Vertices of the visible faces among the first `n`, in face order.
pub open spec fn mesh_vertices(id: (int, int, int), blocks: Seq<Block>, vis: Seq<bool>, n: int) -> Seq<
    ChunkVertex,
>
    decreases n,
{
    if n <= 0 {
        seq![]
    } else if vis[n - 1] {
        mesh_vertices(id, blocks, vis, n - 1) + quad_vertices(id, blocks, n - 1)
    } else {
        mesh_vertices(id, blocks, vis, n - 1)
    }
}

/// Indices of the visible faces among the first `n`, in face order.
pub open spec fn mesh_indices(id: (int, int, int), blocks: Seq<Block>, vis: Seq<bool>, n: int) -> Seq<u32>
    decreases n,
{
    if n <= 0 {
        seq![]
    } else if vis[n - 1] {
        mesh_indices(id, blocks, vis, n - 1) + quad_indices(mesh_vertices(id, blocks, vis, n - 1).len() as int)
    } else {
        mesh_indices(id, blocks, vis, n - 1)
    }
}

pub proof fn lemma_mesh_len(id: (int, int, int), blocks: Seq<Block>, vis: Seq<bool>, n: int)
    requires
        n >= 0,
    ensures
        mesh_vertices(id, blocks, vis, n).len() <= 4 * n,
    decreases n,
{
    if n > 0 {
        lemma_mesh_len(id, blocks, vis, n - 1);
    }
}

/// The vertex and index buffers of a built mesh.
pub struct ChunkMeshData {
    pub vertices: Vec<ChunkVertex>,
    pub indices: Vec<u32>,
}

/// The buffers that building the mesh gives.
pub open spec fn built_mesh(id: (int, int, int), blocks: Seq<Block>, vis: Seq<bool>) -> (Seq<ChunkVertex>, Seq<u32>) {
    (mesh_vertices(id, blocks, vis, FACE_COUNT as int), mesh_indices(id, blocks, vis, FACE_COUNT as int))
}

/// Generates the voxels of cell `id` from its column's heightmap and the cave
/// mask (true where the terrain noise opens a cave), both indexed as voxels are.
pub fn generate_blocks(id: [i32; 3], heightmap: &Vec<i32>, cave: &Vec<bool>) -> (r: Vec<Block>)
    requires
        cell_id_ok(id_of(id)),
        heightmap@.len() == HEIGHTMAP_SIZE,
        cave@.len() == CHUNK_LENGTH,
    ensures
        r@ == generated_blocks(id_of(id), heightmap@, cave@),
{
    let base_y: i32 = id[1] * 16;
    let mut blocks: Vec<Block> = Vec::with_capacity(CHUNK_LENGTH);
    let mut i: usize = 0;
    while i < CHUNK_LENGTH
        invariant
            i <= CHUNK_LENGTH,
            base_y == 16 * id[1],
            cell_id_ok(id_of(id)),
            heightmap@.len() == HEIGHTMAP_SIZE,
            cave@.len() == CHUNK_LENGTH,
            blocks@.len() == i,
            forall|j: int| 0 <= j < i ==> blocks@[j] == classify(id_of(id), heightmap@, cave@, j),
        decreases CHUNK_LENGTH - i,
    {
        proof {
            lemma_voxel_coords(i as int);
        }
        let x: usize = i / 256;
        let y: usize = (i / 16) % 16;
        let z: usize = i % 16;
        let surface: i32 = heightmap[x * 16 + z];
        let wy: i32 = base_y + y as i32;
        let block = if wy > surface {
            Block::Air
        } else if cave[i] {
            Block::Air
        } else if wy == surface {
            Block::Grass
        } else {
            Block::Stone
        };
        blocks.push(block);
        i = i + 1;
    }
    assert(blocks@ =~= generated_blocks(id_of(id), heightmap@, cave@));
    blocks
}

/// The voxel at in-cell position `(x, y, z)`, or none outside the cell.
fn block_in(blocks: &Vec<Block>, x: i32, y: i32, z: i32) -> (r: Option<Block>)
    requires
        blocks@.len() == CHUNK_LENGTH,
    ensures
        r == (if in_cell(x as int, y as int, z as int) {
            Some(blocks@[voxel_index(x as int, y as int, z as int)])
        } else {
            None
        }),
{
    if 0 <= x && x < 16 && 0 <= y && y < 16 && 0 <= z && z < 16 {
        proof {
            lemma_index_coords(x as int, y as int, z as int);
        }
        Some(blocks[(x * 256 + y * 16 + z) as usize])
    } else {
        None
    }
}

fn wrap_exec(c: i32) -> (r: i32)
    requires
        -1 <= c <= 16,
    ensures
        r == wrap(c as int),
{
    if c < 0 {
        c + 16
    } else if c >= 16 {
        c - 16
    } else {
        c
    }
}

/// The voxel across face `side` of voxel `i`, as `neighbor_block` gives it.
fn neighbor_block_exec(blocks: &Vec<Block>, neighbors: &Vec<Option<Vec<Block>>>, i: usize, side: usize) -> (r:
    Option<Block>)
    requires
        blocks@.len() == CHUNK_LENGTH,
        neighbors_ok(neighbors_view(neighbors@)),
        i < CHUNK_LENGTH,
        side < 6,
    ensures
        r == neighbor_block(blocks@, neighbors_view(neighbors@), i as int, side as int),
{
    proof {
        lemma_voxel_coords(i as int);
    }
    let x: i32 = (i / 256) as i32;
    let y: i32 = ((i / 16) % 16) as i32;
    let z: i32 = (i % 16) as i32;
    let nx: i32 = if side == 0 { x + 1 } else if side == 1 { x - 1 } else { x };
    let ny: i32 = if side == 2 { y + 1 } else if side == 3 { y - 1 } else { y };
    let nz: i32 = if side == 4 { z + 1 } else if side == 5 { z - 1 } else { z };
    if 0 <= nx && nx < 16 && 0 <= ny && ny < 16 && 0 <= nz && nz < 16 {
        block_in(blocks, nx, ny, nz)
    } else {
        let ghost nv = neighbors_view(neighbors@);
        assert(nv[side as int] == blocks_view(neighbors@[side as int]));
        match &neighbors[side] {
            Some(nb) => {
                assert(nb@.len() == CHUNK_LENGTH) by {
                    assert(match nv[side as int] {
                        Some(b) => b.len() == CHUNK_LENGTH,
                        None => true,
                    });
                }
                let wx = wrap_exec(nx);
                let wy = wrap_exec(ny);
                let wz = wrap_exec(nz);
                block_in(nb, wx, wy, wz)
            },
            None => None,
        }
    }
}

/// Computes which faces of the cell's voxels show, given the voxels of the six
/// adjacent cells where they are available (see `face_visible`).
pub fn compute_visibility(blocks: &Vec<Block>, neighbors: &Vec<Option<Vec<Block>>>) -> (r: Vec<bool>)
    requires
        blocks@.len() == CHUNK_LENGTH,
        neighbors_ok(neighbors_view(neighbors@)),
    ensures
        r@ == visibility_of(blocks@, neighbors_view(neighbors@)),
{
    let ghost nv = neighbors_view(neighbors@);
    let mut vis: Vec<bool> = Vec::with_capacity(FACE_COUNT);
    let mut i: usize = 0;
    while i < CHUNK_LENGTH
        invariant
            i <= CHUNK_LENGTH,
            blocks@.len() == CHUNK_LENGTH,
            neighbors_ok(nv),
            nv == neighbors_view(neighbors@),
            vis@.len() == 6 * i,
            forall|f: int| 0 <= f < 6 * i ==> vis@[f] == face_visible(blocks@, nv, f / 6, f % 6),
        decreases CHUNK_LENGTH - i,
    {
        let solid = !blocks[i].is_translucent();
        let mut side: usize = 0;
        while side < 6
            invariant
                i < CHUNK_LENGTH,
                side <= 6,
                blocks@.len() == CHUNK_LENGTH,
                neighbors_ok(nv),
                nv == neighbors_view(neighbors@),
                solid == !blocks@[i as int].translucent(),
                vis@.len() == 6 * i + side,
                forall|f: int| 0 <= f < 6 * i + side ==> vis@[f] == face_visible(blocks@, nv, f / 6, f % 6),
            decreases 6 - side,
        {
            let across = neighbor_block_exec(blocks, neighbors, i, side);
            let shows = solid && match across {
                Some(b) => b.is_translucent(),
                None => false,
            };
            assert((6 * i + side) as int / 6 == i as int && (6 * i + side) as int % 6 == side as int);
            vis.push(shows);
            side = side + 1;
        }
        i = i + 1;
    }
    assert(vis@ =~= visibility_of(blocks@, nv));
    vis
}

/// Builds the vertex and index buffers of the visible faces, one quad per face,
/// in voxel order and, within a voxel, in side order.
pub fn build_mesh(id: [i32; 3], blocks: &Vec<Block>, vis: &Vec<bool>) -> (r: (Vec<ChunkVertex>, Vec<u32>))
    requires
        cell_id_ok(id_of(id)),
        blocks@.len() == CHUNK_LENGTH,
        vis@.len() == FACE_COUNT,
    ensures
        (r.0@, r.1@) == built_mesh(id_of(id), blocks@, vis@),
{
    let ghost cid = id_of(id);
    let ox: i32 = id[0] * 16;
    let oy: i32 = id[1] * 16;
    let oz: i32 = id[2] * 16;
    let mut vertices: Vec<ChunkVertex> = Vec::new();
    let mut indices: Vec<u32> = Vec::new();
    let mut i: usize = 0;
    while i < CHUNK_LENGTH
        invariant
            i <= CHUNK_LENGTH,
            cid == id_of(id),
            cell_id_ok(cid),
            ox == 16 * cid.0 && oy == 16 * cid.1 && oz == 16 * cid.2,
            blocks@.len() == CHUNK_LENGTH,
            vis@.len() == FACE_COUNT,
            vertices@ == mesh_vertices(cid, blocks@, vis@, 6 * i),
            indices@ == mesh_indices(cid, blocks@, vis@, 6 * i),
        decreases CHUNK_LENGTH - i,
    {
        proof {
            lemma_voxel_coords(i as int);
        }
        let x: u8 = (i / 256) as u8;
        let y: u8 = ((i / 16) % 16) as u8;
        let z: u8 = (i % 16) as u8;
        let block = blocks[i];
        let mut side: usize = 0;
        while side < 6
            invariant
                i < CHUNK_LENGTH,
                side <= 6,
                cid == id_of(id),
                cell_id_ok(cid),
                ox == 16 * cid.0 && oy == 16 * cid.1 && oz == 16 * cid.2,
                blocks@.len() == CHUNK_LENGTH,
                vis@.len() == FACE_COUNT,
                x as int == voxel_x(i as int) && y as int == voxel_y(i as int) && z as int == voxel_z(i as int),
                block == blocks@[i as int],
                vertices@ == mesh_vertices(cid, blocks@, vis@, 6 * i + side),
                indices@ == mesh_indices(cid, blocks@, vis@, 6 * i + side),
            decreases 6 - side,
        {
            let f: usize = 6 * i + side;
            assert(f as int / 6 == i as int && f as int % 6 == side as int);
            if vis[f] {
                proof {
                    lemma_mesh_len(cid, blocks@, vis@, f as int);
                }
                let start: u32 = vertices.len() as u32;
                let ghost before = vertices@;
                let mut k: usize = 0;
                while k < 4
                    invariant
                        k <= 4,
                        f == 6 * i + side,
                        i < CHUNK_LENGTH,
                        side < 6,
                        f as int / 6 == i as int && f as int % 6 == side as int,
                        ox == 16 * cid.0 && oy == 16 * cid.1 && oz == 16 * cid.2,
                        blocks@.len() == CHUNK_LENGTH,
                        x as int == voxel_x(i as int) && y as int == voxel_y(i as int) && z as int == voxel_z(i as int),
                        block == blocks@[i as int],
                        vertices@.len() == before.len() + k,
                        forall|j: int| 0 <= j < before.len() ==> vertices@[j] == before[j],
                        forall|j: int| 0 <= j < k ==> vertices@[before.len() + j] == face_vertex(cid, blocks@, f as int, j),
                    decreases 4 - k,
                {
                    let c = face_corner(side, k);
                    vertices.push(ChunkVertex {
                        origin_x: ox,
                        origin_y: oy,
                        origin_z: oz,
                        rel_x: x + c.0,
                        rel_y: y + c.1,
                        rel_z: z + c.2,
                        side: side as u8,
                        block,
                    });
                    k = k + 1;
                }
                assert(vertices@ =~= before + quad_vertices(cid, blocks@, f as int));
                indices.push(start);
                indices.push(start + 1);
                indices.push(start + 2);
                indices.push(start + 2);
                indices.push(start + 3);
                indices.push(start);
                assert(indices@ =~= mesh_indices(cid, blocks@, vis@, f as int) + quad_indices(start as int));
            }
            side = side + 1;
        }
        i = i + 1;
    }
    (vertices, indices)
}

/// A cell: its coordinate, its voxels and face visibility once computed, its
/// mesh once built, and its stage/progress record.
pub struct Chunk {
    chunk_id: [i32; 3],
    blocks: Option<Vec<Block>>,
    block_vis: Option<Vec<bool>>,
    mesh: Option<ChunkMeshData>,
    state: ChunkState,
}

/// What a cell holds, as values.
pub struct ChunkView {
    pub id: (int, int, int),
    pub blocks: Option<Seq<Block>>,
    pub vis: Option<Seq<bool>>,
    pub mesh: Option<(Seq<ChunkVertex>, Seq<u32>)>,
    pub state: ChunkState,
}

impl ChunkView {
    pub open spec fn wf(self) -> bool {
        &&& cell_id_ok(self.id)
        &&& match self.blocks {
            Some(b) => b.len() == CHUNK_LENGTH,
            None => true,
        }
        &&& match self.vis {
            Some(v) => v.len() == FACE_COUNT,
            None => true,
        }
        &&& self.has_data_for(self.state.stage)
        &&& match self.state.progress {
            ChunkStateProgress::SwitchingTo(t) => self.has_data_for(t),
            _ => true,
        }
    }

    /// The cell holds what stage `s` works from: voxels from the visibility
    /// stage on, visibility from the mesh stage on, a mesh once ready.
    pub open spec fn has_data_for(self, s: ChunkStateStage) -> bool {
        match s {
            ChunkStateStage::ChunkGen => true,
            ChunkStateStage::ChunkVisGen => self.blocks is Some,
            ChunkStateStage::MeshGen => self.blocks is Some && self.vis is Some,
            ChunkStateStage::Ready => self.blocks is Some && self.vis is Some && self.mesh is Some,
        }
    }

    /// A cell as it is created: nothing computed, waiting to be generated.
    pub open spec fn fresh(self, id: (int, int, int)) -> bool {
        &&& self.id == id
        &&& self.blocks is None
        &&& self.vis is None
        &&& self.mesh is None
        &&& self.state == ChunkState { stage: ChunkStateStage::ChunkGen, progress: ChunkStateProgress::Waiting }
    }
}

impl View for Chunk {
    type V = ChunkView;

    closed spec fn view(&self) -> ChunkView {
        ChunkView {
            id: id_of(self.chunk_id),
            blocks: blocks_view(self.blocks),
            vis: match self.block_vis {
                Some(v) => Some(v@),
                None => None,
            },
            mesh: match self.mesh {
                Some(m) => Some((m.vertices@, m.indices@)),
                None => None,
            },
            state: self.state,
        }
    }
}

impl Chunk {
    /// A new cell at `chunk_id`, waiting to be generated.
    pub fn new(chunk_id: [i32; 3]) -> (r: Chunk)
        requires
            cell_id_ok(id_of(chunk_id)),
        ensures
            r@.wf(),
            r@.fresh(id_of(chunk_id)),
    {
        Chunk {
            chunk_id,
            blocks: None,
            block_vis: None,
            mesh: None,
            state: ChunkState { stage: ChunkStateStage::ChunkGen, progress: ChunkStateProgress::Waiting },
        }
    }

    /// Start guard: a reserved task proceeds (the cell is then `Processing`), a
    /// second one is skipped, and a pending redirection is carried out instead.
    pub fn start_process_check(&mut self, expected_stage: ChunkStateStage) -> (r: bool)
        requires
            old(self)@.wf(),
            start_allowed(old(self)@.state, expected_stage),
        ensures
            final(self)@.wf(),
            (final(self)@.state, r) == start_spec(old(self)@.state),
            final(self)@.id == old(self)@.id,
            final(self)@.blocks == old(self)@.blocks,
            final(self)@.vis == old(self)@.vis,
            final(self)@.mesh == old(self)@.mesh,
    {
        match self.state.progress {
            ChunkStateProgress::TaskAssigned => {
                self.state.progress = ChunkStateProgress::Processing;
                true
            },
            ChunkStateProgress::SwitchingTo(t) => {
                self.state = ChunkState { stage: t, progress: ChunkStateProgress::Waiting };
                false
            },
            _ => false,
        }
    }

    /// End guard: commits `output` and moves to the next stage, unless the cell
    /// was redirected meanwhile, in which case `output` is stale and dropped.
    pub fn end_process_check(&mut self, current_stage: ChunkStateStage, output: StageOutput) -> (r: bool)
        requires
            old(self)@.wf(),
            end_allowed(old(self)@.state, current_stage),
            output.fits(current_stage),
        ensures
            final(self)@.wf(),
            (final(self)@.state, r) == end_spec(old(self)@.state),
            final(self)@.id == old(self)@.id,
            final(self)@.blocks == (if r && output is Blocks {
                Some(output.blocks_seq())
            } else {
                old(self)@.blocks
            }),
            final(self)@.vis == (if r && output is Visibility {
                Some(output.vis_seq())
            } else {
                old(self)@.vis
            }),
            final(self)@.mesh == (if r && output is Mesh {
                Some(output.mesh_seqs())
            } else {
                old(self)@.mesh
            }),
    {
        match self.state.progress {
            ChunkStateProgress::SwitchingTo(t) => {
                self.state = ChunkState { stage: t, progress: ChunkStateProgress::Waiting };
                false
            },
            _ => {
                match output {
                    StageOutput::Blocks(b) => {
                        self.blocks = Some(b);
                    },
                    StageOutput::Visibility(v) => {
                        self.block_vis = Some(v);
                    },
                    StageOutput::Mesh(vertices, indices) => {
                        self.update_vertex_buffer(vertices, indices);
                    },
                }
                self.state = ChunkState {
                    stage: match current_stage {
                        ChunkStateStage::ChunkGen => ChunkStateStage::ChunkVisGen,
                        ChunkStateStage::ChunkVisGen => ChunkStateStage::MeshGen,
                        _ => ChunkStateStage::Ready,
                    },
                    progress: ChunkStateProgress::Waiting,
                };
                true
            },
        }
    }

    /// Stores mesh buffers, reusing the cell's existing mesh record if it has one.
    fn update_vertex_buffer(&mut self, vertices: Vec<ChunkVertex>, indices: Vec<u32>)
        ensures
            final(self)@.mesh == Some((vertices@, indices@)),
            final(self)@.id == old(self)@.id,
            final(self)@.blocks == old(self)@.blocks,
            final(self)@.vis == old(self)@.vis,
            final(self)@.state == old(self)@.state,
    {
        match &mut self.mesh {
            Some(mesh) => {
                mesh.vertices = vertices;
                mesh.indices = indices;
            },
            None => {
                self.mesh = Some(ChunkMeshData { vertices, indices });
            },
        }
    }

    /// Generation stage: classifies every voxel from the column heightmap and
    /// the cave mask, then commits through the end guard.
    pub fn gen(&mut self, surface_heightmap: &Vec<i32>, cave: &Vec<bool>) -> (r: bool)
        requires
            old(self)@.wf(),
            start_allowed(old(self)@.state, ChunkStateStage::ChunkGen),
            surface_heightmap@.len() == HEIGHTMAP_SIZE,
            cave@.len() == CHUNK_LENGTH,
        ensures
            final(self)@.wf(),
            r == start_spec(old(self)@.state).1,
            final(self)@.state == (if r {
                end_spec(start_spec(old(self)@.state).0).0
            } else {
                start_spec(old(self)@.state).0
            }),
            final(self)@.id == old(self)@.id,
            final(self)@.blocks == (if r {
                Some(generated_blocks(old(self)@.id, surface_heightmap@, cave@))
            } else {
                old(self)@.blocks
            }),
            final(self)@.vis == old(self)@.vis,
            final(self)@.mesh == old(self)@.mesh,
    {
        if !self.start_process_check(ChunkStateStage::ChunkGen) {
            return false;
        }
        let blocks = generate_blocks(self.chunk_id, surface_heightmap, cave);
        self.end_process_check(ChunkStateStage::ChunkGen, StageOutput::Blocks(blocks))
    }

    /// Visibility stage: computes face visibility against the given voxels of
    /// the six adjacent cells (none where unloaded or not generated).
    pub fn gen_block_vis(&mut self, adjacent_chunks: &Vec<Option<Vec<Block>>>) -> (r: bool)
        requires
            old(self)@.wf(),
            old(self)@.blocks is Some,
            start_allowed(old(self)@.state, ChunkStateStage::ChunkVisGen),
            neighbors_ok(neighbors_view(adjacent_chunks@)),
        ensures
            final(self)@.wf(),
            r == start_spec(old(self)@.state).1,
            final(self)@.state == (if r {
                end_spec(start_spec(old(self)@.state).0).0
            } else {
                start_spec(old(self)@.state).0
            }),
            final(self)@.id == old(self)@.id,
            final(self)@.blocks == old(self)@.blocks,
            final(self)@.vis == (if r {
                Some(visibility_of(old(self)@.blocks->0, neighbors_view(adjacent_chunks@)))
            } else {
                old(self)@.vis
            }),
            final(self)@.mesh == old(self)@.mesh,
    {
        if !self.start_process_check(ChunkStateStage::ChunkVisGen) {
            return false;
        }
        let vis = match &self.blocks {
            Some(blocks) => compute_visibility(blocks, adjacent_chunks),
            None => Vec::new(),
        };
        self.end_process_check(ChunkStateStage::ChunkVisGen, StageOutput::Visibility(vis))
    }

    /// Mesh stage: builds the buffers of the visible faces and stores them in
    /// the cell's mesh record.
    pub fn update_vertices(&mut self) -> (r: bool)
        requires
            old(self)@.wf(),
            old(self)@.blocks is Some,
            old(self)@.vis is Some,
            start_allowed(old(self)@.state, ChunkStateStage::MeshGen),
        ensures
            final(self)@.wf(),
            r == start_spec(old(self)@.state).1,
            final(self)@.state == (if r {
                end_spec(start_spec(old(self)@.state).0).0
            } else {
                start_spec(old(self)@.state).0
            }),
            final(self)@.id == old(self)@.id,
            final(self)@.blocks == old(self)@.blocks,
            final(self)@.vis == old(self)@.vis,
            final(self)@.mesh == (if r {
                Some(built_mesh(old(self)@.id, old(self)@.blocks->0, old(self)@.vis->0))
            } else {
                old(self)@.mesh
            }),
    {
        if !self.start_process_check(ChunkStateStage::MeshGen) {
            return false;
        }
        let (vertices, indices) = match (&self.blocks, &self.block_vis) {
            (Some(blocks), Some(vis)) => build_mesh(self.chunk_id, blocks, vis),
            _ => (Vec::new(), Vec::new()),
        };
        self.end_process_check(ChunkStateStage::MeshGen, StageOutput::Mesh(vertices, indices))
    }
}

/// The data a stage body hands to the end guard.
pub enum StageOutput {
    Blocks(Vec<Block>),
    Visibility(Vec<bool>),
    Mesh(Vec<ChunkVertex>, Vec<u32>),
}

impl StageOutput {
    /// The output belongs to stage `s` and has the size a cell holds.
    pub open spec fn fits(self, s: ChunkStateStage) -> bool {
        match self {
            StageOutput::Blocks(b) => s == ChunkStateStage::ChunkGen && b@.len() == CHUNK_LENGTH,
            StageOutput::Visibility(v) => s == ChunkStateStage::ChunkVisGen && v@.len() == FACE_COUNT,
            StageOutput::Mesh(_, _) => s == ChunkStateStage::MeshGen,
        }
    }

    pub open spec fn blocks_seq(self) -> Seq<Block> {
        match self {
            StageOutput::Blocks(b) => b@,
            _ => seq![],
        }
    }

    pub open spec fn vis_seq(self) -> Seq<bool> {
        match self {
            StageOutput::Visibility(v) => v@,
            _ => seq![],
        }
    }

    pub open spec fn mesh_seqs(self) -> (Seq<ChunkVertex>, Seq<u32>) {
        match self {
            StageOutput::Mesh(v, i) => (v@, i@),
            _ => (seq![], seq![]),
        }
    }
}

impl Chunk {
    /// Reserves the cell for one task if it is waiting; true if reserved.
    pub fn assign_if_waiting(&mut self) -> (r: bool)
        requires
            old(self)@.wf(),
        ensures
            final(self)@.wf(),
            (final(self)@.state, r) == assign_spec(old(self)@.state),
            final(self)@.id == old(self)@.id,
            final(self)@.blocks == old(self)@.blocks,
            final(self)@.vis == old(self)@.vis,
            final(self)@.mesh == old(self)@.mesh,
    {
        match self.state.progress {
            ChunkStateProgress::Waiting => {
                self.state.progress = ChunkStateProgress::TaskAssigned;
                true
            },
            _ => false,
        }
    }

    /// Sends the cell to stage `target`: at once when it is waiting, otherwise
    /// when its outstanding task starts or ends.
    pub fn redirect(&mut self, target: ChunkStateStage)
        requires
            old(self)@.wf(),
            old(self)@.has_data_for(target),
        ensures
            final(self)@.wf(),
            final(self)@.state == redirect_spec(old(self)@.state, target),
            final(self)@.id == old(self)@.id,
            final(self)@.blocks == old(self)@.blocks,
            final(self)@.vis == old(self)@.vis,
            final(self)@.mesh == old(self)@.mesh,
    {
        match self.state.progress {
            ChunkStateProgress::Waiting => {
                self.state.stage = target;
            },
            _ => {
                self.state.progress = ChunkStateProgress::SwitchingTo(target);
            },
        }
    }

    /// The voxel at the in-cell position, or none outside the cell or before generation.
    pub fn get_block_at(&self, x: i32, y: i32, z: i32) -> (r: Option<Block>)
        requires
            self@.wf(),
        ensures
            r == (match self@.blocks {
                Some(b) => if in_cell(x as int, y as int, z as int) {
                    Some(b[voxel_index(x as int, y as int, z as int)])
                } else {
                    None
                },
                None => None,
            }),
    {
        match &self.blocks {
            Some(blocks) => block_in(blocks, x, y, z),
            None => None,
        }
    }

    /// The six voxels next to an in-cell position, in side order, each none
    /// where it lies outside the cell or the cell is not generated.
    pub fn get_surrounding_blocks_of(&self, x: i32, y: i32, z: i32) -> (r: [Option<Block>; 6])
        requires
            self@.wf(),
            i32::MIN < x < i32::MAX && i32::MIN < y < i32::MAX && i32::MIN < z < i32::MAX,
        ensures
            forall|side: int|
                0 <= side < 6 ==> #[trigger] r@[side] == (match self@.blocks {
                    Some(b) => if in_cell(x + side_dx(side), y + side_dy(side), z + side_dz(side)) {
                        Some(b[voxel_index(x + side_dx(side), y + side_dy(side), z + side_dz(side))])
                    } else {
                        None
                    },
                    None => None,
                }),
    {
        [
            self.get_block_at(x + 1, y, z),
            self.get_block_at(x - 1, y, z),
            self.get_block_at(x, y + 1, z),
            self.get_block_at(x, y - 1, z),
            self.get_block_at(x, y, z + 1),
            self.get_block_at(x, y, z - 1),
        ]
    }

    /// A copy of the cell's voxels, for a neighbor's visibility task.
    pub fn blocks_snapshot(&self) -> (r: Option<Vec<Block>>)
        ensures
            blocks_view(r) == self@.blocks,
    {
        match &self.blocks {
            Some(blocks) => {
                let mut copy: Vec<Block> = Vec::with_capacity(blocks.len());
                let mut i: usize = 0;
                while i < blocks.len()
                    invariant
                        i <= blocks@.len(),
                        copy@ == blocks@.subrange(0, i as int),
                    decreases blocks@.len() - i,
                {
                    copy.push(blocks[i]);
                    i = i + 1;
                    assert(copy@ =~= blocks@.subrange(0, i as int));
                }
                assert(copy@ =~= blocks@);
                Some(copy)
            },
            None => None,
        }
    }

    /// The built mesh, or none before the first build.
    pub fn get_mesh_fast(&self) -> (r: Option<&ChunkMeshData>)
        ensures
            match r {
                Some(m) => self@.mesh == Some((m.vertices@, m.indices@)),
                None => self@.mesh is None,
            },
    {
        self.mesh.as_ref()
    }

    pub fn get_id(&self) -> (r: [i32; 3])
        ensures
            id_of(r) == self@.id,
    {
        self.chunk_id
    }

    /// The stage waiting for work, or none while a task is reserved, running
    /// or being redirected.
    pub fn get_pending_stage(&self) -> (r: Option<ChunkStateStage>)
        ensures
            r == (if self@.state.progress is Waiting {
                Some(self@.state.stage)
            } else {
                None
            }),
    {
        match self.state.progress {
            ChunkStateProgress::Waiting => Some(self.state.stage),
            _ => None,
        }
    }

    pub fn get_stage(&self) -> (r: ChunkStateStage)
        ensures
            r == self@.state.stage,
    {
        self.state.stage
    }

    pub fn get_state(&self) -> (r: ChunkState)
        ensures
            r == self@.state,
    {
        self.state
    }
}

/// Of two start guards in a row on one cell, at most one lets its task run:
/// the first that proceeds leaves the cell `Processing`, and a guard on a
/// `Processing` cell skips without changing it.
pub proof fn lemma_single_processing(st: ChunkState, expected: ChunkStateStage)
    requires
        start_allowed(st, expected),
    ensures
        start_spec(st).1 ==> start_spec(st).0.progress is Processing && !start_spec(start_spec(st).0).1,
        st.progress is Processing ==> start_spec(st) == (st, false),
        start_spec(st).1 ==> st.progress is TaskAssigned,
        assign_spec(st).1 ==> st.progress is Waiting,
        st.progress is Processing ==> !assign_spec(st).1 && assign_spec(st).0 == st,
{
}

/// The state after `k` reservation attempts in a row, and how many succeeded.
pub open spec fn assign_repeat(st: ChunkState, k: nat) -> (ChunkState, nat)
    decreases k,
{
    if k == 0 {
        (st, 0)
    } else {
        let (mid, n) = assign_repeat(st, (k - 1) as nat);
        (assign_spec(mid).0, if assign_spec(mid).1 { n + 1 } else { n })
    }
}

/// However many reservations are attempted one after another on a waiting
/// cell, exactly one succeeds and the cell ends up reserved once; on a cell
/// that is not waiting, none succeeds and nothing changes.
pub proof fn lemma_one_reservation(st: ChunkState, k: nat)
    requires
        k >= 1,
    ensures
        st.progress is Waiting ==> assign_repeat(st, k) == (
            ChunkState { stage: st.stage, progress: ChunkStateProgress::TaskAssigned },
            1nat,
        ),
        !(st.progress is Waiting) ==> assign_repeat(st, k) == (st, 0nat),
    decreases k,
{
    let prev = assign_repeat(st, (k - 1) as nat);
    assert(assign_repeat(st, k) == (assign_spec(prev.0).0, if assign_spec(prev.0).1 { prev.1 + 1 } else { prev.1 }));
    if k > 1 {
        lemma_one_reservation(st, (k - 1) as nat);
    } else {
        assert(prev == (st, 0nat));
    }
}

/// Every transition leaves the stage as it was, moves it to the next stage in
/// the order generation, visibility, mesh, ready (only when a result is
/// committed), or to the target of an explicit redirection.
pub proof fn lemma_stage_order(st: ChunkState, current: ChunkStateStage, target: ChunkStateStage)
    ensures
        start_spec(st).0.stage == st.stage || (st.progress == ChunkStateProgress::SwitchingTo(
            start_spec(st).0.stage)),
        end_allowed(st, current) ==> (end_spec(st).1 && end_spec(st).0.stage == next_stage(st.stage)) || (
        !end_spec(st).1 && st.progress == ChunkStateProgress::SwitchingTo(end_spec(st).0.stage)),
        assign_spec(st).0.stage == st.stage,
        redirect_spec(st, target).stage == st.stage || redirect_spec(st, target).stage == target,
        next_stage(ChunkStateStage::ChunkGen) == ChunkStateStage::ChunkVisGen,
        next_stage(ChunkStateStage::ChunkVisGen) == ChunkStateStage::MeshGen,
        next_stage(ChunkStateStage::MeshGen) == ChunkStateStage::Ready,
{
}

/// Rebuilding is idempotent: when a mesh build commits (`first` to `second`)
/// and a later build commits with the voxels and visibility unchanged
/// (`second` to `third`), both leave identical buffers.
pub proof fn lemma_mesh_idempotent(first: ChunkView, second: ChunkView, third: ChunkView)
    requires
        first.blocks is Some,
        first.vis is Some,
        second.id == first.id,
        second.blocks == first.blocks,
        second.vis == first.vis,
        second.mesh == Some(built_mesh(first.id, first.blocks->0, first.vis->0)),
        third.mesh == Some(built_mesh(second.id, second.blocks->0, second.vis->0)),
    ensures
        third.mesh == second.mesh,
{
}

/// A boundary face whose adjacent cell is unavailable is hidden; once that
/// cell's voxels are supplied and visibility is computed again, the face shows
/// exactly when the voxel is solid and the voxel across it is translucent,
/// whatever the earlier computation gave.
pub proof fn lemma_visibility_recompute(
    blocks: Seq<Block>,
    before: Seq<Option<Seq<Block>>>,
    after: Seq<Option<Seq<Block>>>,
    i: int,
    side: int,
)
    requires
        blocks.len() == CHUNK_LENGTH,
        neighbors_ok(before),
        neighbors_ok(after),
        0 <= i < CHUNK_LENGTH,
        0 <= side < 6,
        !in_cell(voxel_x(i) + side_dx(side), voxel_y(i) + side_dy(side), voxel_z(i) + side_dz(side)),
        before[side] is None,
        after[side] is Some,
    ensures
        !visibility_of(blocks, before)[6 * i + side],
        visibility_of(blocks, after)[6 * i + side] == (!blocks[i].translucent() && after[side]->0[voxel_index(
            wrap(voxel_x(i) + side_dx(side)),
            wrap(voxel_y(i) + side_dy(side)),
            wrap(voxel_z(i) + side_dz(side)),
        )].translucent()),
{
    assert((6 * i + side) / 6 == i && (6 * i + side) % 6 == side);
}

/// Generation depends on the cell coordinate, its column's heightmap and the
/// cave mask alone, so repeating it, or generating other cells in any order
/// in between, gives the same voxels.
pub proof fn lemma_generation_deterministic(
    id: (int, int, int),
    heightmap1: Seq<i32>,
    cave1: Seq<bool>,
    heightmap2: Seq<i32>,
    cave2: Seq<bool>,
)
    requires
        heightmap1 == heightmap2,
        cave1 == cave2,
    ensures
        generated_blocks(id, heightmap1, cave1) == generated_blocks(id, heightmap2, cave2),
{
}
} // verus!

//! The sliding window of cell columns around the viewpoint, vertical reuse of
//! cells inside a column, and the dispatcher that reserves work on cells.
use std::sync::Arc;
use vstd::prelude::*;
use crate::block::{Block, CHUNK_LENGTH, HEIGHTMAP_SIZE, side_dx, side_dy, side_dz};
use crate::chunk::{
    Chunk, ChunkStateProgress, ChunkStateStage, ChunkView, MAX_CELL, blocks_view, built_mesh, cell_id_ok, end_spec,
    generated_blocks, id_of, neighbors_ok, neighbors_view, start_allowed, start_spec, visibility_of,
};
use vstd::arithmetic::div_mod::{lemma_fundamental_div_mod, lemma_fundamental_div_mod_converse};
use vstd::arithmetic::mul::lemma_mul_is_distributive_add_other_way;

verus! {

/// Views of a sequence of cells.
pub open spec fn chunk_views(s: Seq<Chunk>) -> Seq<ChunkView> {
    Seq::new(s.len(), |k: int| s[k]@)
}

/// `cells` is the stack of column `(x, z)` over the vertical range `[lo, hi)`.
pub open spec fn column_cells_ok(cells: Seq<ChunkView>, x: int, z: int, lo: int, hi: int) -> bool {
    &&& cells.len() == hi - lo
    &&& forall|k: int| 0 <= k < cells.len() ==> (#[trigger] cells[k]).wf() && cells[k].id == (x, lo + k, z)
}

pub open spec fn max(a: int, b: int) -> int {
    if a >= b { a } else { b }
}

pub open spec fn min(a: int, b: int) -> int {
    if a <= b { a } else { b }
}

/// Cells of the old range `[old_lo, old_hi)` that leave when the range becomes
/// `[new_lo, new_hi)`: all of them when the ranges are disjoint, else those
/// below the overlap followed by those above it.
pub open spec fn evicted_cells(old: Seq<ChunkView>, old_lo: int, old_hi: int, new_lo: int, new_hi: int) -> Seq<
    ChunkView,
> {
    let ov_lo = max(old_lo, new_lo);
    let ov_hi = min(old_hi, new_hi);
    if ov_lo >= ov_hi {
        old
    } else {
        old.subrange(0, ov_lo - old_lo) + old.subrange(ov_hi - old_lo, old.len() as int)
    }
}

/// The stack after reuse: in the overlap the old cell at the same height, the
/// very same cell; elsewhere a fresh cell.
pub open spec fn reused_cells_ok(
    cells: Seq<ChunkView>,
    old: Seq<ChunkView>,
    x: int,
    z: int,
    old_lo: int,
    old_hi: int,
    new_lo: int,
    new_hi: int,
) -> bool {
    &&& cells.len() == new_hi - new_lo
    &&& forall|k: int|
        0 <= k < cells.len() ==> if max(old_lo, new_lo) <= new_lo + k < min(old_hi, new_hi) {
            #[trigger] cells[k] == old[new_lo + k - old_lo]
        } else {
            cells[k].wf() && cells[k].fresh((x, new_lo + k, z))
        }
}

/// Number of cells that reuse keeps.
pub open spec fn overlap_len(old_lo: int, old_hi: int, new_lo: int, new_hi: int) -> int {
    max(0, min(old_hi, new_hi) - max(old_lo, new_lo))
}

pub open spec fn range_ok(lo: int, hi: int) -> bool {
    -MAX_CELL <= lo <= hi <= MAX_CELL
}

/// A vertical stack of cells sharing one surface heightmap.
pub struct ChunkColumn {
    pub chunks: Vec<Chunk>,
    /// Shared, read-only, with every generation task of the column.
    pub height_map: Arc<Vec<i32>>,
}

/// Appends fresh cells for heights `[from, to)` of column `(x, z)`.
fn push_fresh(cells: &mut Vec<Chunk>, x: i32, z: i32, from: i32, to: i32)
    requires
        -MAX_CELL <= x <= MAX_CELL,
        -MAX_CELL <= z <= MAX_CELL,
        -MAX_CELL <= from <= to <= MAX_CELL,
    ensures
        chunk_views(final(cells)@).len() == old(cells)@.len() + (to - from),
        forall|k: int| 0 <= k < old(cells)@.len() ==> #[trigger] final(cells)@[k] == old(cells)@[k],
        forall|k: int|
            old(cells)@.len() <= k < final(cells)@.len() ==> (#[trigger] final(cells)@[k])@.wf()
                && final(cells)@[k]@.fresh((x as int, from + k - old(cells)@.len(), z as int)),
{
    let ghost start = cells@.len();
    let mut y: i32 = from;
    while y < to
        invariant
            from <= y <= to,
            -MAX_CELL <= x <= MAX_CELL,
            -MAX_CELL <= z <= MAX_CELL,
            -MAX_CELL <= from <= to <= MAX_CELL,
            start == old(cells)@.len(),
            cells@.len() == start + (y - from),
            forall|k: int| 0 <= k < start ==> #[trigger] cells@[k] == old(cells)@[k],
            forall|k: int|
                start <= k < cells@.len() ==> (#[trigger] cells@[k])@.wf() && cells@[k]@.fresh(
                    (x as int, from + k - start, z as int),
                ),
        decreases to - y,
    {
        proof {
            assert(cell_id_ok((x as int, y as int, z as int)));
        }
        cells.push(Chunk::new([x, y, z]));
        y = y + 1;
    }
}

impl ChunkColumn {
    /// A column with the given heightmap and fresh cells over `[lo, hi)`.
    pub fn new(column_pos: [i32; 2], height_map: Vec<i32>, lo: i32, hi: i32) -> (r: ChunkColumn)
        requires
            -MAX_CELL <= column_pos[0] <= MAX_CELL,
            -MAX_CELL <= column_pos[1] <= MAX_CELL,
            range_ok(lo as int, hi as int),
            height_map@.len() == HEIGHTMAP_SIZE,
        ensures
            *r.height_map == height_map,
            column_cells_ok(chunk_views(r.chunks@), column_pos[0] as int, column_pos[1] as int, lo as int, hi as int),
            forall|k: int| 0 <= k < r.chunks@.len() ==> (#[trigger] r.chunks@[k])@.fresh(
                (column_pos[0] as int, lo + k, column_pos[1] as int),
            ),
    {
        let mut chunks: Vec<Chunk> = Vec::new();
        push_fresh(&mut chunks, column_pos[0], column_pos[1], lo, hi);
        ChunkColumn { chunks, height_map: Arc::new(height_map) }
    }

    /// Moves the column's vertical range from `[old_lo, old_hi)` to
    /// `[new_lo, new_hi)`. Cells in the overlap are kept as they are; cells
    /// below and above it are created fresh; the old cells outside the new
    /// range are returned, in order, for the collector.
    pub fn reuse_column(
        &mut self,
        column_pos: [i32; 2],
        old_lo: i32,
        old_hi: i32,
        new_lo: i32,
        new_hi: i32,
    ) -> (evicted: Vec<Chunk>)
        requires
            -MAX_CELL <= column_pos[0] <= MAX_CELL,
            -MAX_CELL <= column_pos[1] <= MAX_CELL,
            range_ok(old_lo as int, old_hi as int),
            range_ok(new_lo as int, new_hi as int),
            column_cells_ok(chunk_views(old(self).chunks@), column_pos[0] as int, column_pos[1] as int, old_lo as int, old_hi as int),
        ensures
            final(self).height_map == old(self).height_map,
            reused_cells_ok(
                chunk_views(final(self).chunks@),
                chunk_views(old(self).chunks@),
                column_pos[0] as int,
                column_pos[1] as int,
                old_lo as int,
                old_hi as int,
                new_lo as int,
                new_hi as int,
            ),
            column_cells_ok(chunk_views(final(self).chunks@), column_pos[0] as int, column_pos[1] as int, new_lo as int, new_hi as int),
            chunk_views(evicted@) == evicted_cells(chunk_views(old(self).chunks@), old_lo as int, old_hi as int, new_lo as int, new_hi as int),
    {
        let x = column_pos[0];
        let z = column_pos[1];
        let ghost old_views = chunk_views(self.chunks@);
        let mut old_cells: Vec<Chunk> = Vec::new();
        std::mem::swap(&mut old_cells, &mut self.chunks);
        assert(chunk_views(old_cells@) == old_views);
        let ov_lo: i32 = if old_lo >= new_lo { old_lo } else { new_lo };
        let ov_hi: i32 = if old_hi <= new_hi { old_hi } else { new_hi };
        if ov_lo >= ov_hi {
            push_fresh(&mut self.chunks, x, z, new_lo, new_hi);
            assert(chunk_views(self.chunks@).len() == new_hi - new_lo);
            assert(chunk_views(old_cells@) =~= evicted_cells(old_views, old_lo as int, old_hi as int, new_lo as int, new_hi as int));
            return old_cells;
        }
        let mut upper = old_cells.split_off((ov_hi - old_lo) as usize);
        let mut kept = old_cells.split_off((ov_lo - old_lo) as usize);
        let ghost kept_seq = kept@;
        let ghost kept_views = chunk_views(kept@);
        assert(kept_views =~= old_views.subrange(ov_lo - old_lo, ov_hi - old_lo));
        let mut evicted = old_cells;
        evicted.append(&mut upper);
        assert(chunk_views(evicted@) =~= evicted_cells(old_views, old_lo as int, old_hi as int, new_lo as int, new_hi as int));
        push_fresh(&mut self.chunks, x, z, new_lo, ov_lo);
        let ghost below = self.chunks@;
        self.chunks.append(&mut kept);
        let ghost middle = self.chunks@;
        push_fresh(&mut self.chunks, x, z, ov_hi, new_hi);
        assert forall|k: int| 0 <= k < chunk_views(self.chunks@).len() implies if max(old_lo as int, new_lo as int)
            <= new_lo + k < min(old_hi as int, new_hi as int) {
            #[trigger] chunk_views(self.chunks@)[k] == old_views[new_lo + k - old_lo]
        } else {
            chunk_views(self.chunks@)[k].wf() && chunk_views(self.chunks@)[k].fresh((x as int, new_lo + k, z as int))
        } by {
            if k < ov_lo - new_lo {
                assert(self.chunks@[k] == below[k]);
            } else if k < ov_hi - new_lo {
                assert(self.chunks@[k] == middle[k]);
                assert(middle == below + kept_seq);
                assert(middle[k] == kept_seq[k - (ov_lo - new_lo)]);
                assert(kept_views[k - (ov_lo - new_lo)] == old_views[new_lo + k - old_lo]);
            }
        }
        evicted
    }
}

/// Reuse accounts for every cell once: the evicted and the kept cells make up
/// the old stack, the kept and the fresh cells make up the new one, and the
/// kept cells are the old cells of the overlap, in order.
pub proof fn lemma_reuse_accounting(
    cells: Seq<ChunkView>,
    old: Seq<ChunkView>,
    x: int,
    z: int,
    old_lo: int,
    old_hi: int,
    new_lo: int,
    new_hi: int,
)
    requires
        old_lo <= old_hi,
        new_lo <= new_hi,
        old.len() == old_hi - old_lo,
        reused_cells_ok(cells, old, x, z, old_lo, old_hi, new_lo, new_hi),
    ensures
        evicted_cells(old, old_lo, old_hi, new_lo, new_hi).len() + overlap_len(old_lo, old_hi, new_lo, new_hi)
            == old.len(),
        0 <= overlap_len(old_lo, old_hi, new_lo, new_hi) <= cells.len(),
        overlap_len(old_lo, old_hi, new_lo, new_hi) > 0 ==> cells.subrange(
            max(old_lo, new_lo) - new_lo,
            min(old_hi, new_hi) - new_lo,
        ) == old.subrange(max(old_lo, new_lo) - old_lo, min(old_hi, new_hi) - old_lo),
        forall|k: int|
            0 <= k < cells.len() && !(max(old_lo, new_lo) <= new_lo + k < min(old_hi, new_hi)) ==> (
            #[trigger] cells[k]).fresh((x, new_lo + k, z)),
{
    if overlap_len(old_lo, old_hi, new_lo, new_hi) > 0 {
        assert(cells.subrange(max(old_lo, new_lo) - new_lo, min(old_hi, new_hi) - new_lo) =~= old.subrange(
            max(old_lo, new_lo) - old_lo,
            min(old_hi, new_hi) - old_lo,
        ));
    }
}

/// The loaded box of cell coordinates, each axis half-open.
#[derive(Clone, Copy, PartialEq, Eq, Debug, Structural)]
pub struct ChunkBounds {
    pub x_lo: i32,
    pub x_hi: i32,
    pub y_lo: i32,
    pub y_hi: i32,
    pub z_lo: i32,
    pub z_hi: i32,
}

impl ChunkBounds {
    pub open spec fn z_len(self) -> int {
        self.z_hi - self.z_lo
    }

    pub open spec fn x_len(self) -> int {
        self.x_hi - self.x_lo
    }

    /// The box reaches `radius` cells below and `radius` cells (exclusive) above `c` on each axis.
    pub open spec fn around(self, c: (int, int, int), radius: int) -> bool {
        &&& self.x_lo == c.0 - radius && self.x_hi == c.0 + radius
        &&& self.y_lo == c.1 - radius && self.y_hi == c.1 + radius
        &&& self.z_lo == c.2 - radius && self.z_hi == c.2 + radius
    }

    pub open spec fn has_column(self, x: int, z: int) -> bool {
        self.x_lo <= x < self.x_hi && self.z_lo <= z < self.z_hi
    }

    pub open spec fn has_cell(self, c: (int, int, int)) -> bool {
        self.has_column(c.0, c.2) && self.y_lo <= c.1 < self.y_hi
    }

    /// Position of column `(x, z)` in the window's column sequence, sorted by `x`, then `z`.
    pub open spec fn col_index(self, x: int, z: int) -> int {
        (x - self.x_lo) * self.z_len() + (z - self.z_lo)
    }

    pub open spec fn key_x(self, k: int) -> int {
        self.x_lo + k / self.z_len()
    }

    pub open spec fn key_z(self, k: int) -> int {
        self.z_lo + k % self.z_len()
    }
}

/// The window stays where every loaded cell coordinate is in range.
pub open spec fn window_fits(c: (int, int, int), radius: int) -> bool {
    &&& -MAX_CELL <= c.0 - radius && c.0 + radius <= MAX_CELL
    &&& -MAX_CELL <= c.1 - radius && c.1 + radius <= MAX_CELL
    &&& -MAX_CELL <= c.2 - radius && c.2 + radius <= MAX_CELL
}

/// A column as values.
pub struct ColumnView {
    pub cells: Seq<ChunkView>,
    pub height_map: Vec<i32>,
}

pub open spec fn column_view(c: ChunkColumn) -> ColumnView {
    ColumnView { cells: chunk_views(c.chunks@), height_map: *c.height_map }
}

pub open spec fn column_views(s: Seq<ChunkColumn>) -> Seq<ColumnView> {
    Seq::new(s.len(), |k: int| column_view(s[k]))
}

/// Column `k` of the window with bounds `b` holds its heightmap and its stack.
pub open spec fn column_ok(c: ColumnView, b: ChunkBounds, k: int) -> bool {
    &&& c.height_map@.len() == HEIGHTMAP_SIZE
    &&& column_cells_ok(c.cells, b.key_x(k), b.key_z(k), b.y_lo as int, b.y_hi as int)
}

/// What the window holds, as values.
pub struct TerrainView {
    pub columns: Seq<ColumnView>,
    pub bounds: ChunkBounds,
    pub last: (int, int, int),
    pub radius: int,
}

impl TerrainView {
    pub open spec fn wf(self) -> bool {
        &&& 0 <= self.radius
        &&& window_fits(self.last, self.radius)
        &&& self.bounds.around(self.last, self.radius)
        &&& self.columns.len() == self.bounds.x_len() * self.bounds.z_len()
        &&& forall|k: int| 0 <= k < self.columns.len() ==> column_ok(#[trigger] self.columns[k], self.bounds, k)
    }

    /// The cell at coordinate `c`, if loaded.
    pub open spec fn cell_at(self, c: (int, int, int)) -> Option<ChunkView> {
        if self.bounds.has_cell(c) {
            Some(self.columns[self.bounds.col_index(c.0, c.2)].cells[c.1 - self.bounds.y_lo])
        } else {
            None
        }
    }
}

/// Cells that leave with old column `col` at `(x, z)`: all of them when the
/// new window drops the column, else those that vertical reuse drops.
pub open spec fn column_evicted(col: ColumnView, x: int, z: int, ob: ChunkBounds, nb: ChunkBounds) -> Seq<ChunkView> {
    if nb.has_column(x, z) {
        evicted_cells(col.cells, ob.y_lo as int, ob.y_hi as int, nb.y_lo as int, nb.y_hi as int)
    } else {
        col.cells
    }
}

/// Cells evicted with the first `j` old columns, in column order.
pub open spec fn evicted_upto(cols: Seq<ColumnView>, ob: ChunkBounds, nb: ChunkBounds, j: int) -> Seq<ChunkView>
    decreases j,
{
    if j <= 0 {
        seq![]
    } else {
        evicted_upto(cols, ob, nb, j - 1) + column_evicted(cols[j - 1], ob.key_x(j - 1), ob.key_z(j - 1), ob, nb)
    }
}

/// New column `c` at `(x, z)`: the old column reused where the old window
/// had it (same heightmap, overlap kept), else a fresh stack.
pub open spec fn slid_column_ok(c: ColumnView, old_cols: Seq<ColumnView>, ob: ChunkBounds, nb: ChunkBounds, x: int, z: int) -> bool {
    if ob.has_column(x, z) {
        &&& reused_cells_ok(
            c.cells,
            old_cols[ob.col_index(x, z)].cells,
            x,
            z,
            ob.y_lo as int,
            ob.y_hi as int,
            nb.y_lo as int,
            nb.y_hi as int,
        )
        &&& c.height_map == old_cols[ob.col_index(x, z)].height_map
    } else {
        &&& column_cells_ok(c.cells, x, z, nb.y_lo as int, nb.y_hi as int)
        &&& forall|k: int| 0 <= k < c.cells.len() ==> (#[trigger] c.cells[k]).fresh((x, nb.y_lo + k, z))
    }
}

/// As `slid_column_ok`, and a fresh column's heightmap is what `heightmap_of` gave.
pub open spec fn new_column_ok<F: Fn(i32, i32) -> Vec<i32>>(
    c: ColumnView,
    old_cols: Seq<ColumnView>,
    ob: ChunkBounds,
    nb: ChunkBounds,
    x: int,
    z: int,
    heightmap_of: F,
) -> bool {
    &&& slid_column_ok(c, old_cols, ob, nb, x, z)
    &&& !ob.has_column(x, z) ==> heightmap_of.ensures((x as i32, z as i32), c.height_map)
}

/// The window `new` is `old` slid to the viewpoint cell `c`: every new column
/// is the old one reused or a fresh one, and `evicted` is every cell that
/// left, old column by old column.
pub open spec fn slide_ok(old: TerrainView, new: TerrainView, evicted: Seq<ChunkView>, c: (int, int, int)) -> bool {
    &&& new.last == c
    &&& new.radius == old.radius
    &&& new.bounds.around(c, old.radius)
    &&& evicted == evicted_upto(old.columns, old.bounds, new.bounds, old.columns.len() as int)
    &&& forall|k: int|
        0 <= k < new.columns.len() ==> slid_column_ok(
            #[trigger] new.columns[k],
            old.columns,
            old.bounds,
            new.bounds,
            new.bounds.key_x(k),
            new.bounds.key_z(k),
        )
}

/// Lexicographic order on column keys.
pub open spec fn key_lt(a: (int, int), b: (int, int)) -> bool {
    a.0 < b.0 || (a.0 == b.0 && a.1 < b.1)
}

/// The key just before `(x, z)` in the enumeration of the columns of `b`.
pub open spec fn key_pred(b: ChunkBounds, x: int, z: int) -> (int, int) {
    if z > b.z_lo {
        (x, z - 1)
    } else {
        (x - 1, b.z_hi - 1)
    }
}

/// `(x, z)` is a column of `b`, or the position just past the last one.
pub open spec fn key_in_walk(b: ChunkBounds, x: int, z: int) -> bool {
    b.has_column(x, z) || (x == b.x_hi && z == b.z_lo)
}

/// No column of `b` lies strictly between two neighbours of its enumeration.
proof fn lemma_between(b: ChunkBounds, a: (int, int), o: (int, int))
    requires
        b.z_lo < b.z_hi,
        b.x_lo <= b.x_hi,
        key_in_walk(b, a.0, a.1),
        key_lt(o, a),
        a != (b.x_lo as int, b.z_lo as int) ==> key_lt(key_pred(b, a.0, a.1), o),
    ensures
        !b.has_column(o.0, o.1),
{
}

proof fn lemma_key_of_index(b: ChunkBounds, x: int, z: int)
    requires
        b.z_lo < b.z_hi,
        b.has_column(x, z),
    ensures
        b.key_x(b.col_index(x, z)) == x,
        b.key_z(b.col_index(x, z)) == z,
        0 <= b.col_index(x, z) < b.x_len() * b.z_len(),
{
    lemma_fundamental_div_mod_converse(b.col_index(x, z), b.z_len(), x - b.x_lo, z - b.z_lo);
    assert(0 <= b.col_index(x, z) < b.x_len() * b.z_len()) by (nonlinear_arith)
        requires
            b.x_lo <= x < b.x_hi,
            b.z_lo <= z < b.z_hi,
            b.col_index(x, z) == (x - b.x_lo) * (b.z_hi - b.z_lo) + (z - b.z_lo),
            b.x_len() == b.x_hi - b.x_lo,
            b.z_len() == b.z_hi - b.z_lo,
    ;
}

proof fn lemma_next_row(b: ChunkBounds, x: int)
    ensures
        b.col_index(x + 1, b.z_lo as int) == b.col_index(x, b.z_hi as int),
{
    lemma_mul_is_distributive_add_other_way(b.z_len(), x - b.x_lo, 1);
}

/// The bounds of a window that holds nothing.
pub open spec fn empty_bounds() -> ChunkBounds {
    ChunkBounds { x_lo: 0, x_hi: 0, y_lo: 0, y_hi: 0, z_lo: 0, z_hi: 0 }
}

/// The cell that holds voxel coordinate `p` (division rounding down).
pub open spec fn cell_of(p: int) -> int {
    p / 16
}

pub open spec fn cell_of_block(p: [i32; 3]) -> (int, int, int) {
    (cell_of(p[0] as int), cell_of(p[1] as int), cell_of(p[2] as int))
}

pub fn cell_of_position(p: i32) -> (r: i32)
    ensures
        r == cell_of(p as int),
        -0x800_0000 <= r < 0x800_0000,
{
    if p >= 0 {
        p / 16
    } else {
        let q: i32 = (-(p + 1)) / 16;
        assert(p as int / 16 == -q - 1) by {
            lemma_fundamental_div_mod_converse(p as int, 16, -q - 1, p + 16 * (q + 1));
        }
        -q - 1
    }
}

/// The loaded cells: columns around the viewpoint's cell, each stacked over
/// the same vertical range.
pub struct ChunkedTerrain {
    columns: Vec<ChunkColumn>,
    chunk_id_bounds: ChunkBounds,
    player_last_chunk_id: [i32; 3],
    render_distance: u32,
}

impl View for ChunkedTerrain {
    type V = TerrainView;

    closed spec fn view(&self) -> TerrainView {
        TerrainView {
            columns: column_views(self.columns@),
            bounds: self.chunk_id_bounds,
            last: (
                self.player_last_chunk_id[0] as int,
                self.player_last_chunk_id[1] as int,
                self.player_last_chunk_id[2] as int,
            ),
            radius: self.render_distance as int,
        }
    }
}

fn bounds_around(c: [i32; 3], r: u32) -> (b: ChunkBounds)
    requires
        window_fits((c[0] as int, c[1] as int, c[2] as int), r as int),
    ensures
        b.around((c[0] as int, c[1] as int, c[2] as int), r as int),
{
    let r = r as i32;
    ChunkBounds {
        x_lo: c[0] - r,
        x_hi: c[0] + r,
        y_lo: c[1] - r,
        y_hi: c[1] + r,
        z_lo: c[2] - r,
        z_hi: c[2] + r,
    }
}

impl ChunkedTerrain {
    /// A window of radius `render_distance` around the cell of `player_block`,
    /// every cell fresh, every column's heightmap given by `heightmap_of`.
    pub fn new<F: Fn(i32, i32) -> Vec<i32>>(player_block: [i32; 3], render_distance: u32, heightmap_of: &F) -> (r:
        ChunkedTerrain)
        requires
            window_fits(cell_of_block(player_block), render_distance as int),
            forall|x: i32, z: i32| heightmap_of.requires((x, z)),
            forall|x: i32, z: i32, h: Vec<i32>| heightmap_of.ensures((x, z), h) ==> h@.len() == HEIGHTMAP_SIZE,
        ensures
            r@.wf(),
            r@.last == cell_of_block(player_block),
            r@.radius == render_distance,
            forall|k: int|
                0 <= k < r@.columns.len() ==> new_column_ok(
                    #[trigger] r@.columns[k],
                    seq![],
                    empty_bounds(),
                    r@.bounds,
                    r@.bounds.key_x(k),
                    r@.bounds.key_z(k),
                    *heightmap_of,
                ),
    {
        let c: [i32; 3] = [
            cell_of_position(player_block[0]),
            cell_of_position(player_block[1]),
            cell_of_position(player_block[2]),
        ];
        let b = bounds_around(c, render_distance);
        let mut columns: Vec<ChunkColumn> = Vec::new();
        let mut x: i32 = b.x_lo;
        while x < b.x_hi
            invariant
                b.x_lo <= x <= b.x_hi,
                b.around((c[0] as int, c[1] as int, c[2] as int), render_distance as int),
                window_fits((c[0] as int, c[1] as int, c[2] as int), render_distance as int),
                forall|x: i32, z: i32| heightmap_of.requires((x, z)),
                forall|x: i32, z: i32, h: Vec<i32>| heightmap_of.ensures((x, z), h) ==> h@.len() == HEIGHTMAP_SIZE,
                columns@.len() == b.col_index(x as int, b.z_lo as int),
                forall|k: int|
                    0 <= k < columns@.len() ==> column_ok(#[trigger] column_views(columns@)[k], b, k)
                        && new_column_ok(column_views(columns@)[k], seq![], empty_bounds(), b, b.key_x(k), b.key_z(k), *heightmap_of),
            decreases b.x_hi - x,
        {
            let mut z: i32 = b.z_lo;
            while z < b.z_hi
                invariant
                    b.x_lo <= x < b.x_hi,
                    b.z_lo <= z <= b.z_hi,
                    b.around((c[0] as int, c[1] as int, c[2] as int), render_distance as int),
                    window_fits((c[0] as int, c[1] as int, c[2] as int), render_distance as int),
                    forall|x: i32, z: i32| heightmap_of.requires((x, z)),
                    forall|x: i32, z: i32, h: Vec<i32>| heightmap_of.ensures((x, z), h) ==> h@.len() == HEIGHTMAP_SIZE,
                    columns@.len() == b.col_index(x as int, z as int),
                    forall|k: int|
                        0 <= k < columns@.len() ==> column_ok(#[trigger] column_views(columns@)[k], b, k)
                            && new_column_ok(column_views(columns@)[k], seq![], empty_bounds(), b, b.key_x(k), b.key_z(k), *heightmap_of),
                decreases b.z_hi - z,
            {
                let height_map = heightmap_of(x, z);
                let column = ChunkColumn::new([x, z], height_map, b.y_lo, b.y_hi);
                proof {
                    lemma_key_of_index(b, x as int, z as int);
                }
                let ghost before = columns@;
                columns.push(column);
                proof {
                    assert forall|k: int| 0 <= k < columns@.len() implies column_ok(
                        #[trigger] column_views(columns@)[k],
                        b,
                        k,
                    ) && new_column_ok(column_views(columns@)[k], seq![], empty_bounds(), b, b.key_x(k), b.key_z(k), *heightmap_of) by {
                        if k < before.len() {
                            assert(column_views(columns@)[k] == column_views(before)[k]);
                        } else {
                            let cv = column_views(columns@)[k];
                            assert(cv.cells == chunk_views(column.chunks@));
                            assert(forall|i: int| 0 <= i < cv.cells.len() ==> cv.cells[i] == column.chunks@[i]@);
                        }
                    }
                }
                z = z + 1;
            }
            proof {
                lemma_next_row(b, x as int);
            }
            x = x + 1;
        }
        proof {
            assert(b.col_index(b.x_hi as int, b.z_lo as int) == b.x_len() * b.z_len());
        }
        ChunkedTerrain { columns, chunk_id_bounds: b, player_last_chunk_id: c, render_distance }
    }
}

/// What holds at each step of the merge walk of `update_player_position`,
/// with `(kx, kz)` the next new column key and `(ox, oz)` the next old one.
spec fn walk_ok<F: Fn(i32, i32) -> Vec<i32>>(
    old_cols: Seq<ColumnView>,
    ob: ChunkBounds,
    nb: ChunkBounds,
    kx: int,
    kz: int,
    new_cols: Seq<ColumnView>,
    j: int,
    ox: int,
    oz: int,
    rev: Seq<ChunkColumn>,
    old_exec: Seq<ChunkColumn>,
    evicted: Seq<ChunkView>,
    heightmap_of: F,
) -> bool {
    &&& old_cols == column_views(old_exec)
    &&& ob.z_lo < ob.z_hi && ob.x_lo < ob.x_hi && ob.y_lo <= ob.y_hi
    &&& nb.z_lo < nb.z_hi && nb.x_lo < nb.x_hi && nb.y_lo <= nb.y_hi
    &&& range_ok(ob.y_lo as int, ob.y_hi as int) && range_ok(nb.y_lo as int, nb.y_hi as int)
    &&& -MAX_CELL <= nb.x_lo && nb.x_hi <= MAX_CELL && -MAX_CELL <= nb.z_lo && nb.z_hi <= MAX_CELL
    &&& old_cols.len() == ob.x_len() * ob.z_len()
    &&& forall|k: int| 0 <= k < old_cols.len() ==> column_ok(#[trigger] old_cols[k], ob, k)
    &&& key_in_walk(nb, kx, kz)
    &&& key_in_walk(ob, ox, oz)
    &&& j == ob.col_index(ox, oz)
    &&& 0 <= j <= old_exec.len()
    &&& rev.len() == old_exec.len() - j
    &&& forall|i: int| 0 <= i < rev.len() ==> #[trigger] rev[i] == old_exec[old_exec.len() - 1 - i]
    &&& evicted == evicted_upto(old_cols, ob, nb, j)
    &&& new_cols.len() == nb.col_index(kx, kz)
    &&& forall|k: int|
        0 <= k < new_cols.len() ==> column_ok(#[trigger] new_cols[k], nb, k) && new_column_ok(
            new_cols[k],
            old_cols,
            ob,
            nb,
            nb.key_x(k),
            nb.key_z(k),
            heightmap_of,
        )
    &&& (j == 0) == (ox == ob.x_lo && oz == ob.z_lo)
    &&& (kx < nb.x_hi && j > 0) ==> key_lt(key_pred(ob, ox, oz), (kx, kz))
    &&& (j < old_exec.len() && (kx, kz) != (nb.x_lo as int, nb.z_lo as int)) ==> key_lt(key_pred(nb, kx, kz), (ox, oz))
}

impl ChunkedTerrain {
    /// Slides the window to the cell of `player_block`. Returns false, changing
    /// nothing, when that is the cell of the last update. Otherwise the window
    /// is recentred: columns it keeps are reused (their cells in the vertical
    /// overlap kept), columns it gains are created fresh over heightmaps from
    /// `heightmap_of`, and every cell that leaves is returned for the collector.
    pub fn update_player_position<F: Fn(i32, i32) -> Vec<i32>>(
        &mut self,
        player_block: [i32; 3],
        heightmap_of: &F,
    ) -> (r: (bool, Vec<Chunk>))
        requires
            old(self)@.wf(),
            window_fits(cell_of_block(player_block), old(self)@.radius),
            forall|x: i32, z: i32| heightmap_of.requires((x, z)),
            forall|x: i32, z: i32, h: Vec<i32>| heightmap_of.ensures((x, z), h) ==> h@.len() == HEIGHTMAP_SIZE,
        ensures
            final(self)@.wf(),
            r.0 == (cell_of_block(player_block) != old(self)@.last),
            !r.0 ==> final(self)@ == old(self)@ && r.1@.len() == 0,
            r.0 ==> slide_ok(old(self)@, final(self)@, chunk_views(r.1@), cell_of_block(player_block)),
            r.0 ==> forall|k: int|
                0 <= k < final(self)@.columns.len() ==> new_column_ok(
                    #[trigger] final(self)@.columns[k],
                    old(self)@.columns,
                    old(self)@.bounds,
                    final(self)@.bounds,
                    final(self)@.bounds.key_x(k),
                    final(self)@.bounds.key_z(k),
                    *heightmap_of,
                ),
    {
        let c: [i32; 3] = [
            cell_of_position(player_block[0]),
            cell_of_position(player_block[1]),
            cell_of_position(player_block[2]),
        ];
        if c[0] == self.player_last_chunk_id[0] && c[1] == self.player_last_chunk_id[1] && c[2]
            == self.player_last_chunk_id[2] {
            return (false, Vec::new());
        }
        let ob = self.chunk_id_bounds;
        let nb = bounds_around(c, self.render_distance);
        if self.render_distance == 0 {
            // An empty window stays empty: nothing to keep, create or evict.
            proof {
                assert(self@.columns.len() == 0) by (nonlinear_arith)
                    requires
                        self@.columns.len() == ob.x_len() * ob.z_len(),
                        ob.x_len() == 0,
                ;
            }
            self.chunk_id_bounds = nb;
            self.player_last_chunk_id = c;
            proof {
                assert(nb.x_len() * nb.z_len() == 0) by (nonlinear_arith)
                    requires
                        nb.x_len() == 0,
                ;
            }
            let none: Vec<Chunk> = Vec::new();
            assert(chunk_views(none@) =~= seq![]);
            return (true, none);
        }
        let ghost old_view = self@;
        let ghost old_cols = column_views(self.columns@);
        let mut old_columns: Vec<ChunkColumn> = Vec::new();
        std::mem::swap(&mut old_columns, &mut self.columns);
        let ghost old_exec = old_columns@;
        assert(old_cols == column_views(old_exec));
        let on: usize = old_columns.len();
        let mut rev: Vec<ChunkColumn> = Vec::new();
        while old_columns.len() > 0
            invariant
                old_columns@.len() + rev@.len() == old_exec.len(),
                forall|i: int| 0 <= i < old_columns@.len() ==> #[trigger] old_columns@[i] == old_exec[i],
                forall|i: int| 0 <= i < rev@.len() ==> #[trigger] rev@[i] == old_exec[old_exec.len() - 1 - i],
            decreases old_columns@.len(),
        {
            match old_columns.pop() {
                Some(col) => rev.push(col),
                None => {},
            }
        }
        let mut evicted: Vec<Chunk> = Vec::new();
        let mut new_columns: Vec<ChunkColumn> = Vec::new();
        proof {
            assert(chunk_views(evicted@) =~= seq![]);
            assert(column_views(new_columns@) =~= seq![]);
            assert(old_cols == old_view.columns);
            assert(rev@.len() == old_exec.len());
        }
        let mut j: usize = 0;
        let mut ox: i32 = ob.x_lo;
        let mut oz: i32 = ob.z_lo;
        let mut x: i32 = nb.x_lo;
        while x < nb.x_hi
            invariant
                on == old_exec.len(),
                nb.x_lo <= x <= nb.x_hi,
                walk_ok(old_cols, ob, nb, x as int, nb.z_lo as int, column_views(new_columns@), j as int, ox as int, oz as int, rev@, old_exec, chunk_views(evicted@), *heightmap_of),
                forall|x: i32, z: i32| heightmap_of.requires((x, z)),
                forall|x: i32, z: i32, h: Vec<i32>| heightmap_of.ensures((x, z), h) ==> h@.len() == HEIGHTMAP_SIZE,
            decreases nb.x_hi - x,
        {
            let mut z: i32 = nb.z_lo;
            while z < nb.z_hi
                invariant
                    on == old_exec.len(),
                    nb.x_lo <= x < nb.x_hi,
                    nb.z_lo <= z <= nb.z_hi,
                    z < nb.z_hi ==> walk_ok(old_cols, ob, nb, x as int, z as int, column_views(new_columns@), j as int, ox as int, oz as int, rev@, old_exec, chunk_views(evicted@), *heightmap_of),
                    z == nb.z_hi ==> walk_ok(old_cols, ob, nb, x + 1, nb.z_lo as int, column_views(new_columns@), j as int, ox as int, oz as int, rev@, old_exec, chunk_views(evicted@), *heightmap_of),
                    forall|x: i32, z: i32| heightmap_of.requires((x, z)),
                    forall|x: i32, z: i32, h: Vec<i32>| heightmap_of.ensures((x, z), h) ==> h@.len() == HEIGHTMAP_SIZE,
                decreases nb.z_hi - z,
            {
                // Old columns that sort before (x, z) have left the window.
                while j < on && (ox < x || (ox == x && oz < z))
                    invariant
                        on == old_exec.len(),
                        nb.x_lo <= x < nb.x_hi,
                        nb.z_lo <= z < nb.z_hi,
                        walk_ok(old_cols, ob, nb, x as int, z as int, column_views(new_columns@), j as int, ox as int, oz as int, rev@, old_exec, chunk_views(evicted@), *heightmap_of),
                    decreases on - j,
                {
                    let ghost ev0 = chunk_views(evicted@);
                    let ghost rev0 = rev@;
                    proof {
                        lemma_key_of_index(ob, ox as int, oz as int);
                        lemma_between(nb, (x as int, z as int), (ox as int, oz as int));
                        assert(rev0[rev0.len() - 1] == old_exec[j as int]);
                    }
                    let mut col = match rev.pop() {
                        Some(col) => col,
                        None => ChunkColumn { chunks: Vec::new(), height_map: Arc::new(Vec::new()) },
                    };
                    proof {
                        assert(col == old_exec[j as int]);
                        assert(column_view(col) == old_cols[j as int]);
                    }
                    evicted.append(&mut col.chunks);
                    proof {
                        assert(chunk_views(evicted@) =~= ev0 + old_cols[j as int].cells);
                        assert(evicted_upto(old_cols, ob, nb, j + 1) == ev0 + column_evicted(old_cols[j as int], ob.key_x(j as int), ob.key_z(j as int), ob, nb));
                    }
                    let ghost (pox, poz) = (ox as int, oz as int);
                    if oz + 1 < ob.z_hi {
                        oz = oz + 1;
                    } else {
                        proof {
                            lemma_next_row(ob, ox as int);
                        }
                        oz = ob.z_lo;
                        ox = ox + 1;
                    }
                    j = j + 1;
                    proof {
                        assert(key_pred(ob, ox as int, oz as int) == (pox, poz));
                        assert forall|i: int| 0 <= i < rev@.len() implies #[trigger] rev@[i] == old_exec[old_exec.len() - 1 - i] by {
                            assert(rev@[i] == rev0[i]);
                        }
                    }
                }
                if j < on && ox == x && oz == z {
                    // The column stays: reuse it.
                    let ghost rev0 = rev@;
                    let ghost nc0 = column_views(new_columns@);
                    let ghost ev0 = chunk_views(evicted@);
                    proof {
                        lemma_key_of_index(ob, ox as int, oz as int);
                        lemma_key_of_index(nb, x as int, z as int);
                        assert(rev0[rev0.len() - 1] == old_exec[j as int]);
                    }
                    let mut col = match rev.pop() {
                        Some(col) => col,
                        None => ChunkColumn { chunks: Vec::new(), height_map: Arc::new(Vec::new()) },
                    };
                    proof {
                        assert(col == old_exec[j as int]);
                        assert(column_view(col) == old_cols[j as int]);
                        assert(column_ok(old_cols[j as int], ob, j as int));
                    }
                    let mut gone = col.reuse_column([x, z], ob.y_lo, ob.y_hi, nb.y_lo, nb.y_hi);
                    evicted.append(&mut gone);
                    new_columns.push(col);
                    proof {
                        assert(chunk_views(evicted@) =~= ev0 + column_evicted(old_cols[j as int], ob.key_x(j as int), ob.key_z(j as int), ob, nb));
                        assert forall|k: int| 0 <= k < column_views(new_columns@).len() implies column_ok(#[trigger] column_views(new_columns@)[k], nb, k) && new_column_ok(
                            column_views(new_columns@)[k], old_cols, ob, nb, nb.key_x(k), nb.key_z(k), *heightmap_of) by {
                            if k < nc0.len() {
                                assert(column_views(new_columns@)[k] == nc0[k]);
                            }
                        }
                    }
                    if oz + 1 < ob.z_hi {
                        oz = oz + 1;
                    } else {
                        proof {
                            lemma_next_row(ob, ox as int);
                        }
                        oz = ob.z_lo;
                        ox = ox + 1;
                    }
                    j = j + 1;
                    proof {
                        assert(key_pred(ob, ox as int, oz as int) == (x as int, z as int));
                        assert forall|i: int| 0 <= i < rev@.len() implies #[trigger] rev@[i] == old_exec[old_exec.len() - 1 - i] by {
                            assert(rev@[i] == rev0[i]);
                        }
                    }
                } else {
                    // The column is new to the window.
                    let ghost nc0 = column_views(new_columns@);
                    proof {
                        lemma_key_of_index(nb, x as int, z as int);
                        if ob.has_column(ox as int, oz as int) {
                            lemma_key_of_index(ob, ox as int, oz as int);
                        }
                        if ob.has_column(x as int, z as int) {
                            lemma_between(ob, (ox as int, oz as int), (x as int, z as int));
                        }
                    }
                    let height_map = heightmap_of(x, z);
                    let col = ChunkColumn::new([x, z], height_map, nb.y_lo, nb.y_hi);
                    new_columns.push(col);
                    proof {
                        assert forall|k: int| 0 <= k < column_views(new_columns@).len() implies column_ok(#[trigger] column_views(new_columns@)[k], nb, k) && new_column_ok(
                            column_views(new_columns@)[k], old_cols, ob, nb, nb.key_x(k), nb.key_z(k), *heightmap_of) by {
                            if k < nc0.len() {
                                assert(column_views(new_columns@)[k] == nc0[k]);
                            } else {
                                let cv = column_views(new_columns@)[k];
                                assert(cv.cells == chunk_views(col.chunks@));
                                assert(forall|i: int| 0 <= i < cv.cells.len() ==> cv.cells[i] == col.chunks@[i]@);
                            }
                        }
                    }
                }
                z = z + 1;
                proof {
                    if z == nb.z_hi {
                        lemma_next_row(nb, x as int);
                    }
                }
            }
            x = x + 1;
        }
        // Old columns past the last new one have left the window too.
        while j < on
            invariant
                on == old_exec.len(),
                walk_ok(old_cols, ob, nb, nb.x_hi as int, nb.z_lo as int, column_views(new_columns@), j as int, ox as int, oz as int, rev@, old_exec, chunk_views(evicted@), *heightmap_of),
            decreases on - j,
        {
            let ghost ev0 = chunk_views(evicted@);
            let ghost rev0 = rev@;
            proof {
                lemma_key_of_index(ob, ox as int, oz as int);
                assert(rev0[rev0.len() - 1] == old_exec[j as int]);
            }
            let mut col = match rev.pop() {
                Some(col) => col,
                None => ChunkColumn { chunks: Vec::new(), height_map: Arc::new(Vec::new()) },
            };
            proof {
                assert(col == old_exec[j as int]);
                assert(column_view(col) == old_cols[j as int]);
            }
            evicted.append(&mut col.chunks);
            proof {
                assert(chunk_views(evicted@) =~= ev0 + old_cols[j as int].cells);
            }
            let ghost (pox, poz) = (ox as int, oz as int);
            if oz + 1 < ob.z_hi {
                oz = oz + 1;
            } else {
                proof {
                    lemma_next_row(ob, ox as int);
                }
                oz = ob.z_lo;
                ox = ox + 1;
            }
            j = j + 1;
            proof {
                assert(key_pred(ob, ox as int, oz as int) == (pox, poz));
                assert forall|i: int| 0 <= i < rev@.len() implies #[trigger] rev@[i] == old_exec[old_exec.len() - 1 - i] by {
                    assert(rev@[i] == rev0[i]);
                }
            }
        }
        self.columns = new_columns;
        self.chunk_id_bounds = nb;
        self.player_last_chunk_id = c;
        (true, evicted)
    }
}

proof fn lemma_index_key(b: ChunkBounds, k: int)
    requires
        b.z_lo < b.z_hi,
        b.x_lo < b.x_hi,
        0 <= k < b.x_len() * b.z_len(),
    ensures
        b.has_column(b.key_x(k), b.key_z(k)),
        b.col_index(b.key_x(k), b.key_z(k)) == k,
{
    lemma_fundamental_div_mod(k, b.z_len());
    let q = k / b.z_len();
    let r = k % b.z_len();
    assert(0 <= q < b.x_len()) by (nonlinear_arith)
        requires
            k == b.z_len() * q + r,
            0 <= r < b.z_len(),
            0 <= k < b.x_len() * b.z_len(),
            b.z_len() > 0,
    ;
    assert(b.col_index(b.key_x(k), b.key_z(k)) == q * b.z_len() + r);
    assert(q * b.z_len() == b.z_len() * q) by (nonlinear_arith);
}

/// Coordinate of the cell across face `side` of cell `id`.
pub open spec fn adjacent_id(id: (int, int, int), side: int) -> (int, int, int) {
    (id.0 + side_dx(side), id.1 + side_dy(side), id.2 + side_dz(side))
}

/// Work handed to the worker pool for one cell.
pub enum ChunkTaskType {
    /// Generate, over the column's shared heightmap.
    GenTerrain(Arc<Vec<i32>>),
    /// Compute visibility, against the adjacent cells' voxels as they were at dispatch.
    GenBlockVis(Vec<Option<Vec<Block>>>),
    /// Build the mesh.
    GenVertices,
}

pub struct ChunkTask {
    pub chunk_id: [i32; 3],
    pub typ: ChunkTaskType,
}

/// A task as values.
pub enum TaskPayload {
    Terrain(Seq<i32>),
    Visibility(Seq<Option<Seq<Block>>>),
    Mesh,
}

pub struct TaskView {
    pub id: (int, int, int),
    pub payload: TaskPayload,
}

pub open spec fn task_view(t: ChunkTask) -> TaskView {
    TaskView {
        id: id_of(t.chunk_id),
        payload: match t.typ {
            ChunkTaskType::GenTerrain(h) => TaskPayload::Terrain((*h)@),
            ChunkTaskType::GenBlockVis(n) => TaskPayload::Visibility(neighbors_view(n@)),
            ChunkTaskType::GenVertices => TaskPayload::Mesh,
        },
    }
}

pub open spec fn task_views(s: Seq<ChunkTask>) -> Seq<TaskView> {
    Seq::new(s.len(), |i: int| task_view(s[i]))
}

impl TerrainView {
    /// No loaded cell next to `id` is still waiting for generation.
    pub open spec fn neighbors_generated(self, id: (int, int, int)) -> bool {
        forall|side: int|
            0 <= side < 6 ==> match #[trigger] self.cell_at(adjacent_id(id, side)) {
                Some(n) => n.state.stage != ChunkStateStage::ChunkGen,
                None => true,
            }
    }

    /// The voxels of the six cells next to `id`, none where unloaded or not generated.
    pub open spec fn neighbor_blocks(self, id: (int, int, int)) -> Seq<Option<Seq<Block>>> {
        Seq::new(
            6,
            |side: int|
                match self.cell_at(adjacent_id(id, side)) {
                    Some(n) => n.blocks,
                    None => None,
                },
        )
    }

    /// Cell `c` is idle and its stage can be dispatched now.
    pub open spec fn eligible(self, c: ChunkView) -> bool {
        &&& c.state.progress is Waiting
        &&& match c.state.stage {
            ChunkStateStage::ChunkGen => true,
            ChunkStateStage::ChunkVisGen => self.neighbors_generated(c.id),
            ChunkStateStage::MeshGen => true,
            ChunkStateStage::Ready => false,
        }
    }

    /// The task dispatched for cell `yi` of column `k`.
    pub open spec fn task_for(self, k: int, yi: int) -> TaskView {
        let c = self.columns[k].cells[yi];
        TaskView {
            id: c.id,
            payload: match c.state.stage {
                ChunkStateStage::ChunkGen => TaskPayload::Terrain(self.columns[k].height_map@),
                ChunkStateStage::ChunkVisGen => TaskPayload::Visibility(self.neighbor_blocks(c.id)),
                _ => TaskPayload::Mesh,
            },
        }
    }

    /// Tasks for the first `n` cells of column `k`, in order.
    pub open spec fn column_tasks(self, k: int, n: int) -> Seq<TaskView>
        decreases n,
    {
        if n <= 0 {
            seq![]
        } else if self.eligible(self.columns[k].cells[n - 1]) {
            self.column_tasks(k, n - 1).push(self.task_for(k, n - 1))
        } else {
            self.column_tasks(k, n - 1)
        }
    }

    /// Tasks for the first `k` columns, in order.
    pub open spec fn dispatch_upto(self, k: int) -> Seq<TaskView>
        decreases k,
    {
        if k <= 0 {
            seq![]
        } else {
            self.dispatch_upto(k - 1) + self.column_tasks(k - 1, self.columns[k - 1].cells.len() as int)
        }
    }

    /// Every task of one tick, in scan order.
    pub open spec fn dispatch(self) -> Seq<TaskView> {
        self.dispatch_upto(self.columns.len() as int)
    }

    /// The window after the tick's reservations: the same, but every eligible
    /// cell is reserved.
    pub open spec fn reserved(self, new: TerrainView) -> bool {
        &&& new.bounds == self.bounds && new.last == self.last && new.radius == self.radius
        &&& new.columns.len() == self.columns.len()
        &&& forall|k: int|
            0 <= k < self.columns.len() ==> {
                &&& (#[trigger] new.columns[k]).height_map == self.columns[k].height_map
                &&& new.columns[k].cells.len() == self.columns[k].cells.len()
                &&& forall|yi: int|
                    0 <= yi < self.columns[k].cells.len() ==> #[trigger] new.columns[k].cells[yi] == (if self.eligible(
                        self.columns[k].cells[yi],
                    ) {
                        ChunkView {
                            state: crate::chunk::ChunkState {
                                stage: self.columns[k].cells[yi].state.stage,
                                progress: ChunkStateProgress::TaskAssigned,
                            },
                            ..self.columns[k].cells[yi]
                        }
                    } else {
                        self.columns[k].cells[yi]
                    })
            }
    }
}

impl ChunkedTerrain {
    /// The loaded cell at `chunk_id`, found by its offset in the window.
    pub fn get_chunk_at(&self, chunk_id: &[i32; 3]) -> (r: Option<&Chunk>)
        requires
            self@.wf(),
        ensures
            match r {
                Some(c) => self@.cell_at(id_of(*chunk_id)) == Some(c@),
                None => self@.cell_at(id_of(*chunk_id)) is None,
            },
    {
        let b = self.chunk_id_bounds;
        if b.x_lo <= chunk_id[0] && chunk_id[0] < b.x_hi && b.y_lo <= chunk_id[1] && chunk_id[1] < b.y_hi
            && b.z_lo <= chunk_id[2] && chunk_id[2] < b.z_hi {
            proof {
                lemma_key_of_index(b, chunk_id[0] as int, chunk_id[2] as int);
                assert(column_ok(self@.columns[b.col_index(chunk_id[0] as int, chunk_id[2] as int)], b, b.col_index(chunk_id[0] as int, chunk_id[2] as int)));
            }
            let rx: usize = (chunk_id[0] - b.x_lo) as usize;
            let rz: usize = (chunk_id[2] - b.z_lo) as usize;
            let nz: usize = (b.z_hi - b.z_lo) as usize;
            proof {
                assert((rx as int) * (nz as int) + (rz as int) == b.col_index(chunk_id[0] as int, chunk_id[2] as int));
            }
            let ncols: usize = self.columns.len();
            proof {
                assert(ncols == self@.columns.len());
                assert((rx as int) * (nz as int) + (rz as int) < ncols);
                assert((rx as int) * (nz as int) < ncols);
            }
            let ci: usize = rx * nz + rz;
            let yi: usize = (chunk_id[1] - b.y_lo) as usize;
            let col = &self.columns[ci];
            proof {
                assert(column_view(*col) == self@.columns[ci as int]);
                assert(col.chunks@[yi as int]@ == self@.columns[ci as int].cells[yi as int]);
            }
            Some(&col.chunks[yi])
        } else {
            None
        }
    }
}

/// `a` and `b` are the same cell apart from its progress.
pub open spec fn same_but_progress(a: ChunkView, b: ChunkView) -> bool {
    a.id == b.id && a.blocks == b.blocks && a.vis == b.vis && a.mesh == b.mesh && a.state.stage == b.state.stage
}

/// Cell `yi` of column `k` comes before the scan position `(ci, yi0)`.
spec fn scanned(k: int, yi: int, ci: int, yi0: int) -> bool {
    k < ci || (k == ci && yi < yi0)
}

/// The window mid-tick: `v0` with the cells before the scan position reserved
/// where eligible.
spec fn reserved_upto(v0: TerrainView, v: TerrainView, ci: int, yi0: int) -> bool {
    &&& v.bounds == v0.bounds && v.last == v0.last && v.radius == v0.radius
    &&& v.columns.len() == v0.columns.len()
    &&& forall|k: int|
        0 <= k < v0.columns.len() ==> {
            &&& (#[trigger] v.columns[k]).height_map == v0.columns[k].height_map
            &&& v.columns[k].cells.len() == v0.columns[k].cells.len()
            &&& forall|yi: int|
                0 <= yi < v0.columns[k].cells.len() ==> #[trigger] v.columns[k].cells[yi] == (if scanned(k, yi, ci, yi0)
                    && v0.eligible(v0.columns[k].cells[yi]) {
                    ChunkView {
                        state: crate::chunk::ChunkState {
                            stage: v0.columns[k].cells[yi].state.stage,
                            progress: ChunkStateProgress::TaskAssigned,
                        },
                        ..v0.columns[k].cells[yi]
                    }
                } else {
                    v0.columns[k].cells[yi]
                })
        }
}

impl ChunkedTerrain {
    /// The adjacent cells' voxels for a visibility task on cell `id`, and
    /// whether all of those cells have left the generation stage.
    fn gather_neighbors(&self, id: [i32; 3], Ghost(v0): Ghost<TerrainView>) -> (r: (bool, Vec<Option<Vec<Block>>>))
        requires
            self@.wf(),
            v0.bounds == self@.bounds,
            v0.columns.len() == self@.columns.len(),
            forall|k: int, yi: int|
                0 <= k < v0.columns.len() && 0 <= yi < v0.columns[k].cells.len() ==> same_but_progress(
                    #[trigger] self@.columns[k].cells[yi],
                    v0.columns[k].cells[yi],
                ),
            forall|k: int| 0 <= k < v0.columns.len() ==> (#[trigger] self@.columns[k]).cells.len() == v0.columns[k].cells.len(),
            self@.bounds.has_cell(id_of(id)),
        ensures
            r.0 == v0.neighbors_generated(id_of(id)),
            neighbors_view(r.1@) == v0.neighbor_blocks(id_of(id)),
            neighbors_ok(neighbors_view(r.1@)),
    {
        let mut nbs: Vec<Option<Vec<Block>>> = Vec::new();
        let mut settled = true;
        let mut side: usize = 0;
        while side < 6
            invariant
                side <= 6,
                self@.wf(),
                v0.bounds == self@.bounds,
                v0.columns.len() == self@.columns.len(),
                forall|k: int, yi: int|
                    0 <= k < v0.columns.len() && 0 <= yi < v0.columns[k].cells.len() ==> same_but_progress(
                        #[trigger] self@.columns[k].cells[yi],
                        v0.columns[k].cells[yi],
                    ),
                forall|k: int| 0 <= k < v0.columns.len() ==> (#[trigger] self@.columns[k]).cells.len() == v0.columns[k].cells.len(),
                self@.bounds.has_cell(id_of(id)),
                nbs@.len() == side,
                forall|s: int| 0 <= s < side ==> #[trigger] blocks_view(nbs@[s]) == v0.neighbor_blocks(id_of(id))[s],
                forall|s: int| 0 <= s < side ==> match #[trigger] blocks_view(nbs@[s]) {
                    Some(b) => b.len() == crate::block::CHUNK_LENGTH,
                    None => true,
                },
                settled == (forall|s: int|
                    0 <= s < side ==> match #[trigger] v0.cell_at(adjacent_id(id_of(id), s)) {
                        Some(n) => n.state.stage != ChunkStateStage::ChunkGen,
                        None => true,
                    }),
            decreases 6 - side,
        {
            let nid: [i32; 3] = [
                id[0] + if side == 0 { 1 } else if side == 1 { -1 } else { 0 },
                id[1] + if side == 2 { 1 } else if side == 3 { -1 } else { 0 },
                id[2] + if side == 4 { 1 } else if side == 5 { -1 } else { 0 },
            ];
            assert(id_of(nid) == adjacent_id(id_of(id), side as int));
            let ghost cur = self@.cell_at(id_of(nid));
            let ghost old_cell = v0.cell_at(id_of(nid));
            proof {
                let b = self@.bounds;
                if b.has_cell(id_of(nid)) {
                    lemma_key_of_index(b, nid[0] as int, nid[2] as int);
                    let k = b.col_index(nid[0] as int, nid[2] as int);
                    assert(column_ok(self@.columns[k], b, k));
                    assert(same_but_progress(self@.columns[k].cells[nid[1] - b.y_lo], v0.columns[k].cells[nid[1] - b.y_lo]));
                }
            }
            let ghost nbs0 = nbs@;
            let (snap, generating) = match self.get_chunk_at(&nid) {
                Some(n) => (n.blocks_snapshot(), n.get_stage() == ChunkStateStage::ChunkGen),
                None => (None, false),
            };
            nbs.push(snap);
            settled = settled && !generating;
            proof {
                assert forall|s: int| 0 <= s < side + 1 implies #[trigger] blocks_view(nbs@[s]) == v0.neighbor_blocks(id_of(id))[s] by {
                    if s < side {
                        assert(nbs@[s] == nbs0[s]);
                    }
                }
                assert forall|s: int| 0 <= s < side + 1 implies match #[trigger] blocks_view(nbs@[s]) {
                    Some(b) => b.len() == crate::block::CHUNK_LENGTH,
                    None => true,
                } by {
                    if s < side {
                        assert(nbs@[s] == nbs0[s]);
                    }
                }
            }
            side = side + 1;
        }
        assert(neighbors_view(nbs@) =~= v0.neighbor_blocks(id_of(id)));
        (settled, nbs)
    }

    /// One dispatch tick: every idle cell whose stage can run now is reserved
    /// and gets one task, in column order and bottom to top within a column.
    /// A visibility stage waits while an adjacent loaded cell is still to be
    /// generated; a ready cell needs nothing.
    pub fn tick_progress(&mut self) -> (tasks: Vec<ChunkTask>)
        requires
            old(self)@.wf(),
        ensures
            final(self)@.wf(),
            old(self)@.reserved(final(self)@),
            task_views(tasks@) == old(self)@.dispatch(),
    {
        let ghost v0 = self@;
        let mut tasks: Vec<ChunkTask> = Vec::new();
        let ncols: usize = self.columns.len();
        let mut ci: usize = 0;
        while ci < ncols
            invariant
                ncols == v0.columns.len(),
                v0.wf(),
                self@.wf(),
                ci <= ncols,
                reserved_upto(v0, self@, ci as int, 0),
                task_views(tasks@) == v0.dispatch_upto(ci as int),
            decreases ncols - ci,
        {
            proof {
                assert(column_view(self.columns@[ci as int]) == self@.columns[ci as int]);
            }
            let ny: usize = self.columns[ci].chunks.len();
            let mut yi: usize = 0;
            while yi < ny
                invariant
                    ncols == v0.columns.len(),
                    v0.wf(),
                    self@.wf(),
                    ci < ncols,
                    ny == v0.columns[ci as int].cells.len(),
                    yi <= ny,
                    reserved_upto(v0, self@, ci as int, yi as int),
                    task_views(tasks@) == v0.dispatch_upto(ci as int) + v0.column_tasks(ci as int, yi as int),
                decreases ny - yi,
            {
                let ghost cell0 = v0.columns[ci as int].cells[yi as int];
                let ghost s0 = self@;
                proof {
                    assert(column_ok(v0.columns[ci as int], v0.bounds, ci as int));
                    assert(s0.columns[ci as int].cells[yi as int] == cell0);
                    assert(column_view(self.columns@[ci as int]) == s0.columns[ci as int]);
                    assert(self.columns@[ci as int].chunks@[yi as int]@ == cell0);
                }
                let pending = self.columns[ci].chunks[yi].get_pending_stage();
                let id = self.columns[ci].chunks[yi].get_id();
                let typ: Option<ChunkTaskType> = match pending {
                    Some(ChunkStateStage::ChunkGen) => Some(
                        ChunkTaskType::GenTerrain(Arc::clone(&self.columns[ci].height_map)),
                    ),
                    Some(ChunkStateStage::ChunkVisGen) => {
                        proof {
                            lemma_index_key(v0.bounds, ci as int);
                            assert forall|k: int, y: int|
                                0 <= k < v0.columns.len() && 0 <= y < v0.columns[k].cells.len() implies same_but_progress(
                                #[trigger] self@.columns[k].cells[y],
                                v0.columns[k].cells[y],
                            ) by {
                                assert(self@.columns[k].cells.len() == v0.columns[k].cells.len());
                            }
                        }
                        let (settled, nbs) = self.gather_neighbors(id, Ghost(v0));
                        if settled {
                            Some(ChunkTaskType::GenBlockVis(nbs))
                        } else {
                            None
                        }
                    },
                    Some(ChunkStateStage::MeshGen) => Some(ChunkTaskType::GenVertices),
                    _ => None,
                };
                let ghost t0 = tasks@;
                let ghost cols0 = self.columns@;
                proof {
                    assert(typ is Some == v0.eligible(cell0));
                }
                match typ {
                    Some(typ) => {
                        self.columns[ci].chunks[yi].assign_if_waiting();
                        proof {
                            assert(task_view(ChunkTask { chunk_id: id, typ }) == v0.task_for(ci as int, yi as int));
                        }
                        tasks.push(ChunkTask { chunk_id: id, typ });
                        proof {
                            assert(task_views(tasks@) =~= task_views(t0).push(v0.task_for(ci as int, yi as int)));
                        }
                    },
                    None => {
                        proof {
                            assert(task_views(tasks@) =~= task_views(t0));
                        }
                    },
                }
                proof {
                    assert(self.columns@.len() == cols0.len());
                    assert forall|k: int| 0 <= k < cols0.len() && k != ci implies #[trigger] self.columns@[k] == cols0[k] by {}
                    let newc = self.columns@[ci as int];
                    assert(newc.height_map == cols0[ci as int].height_map);
                    assert(newc.chunks@.len() == cols0[ci as int].chunks@.len());
                    assert forall|y: int| 0 <= y < newc.chunks@.len() && y != yi implies #[trigger] newc.chunks@[y] == cols0[ci as int].chunks@[y] by {}
                    assert(v0.column_tasks(ci as int, yi + 1) == if v0.eligible(cell0) {
                        v0.column_tasks(ci as int, yi as int).push(v0.task_for(ci as int, yi as int))
                    } else {
                        v0.column_tasks(ci as int, yi as int)
                    });
                    assert(v0.dispatch_upto(ci as int) + v0.column_tasks(ci as int, yi + 1) =~= if v0.eligible(cell0) {
                        (v0.dispatch_upto(ci as int) + v0.column_tasks(ci as int, yi as int)).push(v0.task_for(ci as int, yi as int))
                    } else {
                        v0.dispatch_upto(ci as int) + v0.column_tasks(ci as int, yi as int)
                    });
                    let newcell = self@.columns[ci as int].cells[yi as int];
                    assert(newcell == newc.chunks@[yi as int]@);
                    assert(newcell == (if v0.eligible(cell0) {
                        ChunkView {
                            state: crate::chunk::ChunkState { stage: cell0.state.stage, progress: ChunkStateProgress::TaskAssigned },
                            ..cell0
                        }
                    } else {
                        cell0
                    }));
                    assert(newcell.wf());
                    assert forall|k: int| 0 <= k < v0.columns.len() implies {
                        &&& (#[trigger] self@.columns[k]).height_map == v0.columns[k].height_map
                        &&& self@.columns[k].cells.len() == v0.columns[k].cells.len()
                        &&& forall|y: int|
                            0 <= y < v0.columns[k].cells.len() ==> #[trigger] self@.columns[k].cells[y] == (if scanned(k, y, ci as int, yi + 1)
                                && v0.eligible(v0.columns[k].cells[y]) {
                                ChunkView {
                                    state: crate::chunk::ChunkState {
                                        stage: v0.columns[k].cells[y].state.stage,
                                        progress: ChunkStateProgress::TaskAssigned,
                                    },
                                    ..v0.columns[k].cells[y]
                                }
                            } else {
                                v0.columns[k].cells[y]
                            })
                        &&& column_ok(self@.columns[k], v0.bounds, k)
                    } by {
                        if k == ci {
                            assert forall|y: int| 0 <= y < v0.columns[k].cells.len() && y != yi implies #[trigger] self@.columns[k].cells[y] == s0.columns[k].cells[y] by {
                                assert(self@.columns[k].cells[y] == newc.chunks@[y]@);
                            }
                            assert(column_ok(s0.columns[k], v0.bounds, k));
                        } else {
                            assert(self@.columns[k] == s0.columns[k]);
                            assert(column_ok(s0.columns[k], v0.bounds, k));
                        }
                    }
                }
                yi = yi + 1;
            }
            ci = ci + 1;
        }
        tasks
    }
}

proof fn lemma_evicted_len(cols: Seq<ColumnView>, ob: ChunkBounds, nb: ChunkBounds, j: int)
    requires
        0 <= j <= cols.len(),
        forall|i: int| 0 <= i < j ==> (#[trigger] cols[i]).cells.len() == ob.y_hi - ob.y_lo,
        forall|i: int| 0 <= i < j ==> !nb.has_column(ob.key_x(i), ob.key_z(i)),
    ensures
        evicted_upto(cols, ob, nb, j).len() == j * (ob.y_hi - ob.y_lo),
    decreases j,
{
    if j > 0 {
        lemma_evicted_len(cols, ob, nb, j - 1);
        assert(!nb.has_column(ob.key_x(j - 1), ob.key_z(j - 1)));
        assert(cols[j - 1].cells.len() == ob.y_hi - ob.y_lo);
        lemma_mul_is_distributive_add_other_way(ob.y_hi - ob.y_lo, j - 1, 1);
        assert(evicted_upto(cols, ob, nb, j) == evicted_upto(cols, ob, nb, j - 1) + cols[j - 1].cells);
        assert(j * (ob.y_hi - ob.y_lo) == (j - 1) * (ob.y_hi - ob.y_lo) + (ob.y_hi - ob.y_lo)) by (nonlinear_arith);
    } else {
        assert(j * (ob.y_hi - ob.y_lo) == 0) by (nonlinear_arith)
            requires
                j == 0,
        ;
    }
}

proof fn lemma_evicted_tail(old: TerrainView, nb: ChunkBounds, j: int)
    requires
        old.wf(),
        nb.around((old.last.0 + 1, old.last.1, old.last.2), old.radius),
        old.bounds.z_len() <= j <= old.columns.len(),
    ensures
        evicted_upto(old.columns, old.bounds, nb, j) == evicted_upto(old.columns, old.bounds, nb, old.bounds.z_len()),
    decreases j,
{
    let ob = old.bounds;
    if old.radius == 0 {
        assert(old.columns.len() == 0) by (nonlinear_arith)
            requires
                old.columns.len() == ob.x_len() * ob.z_len(),
                ob.x_len() == 0,
        ;
    }
    if j > ob.z_len() {
        lemma_evicted_tail(old, nb, j - 1);
        lemma_index_key(ob, j - 1);
        let kx = ob.key_x(j - 1);
        let kz = ob.key_z(j - 1);
        if kx == ob.x_lo {
            assert((kx - ob.x_lo) * ob.z_len() == 0) by (nonlinear_arith)
                requires
                    kx == ob.x_lo,
            ;
        }
        assert(nb.has_column(kx, kz));
        assert(column_ok(old.columns[j - 1], ob, j - 1));
        let cells = old.columns[j - 1].cells;
        assert(evicted_cells(cells, ob.y_lo as int, ob.y_hi as int, nb.y_lo as int, nb.y_hi as int) =~= seq![]);
        assert(evicted_upto(old.columns, ob, nb, j) =~= evicted_upto(old.columns, ob, nb, j - 1));
    }
}

/// Moving the viewpoint one cell in +x evicts exactly the trailing row of
/// columns (the old columns at the lowest x, every cell of each, in order),
/// creates exactly the leading row (fresh columns at the new highest x), and
/// keeps every other column with the very same cells.
pub proof fn lemma_slide_one_x(old: TerrainView, new: TerrainView, evicted: Seq<ChunkView>)
    requires
        old.wf(),
        new.wf(),
        slide_ok(old, new, evicted, (old.last.0 + 1, old.last.1, old.last.2)),
    ensures
        evicted == evicted_upto(old.columns, old.bounds, new.bounds, old.bounds.z_len()),
        evicted.len() == old.bounds.z_len() * (old.bounds.y_hi - old.bounds.y_lo),
        forall|x: int, z: int|
            old.bounds.has_column(x, z) ==> (!new.bounds.has_column(x, z) <==> x == old.bounds.x_lo),
        forall|x: int, z: int|
            new.bounds.has_column(x, z) ==> (!old.bounds.has_column(x, z) <==> x == new.bounds.x_hi - 1),
        forall|x: int, z: int|
            #![trigger new.bounds.col_index(x, z)]
            new.bounds.has_column(x, z) && old.bounds.has_column(x, z) ==> new.columns[new.bounds.col_index(x, z)].cells
                == old.columns[old.bounds.col_index(x, z)].cells,
        forall|x: int, z: int, yi: int|
            #![trigger new.columns[new.bounds.col_index(x, z)].cells[yi]]
            new.bounds.has_column(x, z) && !old.bounds.has_column(x, z) && 0 <= yi < new.bounds.y_hi - new.bounds.y_lo
                ==> new.columns[new.bounds.col_index(x, z)].cells[yi].fresh((x, new.bounds.y_lo + yi, z)),
{
    let ob = old.bounds;
    let nb = new.bounds;
    if old.radius == 0 {
        assert(old.columns.len() == 0 && ob.z_len() * (ob.y_hi - ob.y_lo) == 0) by (nonlinear_arith)
            requires
                old.columns.len() == ob.x_len() * ob.z_len(),
                ob.x_len() == 0,
                ob.z_len() == 0,
        ;
        assert(evicted =~= seq![]);
    } else {
        assert(ob.z_len() <= ob.x_len() * ob.z_len()) by (nonlinear_arith)
            requires
                ob.x_len() >= 1,
                ob.z_len() >= 1,
        ;
        lemma_evicted_tail(old, nb, old.columns.len() as int);
        assert forall|i: int| 0 <= i < ob.z_len() implies !nb.has_column(ob.key_x(i), ob.key_z(i)) by {
            lemma_fundamental_div_mod_converse(i, ob.z_len(), 0, i);
        }
        assert forall|i: int| 0 <= i < ob.z_len() implies (#[trigger] old.columns[i]).cells.len() == ob.y_hi - ob.y_lo by {
            assert(column_ok(old.columns[i], ob, i));
        }
        lemma_evicted_len(old.columns, ob, nb, ob.z_len());
        assert(ob.z_len() * (ob.y_hi - ob.y_lo) == (ob.y_hi - ob.y_lo) * ob.z_len()) by (nonlinear_arith);
        assert forall|x: int, z: int|
            #![trigger new.bounds.col_index(x, z)]
            nb.has_column(x, z) && ob.has_column(x, z) implies new.columns[nb.col_index(x, z)].cells
                == old.columns[ob.col_index(x, z)].cells by {
            lemma_key_of_index(nb, x, z);
            lemma_key_of_index(ob, x, z);
            let k = nb.col_index(x, z);
            assert(slid_column_ok(new.columns[k], old.columns, ob, nb, x, z));
            assert(column_ok(old.columns[ob.col_index(x, z)], ob, ob.col_index(x, z)));
            assert(new.columns[k].cells =~= old.columns[ob.col_index(x, z)].cells);
        }
        assert forall|x: int, z: int, yi: int|
            #![trigger new.columns[new.bounds.col_index(x, z)].cells[yi]]
            nb.has_column(x, z) && !ob.has_column(x, z) && 0 <= yi < nb.y_hi - nb.y_lo implies new.columns[nb.col_index(
                x,
                z,
            )].cells[yi].fresh((x, nb.y_lo + yi, z)) by {
            lemma_key_of_index(nb, x, z);
            let k = nb.col_index(x, z);
            assert(slid_column_ok(new.columns[k], old.columns, ob, nb, x, z));
        }
    }
}

/// The stage that a task's payload is for.
pub open spec fn payload_stage(p: TaskPayload) -> ChunkStateStage {
    match p {
        TaskPayload::Terrain(_) => ChunkStateStage::ChunkGen,
        TaskPayload::Visibility(_) => ChunkStateStage::ChunkVisGen,
        TaskPayload::Mesh => ChunkStateStage::MeshGen,
    }
}

/// The task can run on cell `c`: its stage is the cell's, the cell is
/// reserved, and the payload (and the cave mask) has the sizes a cell needs.
pub open spec fn runnable(c: ChunkView, p: TaskPayload, cave: Seq<bool>) -> bool {
    &&& start_allowed(c.state, payload_stage(p))
    &&& match p {
        TaskPayload::Terrain(h) => h.len() == HEIGHTMAP_SIZE && cave.len() == CHUNK_LENGTH,
        TaskPayload::Visibility(n) => neighbors_ok(n),
        TaskPayload::Mesh => true,
    }
}

/// Cell `c2` is cell `c` after a task with payload `p` went through the start
/// guard, the stage body (when `ran`) and the end guard.
pub open spec fn after_task(c: ChunkView, p: TaskPayload, cave: Seq<bool>, c2: ChunkView, ran: bool) -> bool {
    &&& ran == start_spec(c.state).1
    &&& c2.state == (if ran {
        end_spec(start_spec(c.state).0).0
    } else {
        start_spec(c.state).0
    })
    &&& c2.id == c.id
    &&& c2.blocks == (match p {
        TaskPayload::Terrain(h) => if ran {
            Some(generated_blocks(c.id, h, cave))
        } else {
            c.blocks
        },
        _ => c.blocks,
    })
    &&& c2.vis == (match p {
        TaskPayload::Visibility(n) => if ran {
            Some(visibility_of(c.blocks->0, n))
        } else {
            c.vis
        },
        _ => c.vis,
    })
    &&& c2.mesh == (match p {
        TaskPayload::Mesh => if ran {
            Some(built_mesh(c.id, c.blocks->0, c.vis->0))
        } else {
            c.mesh
        },
        _ => c.mesh,
    })
}

impl ChunkedTerrain {
    /// Runs a dispatched task on its cell: the stage body runs behind the
    /// cell's start and end guards. A task whose cell has left the window, or
    /// whose stage or payload does not fit the cell, changes nothing.
    /// `cave` is the cave mask of the cell, used by generation.
    pub fn run_task(&mut self, task: &ChunkTask, cave: &Vec<bool>) -> (r: bool)
        requires
            old(self)@.wf(),
        ensures
            final(self)@.wf(),
            final(self)@.bounds == old(self)@.bounds,
            final(self)@.last == old(self)@.last,
            final(self)@.radius == old(self)@.radius,
            final(self)@.columns.len() == old(self)@.columns.len(),
            match old(self)@.cell_at(id_of(task.chunk_id)) {
                Some(c) => if runnable(c, task_view(*task).payload, cave@) {
                    after_task(c, task_view(*task).payload, cave@, final(self)@.cell_at(id_of(task.chunk_id))->0, r)
                } else {
                    !r && final(self)@ == old(self)@
                },
                None => !r && final(self)@ == old(self)@,
            },
            forall|k: int, y: int|
                0 <= k < old(self)@.columns.len() && !(k == old(self)@.bounds.col_index(task.chunk_id[0] as int, task.chunk_id[2] as int)
                    && y == task.chunk_id[1] - old(self)@.bounds.y_lo) && 0 <= y < old(self)@.columns[k].cells.len()
                    ==> #[trigger] final(self)@.columns[k].cells[y] == old(self)@.columns[k].cells[y],
            forall|k: int|
                0 <= k < old(self)@.columns.len() ==> (#[trigger] final(self)@.columns[k]).height_map == old(self)@.columns[k].height_map
                    && final(self)@.columns[k].cells.len() == old(self)@.columns[k].cells.len(),
    {
        let b = self.chunk_id_bounds;
        let id = task.chunk_id;
        if !(b.x_lo <= id[0] && id[0] < b.x_hi && b.y_lo <= id[1] && id[1] < b.y_hi && b.z_lo <= id[2] && id[2] < b.z_hi) {
            return false;
        }
        let ghost s0 = self@;
        let ghost k = b.col_index(id[0] as int, id[2] as int);
        proof {
            lemma_key_of_index(b, id[0] as int, id[2] as int);
            assert(column_ok(self@.columns[k], b, k));
        }
        let rx: usize = (id[0] - b.x_lo) as usize;
        let rz: usize = (id[2] - b.z_lo) as usize;
        let nz: usize = (b.z_hi - b.z_lo) as usize;
        let ncols: usize = self.columns.len();
        proof {
            assert((rx as int) * (nz as int) + (rz as int) == k);
            assert(ncols == self@.columns.len());
            assert((rx as int) * (nz as int) < ncols);
        }
        let ci: usize = rx * nz + rz;
        let yi: usize = (id[1] - b.y_lo) as usize;
        proof {
            assert(column_view(self.columns@[ci as int]) == self@.columns[ci as int]);
            assert(self.columns@[ci as int].chunks@[yi as int]@ == s0.cell_at(id_of(id))->0);
        }
        let state = self.columns[ci].chunks[yi].get_state();
        let ghost cols0 = self.columns@;
        let ran = match &task.typ {
            ChunkTaskType::GenTerrain(h) => {
                if state.stage == ChunkStateStage::ChunkGen && !matches!(state.progress, ChunkStateProgress::Waiting)
                    && h.len() == HEIGHTMAP_SIZE && cave.len() == CHUNK_LENGTH {
                    let heights: &Vec<i32> = &**h;
                    self.columns[ci].chunks[yi].gen(heights, cave)
                } else {
                    return false;
                }
            },
            ChunkTaskType::GenBlockVis(n) => {
                if state.stage == ChunkStateStage::ChunkVisGen && !matches!(state.progress, ChunkStateProgress::Waiting)
                    && n.len() == 6 && neighbors_fit(n) {
                    self.columns[ci].chunks[yi].gen_block_vis(n)
                } else {
                    return false;
                }
            },
            ChunkTaskType::GenVertices => {
                if state.stage == ChunkStateStage::MeshGen && !matches!(state.progress, ChunkStateProgress::Waiting) {
                    self.columns[ci].chunks[yi].update_vertices()
                } else {
                    return false;
                }
            },
        };
        proof {
            assert(self.columns@.len() == cols0.len());
            assert forall|kk: int| 0 <= kk < cols0.len() && kk != ci implies #[trigger] self.columns@[kk] == cols0[kk] by {}
            let newc = self.columns@[ci as int];
            assert(newc.height_map == cols0[ci as int].height_map);
            assert(newc.chunks@.len() == cols0[ci as int].chunks@.len());
            assert forall|y: int| 0 <= y < newc.chunks@.len() && y != yi implies #[trigger] newc.chunks@[y] == cols0[ci as int].chunks@[y] by {}
            assert forall|kk: int| 0 <= kk < s0.columns.len() implies {
                &&& (#[trigger] self@.columns[kk]).height_map == s0.columns[kk].height_map
                &&& self@.columns[kk].cells.len() == s0.columns[kk].cells.len()
                &&& column_ok(self@.columns[kk], b, kk)
                &&& forall|y: int| 0 <= y < s0.columns[kk].cells.len() && !(kk == ci && y == yi) ==> #[trigger] self@.columns[kk].cells[y] == s0.columns[kk].cells[y]
            } by {
                assert(column_ok(s0.columns[kk], b, kk));
                if kk == ci {
                    assert forall|y: int| 0 <= y < s0.columns[kk].cells.len() && y != yi implies #[trigger] self@.columns[kk].cells[y] == s0.columns[kk].cells[y] by {
                        assert(self@.columns[kk].cells[y] == newc.chunks@[y]@);
                    }
                    assert(self@.columns[kk].cells[yi as int] == newc.chunks@[yi as int]@);
                } else {
                    assert(self@.columns[kk] == s0.columns[kk]);
                }
            }
            assert(self@.cell_at(id_of(id)) == Some(self@.columns[ci as int].cells[yi as int]));
        }
        ran
    }

    /// The coordinates of the cells that have a mesh, in window order, for
    /// the renderer to fetch with `get_chunk_at`.
    pub fn get_meshes(&self) -> (r: Vec<[i32; 3]>)
        requires
            self@.wf(),
        ensures
            Seq::new(r@.len(), |i: int| id_of(r@[i])) == self@.meshed_upto(self@.columns.len() as int),
    {
        let mut ids: Vec<[i32; 3]> = Vec::new();
        let ncols: usize = self.columns.len();
        let mut ci: usize = 0;
        while ci < ncols
            invariant
                self@.wf(),
                ncols == self@.columns.len(),
                ci <= ncols,
                Seq::new(ids@.len(), |i: int| id_of(ids@[i])) == self@.meshed_upto(ci as int),
            decreases ncols - ci,
        {
            proof {
                assert(column_view(self.columns@[ci as int]) == self@.columns[ci as int]);
            }
            let ny: usize = self.columns[ci].chunks.len();
            let mut yi: usize = 0;
            while yi < ny
                invariant
                    self@.wf(),
                    ncols == self@.columns.len(),
                    ci < ncols,
                    ny == self@.columns[ci as int].cells.len(),
                    column_view(self.columns@[ci as int]) == self@.columns[ci as int],
                    yi <= ny,
                    Seq::new(ids@.len(), |i: int| id_of(ids@[i])) == self@.meshed_upto(ci as int) + self@.column_meshed(
                        ci as int,
                        yi as int,
                    ),
                decreases ny - yi,
            {
                let chunk = &self.columns[ci].chunks[yi];
                proof {
                    assert(chunk@ == self@.columns[ci as int].cells[yi as int]);
                }
                let ghost ids0 = ids@;
                let ghost prev = Seq::new(ids0.len(), |i: int| id_of(ids0[i]));
                if chunk.get_mesh_fast().is_some() {
                    let id = chunk.get_id();
                    ids.push(id);
                    proof {
                        assert(Seq::new(ids@.len(), |i: int| id_of(ids@[i])) =~= prev.push(chunk@.id));
                    }
                } else {
                    proof {
                        assert(Seq::new(ids@.len(), |i: int| id_of(ids@[i])) =~= prev);
                    }
                }
                proof {
                    assert(Seq::new(ids@.len(), |i: int| id_of(ids@[i])) =~= self@.meshed_upto(ci as int)
                        + self@.column_meshed(ci as int, yi + 1));
                }
                yi = yi + 1;
            }
            proof {
                assert(self@.meshed_upto(ci + 1) == self@.meshed_upto(ci as int) + self@.column_meshed(ci as int, ny as int));
            }
            ci = ci + 1;
        }
        ids
    }
}

impl TerrainView {
    /// Coordinates of the cells with a mesh among the first `n` of column `k`.
    pub open spec fn column_meshed(self, k: int, n: int) -> Seq<(int, int, int)>
        decreases n,
    {
        if n <= 0 {
            seq![]
        } else if self.columns[k].cells[n - 1].mesh is Some {
            self.column_meshed(k, n - 1).push(self.columns[k].cells[n - 1].id)
        } else {
            self.column_meshed(k, n - 1)
        }
    }

    /// Coordinates of the cells with a mesh in the first `k` columns, in order.
    pub open spec fn meshed_upto(self, k: int) -> Seq<(int, int, int)>
        decreases k,
    {
        if k <= 0 {
            seq![]
        } else {
            self.meshed_upto(k - 1) + self.column_meshed(k - 1, self.columns[k - 1].cells.len() as int)
        }
    }
}

/// Checks that every present neighbor holds a full cell of voxels.
fn neighbors_fit(n: &Vec<Option<Vec<Block>>>) -> (r: bool)
    requires
        n@.len() == 6,
    ensures
        r == neighbors_ok(neighbors_view(n@)),
{
    let mut i: usize = 0;
    while i < 6
        invariant
            i <= 6,
            n@.len() == 6,
            forall|k: int| 0 <= k < i ==> match #[trigger] neighbors_view(n@)[k] {
                Some(b) => b.len() == CHUNK_LENGTH,
                None => true,
            },
        decreases 6 - i,
    {
        match &n[i] {
            Some(b) => {
                if b.len() != CHUNK_LENGTH {
                    assert(!match neighbors_view(n@)[i as int] {
                        Some(b) => b.len() == CHUNK_LENGTH,
                        None => true,
                    });
                    return false;
                }
            },
            None => {},
        }
        i = i + 1;
    }
    true
}

} // verus!

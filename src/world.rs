use vstd::prelude::*;
use crate::fixed::{Vec2, SCALE};
use crate::body::RigidBody;
use crate::sim::{BodyArena, BodyHandle, without, shared};

verus! {

/// Cells along each side of a chunk.
pub const CHUNK_SIZE: isize = 16;

/// Cells in a chunk.
pub const CELLS_PER_CHUNK: usize = 256;

/// How far a tile's body reaches past its cell on the top and left, in ticks.
pub const TILE_INSET: i64 = 50;

/// The side of a tile's body, in ticks: a little over one cell, so that
/// neighbouring tiles leave no seam.
pub const TILE_SIZE: i64 = 1100;

/// Cell coordinates lie in `[-CELL_LIMIT, CELL_LIMIT)`: whole chunks (it is a
/// multiple of 16) whose tiles stay within the world's limits.
pub const CELL_LIMIT: isize = 999_999_984;

#[derive(Clone, Copy, Debug, PartialEq, Eq, Structural)]
pub enum CellType {
    Empty,
    Stone,
}

/// One grid cell: its type and, when it is not empty, the static body it owns.
#[derive(Clone, Copy, Debug, PartialEq, Eq, Structural)]
pub struct Cell {
    pub cell_type: CellType,
    pub rb: Option<BodyHandle>,
}

/// A 16×16 block of cells, addressed `y * 16 + x` by local coordinates.
pub struct Chunk {
    cells: Vec<Cell>,
    mesh_needs_update: bool,
    x: isize,
    y: isize,
}

/// What a chunk holds: its cells, whether its visuals are stale, and its
/// chunk coordinates.
pub struct ChunkView {
    pub cells: Seq<Cell>,
    pub mesh_dirty: bool,
    pub x: int,
    pub y: int,
}

/// The sparse store of chunks, in the order they were created. It is a vector
/// searched by coordinates, with unique coordinates as its invariant: vstd
/// specifies hash maps only for keys with a proven hash model, which a pair of
/// coordinates lacks.
pub struct Tilemap {
    chunks: Vec<Chunk>,
}

impl Cell {
    pub open spec fn wf(self) -> bool {
        self.rb.is_some() == (self.cell_type != CellType::Empty)
    }

    pub fn empty() -> (r: Cell)
        ensures
            r == (Cell { cell_type: CellType::Empty, rb: None }),
    {
        Cell { cell_type: CellType::Empty, rb: None }
    }

    pub fn is_empty(&self) -> (r: bool)
        ensures
            r == (self.cell_type == CellType::Empty),
    {
        match self.cell_type {
            CellType::Empty => true,
            _ => false,
        }
    }
}

/// The chunk coordinate of a cell coordinate: floor division by 16.
pub open spec fn chunk_coord(v: int) -> int {
    v / (CHUNK_SIZE as int)
}

pub open spec fn cell_index(lx: int, ly: int) -> int {
    ly * CHUNK_SIZE + lx
}

pub open spec fn cell_in_limits(v: int) -> bool {
    -CELL_LIMIT <= v < CELL_LIMIT
}

/// All cells of chunk coordinate `c` are within the limits.
pub open spec fn chunk_in_limits(c: int) -> bool {
    -CELL_LIMIT <= c * CHUNK_SIZE && c * CHUNK_SIZE + CHUNK_SIZE <= CELL_LIMIT
}

/// The static body of a tile at cell `(x, y)`.
pub open spec fn tile_body(x: int, y: int) -> RigidBody {
    RigidBody {
        top_left: Vec2 { x: (x * SCALE - TILE_INSET) as i64, y: (y * SCALE - TILE_INSET) as i64 },
        dimensions: Vec2 { x: TILE_SIZE, y: TILE_SIZE },
        velocity: Vec2 { x: 0, y: 0 },
        weight: None,
        elasticity: SCALE,
    }
}

pub open spec fn empty_chunk(cx: int, cy: int) -> ChunkView {
    ChunkView {
        cells: Seq::new(CELLS_PER_CHUNK as nat, |i: int| Cell { cell_type: CellType::Empty, rb: None }),
        mesh_dirty: true,
        x: cx,
        y: cy,
    }
}

/// Setting cell `(x, y)` of chunk `c` to `ty`, with the bodies in `slots`:
/// the new chunk, the new slots, and the handle of a body that was created.
/// A cell that already has the type is left alone. Otherwise the body it owned
/// is destroyed, a non-empty type gets a fresh static body, and the chunk is
/// marked dirty.
pub open spec fn set_cell_model(c: ChunkView, slots: Seq<Option<RigidBody>>, x: int, y: int, ty: CellType) -> (
    ChunkView,
    Seq<Option<RigidBody>>,
    Option<BodyHandle>,
) {
    let idx = cell_index(x - c.x * CHUNK_SIZE, y - c.y * CHUNK_SIZE);
    let old_cell = c.cells[idx];
    if old_cell.cell_type == ty {
        (c, slots, None)
    } else {
        let s1 = match old_cell.rb {
            Some(h) => without(slots, h),
            None => slots,
        };
        if ty == CellType::Empty {
            (
                ChunkView { cells: c.cells.update(idx, Cell { cell_type: ty, rb: None }), mesh_dirty: true, ..c },
                s1,
                None,
            )
        } else {
            let h = BodyHandle { index: s1.len() as usize };
            (
                ChunkView { cells: c.cells.update(idx, Cell { cell_type: ty, rb: Some(h) }), mesh_dirty: true, ..c },
                s1.push(Some(tile_body(x, y))),
                Some(h),
            )
        }
    }
}


/// The local coordinates `(x, y)` of the non-empty cells, in index order.
pub open spec fn occupied(cells: Seq<Cell>) -> Seq<(int, int)>
    decreases cells.len(),
{
    if cells.len() == 0 {
        Seq::empty()
    } else {
        let rest = occupied(cells.drop_last());
        let i = cells.len() - 1;
        if cells.last().cell_type != CellType::Empty {
            rest.push((i % CHUNK_SIZE as int, i / CHUNK_SIZE as int))
        } else {
            rest
        }
    }
}

/// The vertex index at place `m` of a quad's six: triangles `0 1 2` and `0 2 3`.
pub open spec fn quad_corner(m: int) -> int {
    if m == 0 || m == 3 {
        0
    } else if m == 1 {
        1
    } else if m == 2 || m == 4 {
        2
    } else {
        3
    }
}

/// The index buffer of `quads` quads of four vertices each.
pub open spec fn quad_indices_spec(quads: int) -> Seq<int> {
    Seq::new((6 * quads) as nat, |k: int| 4 * (k / 6) + quad_corner(k % 6))
}

proof fn lemma_place_in_quad(q: int, j: int)
    requires
        0 <= q,
        0 <= j < 6,
    ensures
        (6 * q + j) / 6 == q,
        (6 * q + j) % 6 == j,
{
    assert((6 * q + j) / 6 == q && (6 * q + j) % 6 == j) by (nonlinear_arith)
        requires
            0 <= q,
            0 <= j < 6,
    ;
}

/// The index buffer that draws `quads` quads, each made of the four vertices
/// that follow the previous quad's, as two triangles.
pub fn mesh_indices(quads: usize) -> (r: Vec<u32>)
    requires
        quads <= CELLS_PER_CHUNK,
    ensures
        r@.len() == 6 * quads,
        forall|k: int| 0 <= k < r@.len() ==> r@[k] as int == #[trigger] quad_indices_spec(quads as int)[k],
{
    let mut r: Vec<u32> = Vec::new();
    let mut q: usize = 0;
    while q < quads
        invariant
            q <= quads <= CELLS_PER_CHUNK,
            r@.len() == 6 * q,
            forall|k: int| 0 <= k < r@.len() ==> r@[k] as int == 4 * (k / 6) + quad_corner(k % 6),
        decreases quads - q,
    {
        let b = 4 * q as u32;
        let ghost n = 6 * q as int;
        r.push(b);
        r.push(b + 1);
        r.push(b + 2);
        r.push(b);
        r.push(b + 2);
        r.push(b + 3);
        proof {
            lemma_place_in_quad(q as int, 0);
            lemma_place_in_quad(q as int, 1);
            lemma_place_in_quad(q as int, 2);
            lemma_place_in_quad(q as int, 3);
            lemma_place_in_quad(q as int, 4);
            lemma_place_in_quad(q as int, 5);
        }
        assert(r@[n] as int == 4 * ((n + 0) / 6) + quad_corner((n + 0) % 6));
        assert(r@[n + 1] as int == 4 * ((n + 1) / 6) + quad_corner((n + 1) % 6));
        assert(r@[n + 2] as int == 4 * ((n + 2) / 6) + quad_corner((n + 2) % 6));
        assert(r@[n + 3] as int == 4 * ((n + 3) / 6) + quad_corner((n + 3) % 6));
        assert(r@[n + 4] as int == 4 * ((n + 4) / 6) + quad_corner((n + 4) % 6));
        assert(r@[n + 5] as int == 4 * ((n + 5) / 6) + quad_corner((n + 5) % 6));
        q = q + 1;
    }
    r
}

/// Maps cell coordinates to chunk coordinates, flooring toward negative
/// infinity: `-1` lies in chunk `-1`, `16` in chunk `1`.
pub fn to_chunk_coords(x: isize, y: isize) -> (r: (isize, isize))
    ensures
        r.0 == chunk_coord(x as int),
        r.1 == chunk_coord(y as int),
{
    let cx = match x.checked_div_euclid(CHUNK_SIZE) {
        Some(v) => v,
        None => 0,
    };
    let cy = match y.checked_div_euclid(CHUNK_SIZE) {
        Some(v) => v,
        None => 0,
    };
    (cx, cy)
}

impl Chunk {
    pub closed spec fn view(&self) -> ChunkView {
        ChunkView { cells: self.cells@, mesh_dirty: self.mesh_needs_update, x: self.x as int, y: self.y as int }
    }

    pub open spec fn wf(&self) -> bool {
        &&& self.view().cells.len() == CELLS_PER_CHUNK
        &&& forall|i: int| 0 <= i < CELLS_PER_CHUNK ==> (#[trigger] self.view().cells[i]).wf()
        &&& chunk_in_limits(self.view().x)
        &&& chunk_in_limits(self.view().y)
    }

    /// An all-empty chunk at chunk coordinates `(x, y)`, its visuals stale.
    pub fn new(x: isize, y: isize) -> (r: Chunk)
        requires
            chunk_in_limits(x as int),
            chunk_in_limits(y as int),
        ensures
            r.view() == empty_chunk(x as int, y as int),
            r.wf(),
    {
        let mut cells: Vec<Cell> = Vec::new();
        let mut i: usize = 0;
        while i < CELLS_PER_CHUNK
            invariant
                i <= CELLS_PER_CHUNK,
                cells@ == Seq::new(i as nat, |k: int| Cell { cell_type: CellType::Empty, rb: None }),
            decreases CELLS_PER_CHUNK - i,
        {
            cells.push(Cell::empty());
            i = i + 1;
        }
        let r = Chunk { cells, mesh_needs_update: true, x, y };
        assert(r.view().cells == empty_chunk(x as int, y as int).cells);
        r
    }

    pub fn chunk_x(&self) -> (r: isize)
        ensures
            r == self.view().x,
    {
        self.x
    }

    pub fn chunk_y(&self) -> (r: isize)
        ensures
            r == self.view().y,
    {
        self.y
    }


    /// The local coordinates of the non-empty cells, in index order: what the
    /// visuals of the chunk are built from.
    pub fn occupied_cells(&self) -> (r: Vec<(usize, usize)>)
        requires
            self.wf(),
        ensures
            r@.len() == occupied(self.view().cells).len(),
            forall|k: int| 0 <= k < r@.len() ==> (r@[k].0 as int, r@[k].1 as int) == #[trigger] occupied(self.view().cells)[k],
    {
        let mut r: Vec<(usize, usize)> = Vec::new();
        let mut i: usize = 0;
        while i < CELLS_PER_CHUNK
            invariant
                i <= CELLS_PER_CHUNK,
                self.cells@.len() == CELLS_PER_CHUNK,
                r@.len() == occupied(self.cells@.subrange(0, i as int)).len(),
                forall|k: int| 0 <= k < r@.len() ==> (r@[k].0 as int, r@[k].1 as int) == #[trigger] occupied(self.cells@.subrange(0, i as int))[k],
            decreases CELLS_PER_CHUNK - i,
        {
            assert(self.cells@.subrange(0, i as int + 1).drop_last() == self.cells@.subrange(0, i as int));
            if !self.cells[i].is_empty() {
                r.push((i % 16, i / 16));
            }
            i = i + 1;
        }
        assert(self.cells@.subrange(0, CELLS_PER_CHUNK as int) == self.cells@);
        r
    }

    /// Whether a cell's type changed since the visuals were last rebuilt.
    pub fn needs_mesh_update(&self) -> (r: bool)
        ensures
            r == self.view().mesh_dirty,
    {
        self.mesh_needs_update
    }

    /// Records that the visuals were rebuilt.
    pub fn mark_mesh_updated(&mut self)
        requires
            old(self).wf(),
        ensures
            final(self).wf(),
            final(self).view() == (ChunkView { mesh_dirty: false, ..old(self).view() }),
    {
        self.mesh_needs_update = false;
    }

    /// The world position of the chunk's top-left corner, in ticks.
    pub fn base_world_point(&self) -> (r: Vec2)
        requires
            self.wf(),
        ensures
            r.x == self.view().x * CHUNK_SIZE * SCALE,
            r.y == self.view().y * CHUNK_SIZE * SCALE,
    {
        Vec2 { x: self.x as i64 * 16 * SCALE, y: self.y as i64 * 16 * SCALE }
    }

    /// Sets cell `(x, y)`, given in world cell coordinates inside this chunk,
    /// to `cell_type` (see `set_cell_model`). Returns the handle of the static
    /// body it created, for the caller to register with the simulation.
    pub fn set_cell(&mut self, bodies: &mut BodyArena, x: isize, y: isize, cell_type: CellType) -> (r: Option<BodyHandle>)
        requires
            old(self).wf(),
            old(bodies).wf(),
            cell_in_limits(x as int),
            cell_in_limits(y as int),
            chunk_coord(x as int) == old(self).view().x,
            chunk_coord(y as int) == old(self).view().y,
        ensures
            final(self).wf(),
            final(bodies).wf(),
            (final(self).view(), final(bodies).slots@, r) == set_cell_model(
                old(self).view(),
                old(bodies).slots@,
                x as int,
                y as int,
                cell_type,
            ),
    {
        let loc_x = x - self.x * CHUNK_SIZE;
        let loc_y = y - self.y * CHUNK_SIZE;
        let idx = (loc_y * CHUNK_SIZE + loc_x) as usize;
        let old_cell = self.cells[idx];
        if old_cell.cell_type == cell_type {
            return None;
        }
        if let Some(h) = old_cell.rb {
            bodies.remove(h);
        }
        self.mesh_needs_update = true;
        match cell_type {
            CellType::Empty => {
                self.cells.set(idx, Cell { cell_type, rb: None });
                None
            },
            _ => {
                let tl = Vec2 {
                    x: x as i64 * SCALE - TILE_INSET,
                    y: y as i64 * SCALE - TILE_INSET,
                };
                let rb = RigidBody::new(tl, Vec2 { x: TILE_SIZE, y: TILE_SIZE }, None);
                let h = shared(bodies, rb);
                self.cells.set(idx, Cell { cell_type, rb: Some(h) });
                Some(h)
            },
        }
    }
}

/// The place of the chunk at `(cx, cy)` in `cs`, if there is one.
pub open spec fn find_chunk(cs: Seq<ChunkView>, cx: int, cy: int) -> Option<int>
    decreases cs.len(),
{
    if cs.len() == 0 {
        None
    } else if cs.last().x == cx && cs.last().y == cy {
        Some(cs.len() - 1)
    } else {
        find_chunk(cs.drop_last(), cx, cy)
    }
}

proof fn lemma_find_chunk(cs: Seq<ChunkView>, cx: int, cy: int)
    ensures
        match find_chunk(cs, cx, cy) {
            Some(p) => 0 <= p < cs.len() && cs[p].x == cx && cs[p].y == cy,
            None => forall|i: int| 0 <= i < cs.len() ==> !(#[trigger] cs[i].x == cx && cs[i].y == cy),
        },
    decreases cs.len(),
{
    if cs.len() > 0 {
        lemma_find_chunk(cs.drop_last(), cx, cy);
        assert forall|i: int| 0 <= i < cs.len() - 1 implies cs.drop_last()[i] == cs[i] by {}
    }
}

/// A cell's type in a map of chunks; a cell of a chunk never created is empty.
pub open spec fn cell_type_in(cs: Seq<ChunkView>, x: int, y: int) -> CellType {
    match find_chunk(cs, chunk_coord(x), chunk_coord(y)) {
        Some(p) => cs[p].cells[cell_index(x - cs[p].x * CHUNK_SIZE, y - cs[p].y * CHUNK_SIZE)].cell_type,
        None => CellType::Empty,
    }
}

/// Setting cell `(x, y)` in a map of chunks: the chunk that holds it, created
/// empty at the end if it is missing, is set as `set_cell_model` says.
pub open spec fn tilemap_set_model(cs: Seq<ChunkView>, slots: Seq<Option<RigidBody>>, x: int, y: int, ty: CellType) -> (
    Seq<ChunkView>,
    Seq<Option<RigidBody>>,
    Option<BodyHandle>,
) {
    let cx = chunk_coord(x);
    let cy = chunk_coord(y);
    match find_chunk(cs, cx, cy) {
        Some(p) => {
            let (c2, s2, r) = set_cell_model(cs[p], slots, x, y, ty);
            (cs.update(p, c2), s2, r)
        },
        None => {
            let (c2, s2, r) = set_cell_model(empty_chunk(cx, cy), slots, x, y, ty);
            (cs.push(c2), s2, r)
        },
    }
}

impl Tilemap {
    pub closed spec fn view(&self) -> Seq<ChunkView> {
        self.chunks@.map_values(|c: Chunk| c.view())
    }

    /// Every chunk is well formed (and so holds 256 cells), and no two share
    /// coordinates.
    pub open spec fn wf(&self) -> bool {
        &&& self.chunks_wf()
        &&& forall|i: int| 0 <= i < self.view().len() ==> (#[trigger] self.view()[i]).cells.len() == CELLS_PER_CHUNK
        &&& forall|i: int, j: int|
            0 <= i < j < self.view().len() ==> !(#[trigger] self.view()[i].x == #[trigger] self.view()[j].x
                && self.view()[i].y == self.view()[j].y)
    }

    pub closed spec fn chunks_wf(&self) -> bool {
        forall|i: int| 0 <= i < self.chunks@.len() ==> (#[trigger] self.chunks@[i]).wf()
    }

    pub fn new() -> (r: Tilemap)
        ensures
            r.view() == Seq::<ChunkView>::empty(),
            r.wf(),
    {
        let r = Tilemap { chunks: Vec::new() };
        assert(r.view() =~= Seq::<ChunkView>::empty());
        r
    }

    /// How many chunks have been created.
    pub fn chunks_stored(&self) -> (r: usize)
        ensures
            r == self.view().len(),
    {
        self.chunks.len()
    }

    /// The chunk at place `i`, in order of creation.
    pub fn chunk(&self, i: usize) -> (r: &Chunk)
        requires
            i < self.view().len(),
        ensures
            r.view() == self.view()[i as int],
    {
        &self.chunks[i]
    }

    /// Records that the visuals of the chunk at place `i` were rebuilt.
    pub fn mark_chunk_mesh_updated(&mut self, i: usize)
        requires
            old(self).wf(),
            i < old(self).view().len(),
        ensures
            final(self).wf(),
            final(self).view() == old(self).view().update(i as int, ChunkView { mesh_dirty: false, ..old(self).view()[i as int] }),
    {
        let ghost before = self.view();
        self.chunks[i].mark_mesh_updated();
        proof {
            assert(self.view() =~= before.update(i as int, self.chunks@[i as int].view()));
        }
    }

    /// The place of the chunk at `(cx, cy)`, searched from the newest.
    fn find(&self, cx: isize, cy: isize) -> (r: Option<usize>)
        ensures
            r matches Some(p) ==> find_chunk(self.view(), cx as int, cy as int) == Some(p as int),
            r is None ==> find_chunk(self.view(), cx as int, cy as int) is None,
    {
        let mut i: usize = self.chunks.len();
        assert(self.view().subrange(0, i as int) =~= self.view());
        while i > 0
            invariant
                i <= self.chunks@.len(),
                find_chunk(self.view(), cx as int, cy as int) == find_chunk(self.view().subrange(0, i as int), cx as int, cy as int),
            decreases i,
        {
            let c = &self.chunks[i - 1];
            assert(self.view().subrange(0, i as int).last() == c.view());
            assert(self.view().subrange(0, i as int).drop_last() == self.view().subrange(0, i as int - 1));
            if c.x == cx && c.y == cy {
                return Some(i - 1);
            }
            i = i - 1;
        }
        None
    }

    /// The type of cell `(x, y)`; cells of chunks never created are empty.
    pub fn cell_type_at(&self, x: isize, y: isize) -> (r: CellType)
        requires
            self.wf(),
        ensures
            r == cell_type_in(self.view(), x as int, y as int),
    {
        let (cx, cy) = to_chunk_coords(x, y);
        match self.find(cx, cy) {
            Some(p) => {
                proof {
                    lemma_find_chunk(self.view(), cx as int, cy as int);
                    assert(self.chunks@[p as int].wf());
                }
                let c = &self.chunks[p];
                let idx = ((y - c.y * CHUNK_SIZE) * CHUNK_SIZE + (x - c.x * CHUNK_SIZE)) as usize;
                c.cells[idx].cell_type
            },
            None => CellType::Empty,
        }
    }

    /// Sets cell `(x, y)` to `cell_type`, creating its chunk if needed, and
    /// returns the handle of the static body it created, if any.
    pub fn set_cell(&mut self, bodies: &mut BodyArena, x: isize, y: isize, cell: CellType) -> (r: Option<BodyHandle>)
        requires
            old(self).wf(),
            old(bodies).wf(),
            cell_in_limits(x as int),
            cell_in_limits(y as int),
        ensures
            final(self).wf(),
            final(bodies).wf(),
            (final(self).view(), final(bodies).slots@, r) == tilemap_set_model(
                old(self).view(),
                old(bodies).slots@,
                x as int,
                y as int,
                cell,
            ),
    {
        let (cx, cy) = to_chunk_coords(x, y);
        proof {
            lemma_find_chunk(self.view(), cx as int, cy as int);
        }
        let p = match self.find(cx, cy) {
            Some(p) => p,
            None => {
                let c = Chunk::new(cx, cy);
                self.chunks.push(c);
                proof {
                    assert(self.view() =~= old(self).view().push(c.view()));
                }
                self.chunks.len() - 1
            },
        };
        let ghost before = self.view();
        let r = self.chunks[p].set_cell(bodies, x, y, cell);
        proof {
            assert(self.view() =~= before.update(p as int, self.chunks@[p as int].view()));
        }
        r
    }
}

proof fn lemma_find_after_update(cs: Seq<ChunkView>, p: int, c: ChunkView)
    requires
        find_chunk(cs, c.x, c.y) == Some(p),
    ensures
        find_chunk(cs.update(p, c), c.x, c.y) == Some(p),
    decreases cs.len(),
{
    lemma_find_chunk(cs, c.x, c.y);
    let u = cs.update(p, c);
    if p != cs.len() - 1 {
        assert(u.drop_last() =~= cs.drop_last().update(p, c));
        lemma_find_after_update(cs.drop_last(), p, c);
    }
}

/// Setting a cell twice to the same type is the same as setting it once: the
/// second call changes no chunk and no body, and creates none.
pub proof fn lemma_set_cell_idempotent(cs: Seq<ChunkView>, slots: Seq<Option<RigidBody>>, x: int, y: int, ty: CellType)
    requires
        forall|i: int| 0 <= i < cs.len() ==> (#[trigger] cs[i]).cells.len() == CELLS_PER_CHUNK,
    ensures
        ({
            let (cs1, s1, r1) = tilemap_set_model(cs, slots, x, y, ty);
            let (cs2, s2, r2) = tilemap_set_model(cs1, s1, x, y, ty);
            &&& cs2 == cs1
            &&& s2 == s1
            &&& r2 is None
        }),
{
    let cx = chunk_coord(x);
    let cy = chunk_coord(y);
    lemma_find_chunk(cs, cx, cy);
    let (cs1, s1, r1) = tilemap_set_model(cs, slots, x, y, ty);
    match find_chunk(cs, cx, cy) {
        Some(p) => {
            let (c2, _, _) = set_cell_model(cs[p], slots, x, y, ty);
            lemma_find_after_update(cs, p, c2);
            assert(cs1.update(p, c2) =~= cs1);
        },
        None => {
            let (c2, _, _) = set_cell_model(empty_chunk(cx, cy), slots, x, y, ty);
            assert(cs1.last() == c2);
            assert(cs1.update(cs1.len() - 1, c2) =~= cs1);
        },
    }
}

} // verus!

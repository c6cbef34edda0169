//! Chunks of block instances, their cached meshes, and the manager that keeps
//! the meshes in step with edits.
use vstd::prelude::*;
use ndarray::Array3;
use crate::wctx::block::{
    cell_mesh, seals, shape_rotation, Block, BlockDrawContext, BlockRegistry,
    BlockShape, BlockShapeRegistry, MeshVertex, COORD_BOUND, HALF_EXTENT,
};
use crate::wctx::rotation_group::{bounded_by, comp, num_to_rf, reverse_rf, rf_at, rf_reverse, RotFace};

verus! {

/// The runtime state of one cell: its block type (0 for air), orientation
/// byte and light.
#[derive(Clone, Copy, Debug, PartialEq, Eq, Structural)]
pub struct BlockInstance {
    pub blockdef: u16,
    pub exparam: u8,
    pub light: u8,
}

pub open spec fn air_instance() -> BlockInstance {
    BlockInstance { blockdef: 0, exparam: 0, light: 0 }
}

/// The cells of a chunk, held in an ndarray `Array3`.
#[verifier::external_body]
pub struct CellGrid {
    cells: Array3<BlockInstance>,
}

/// The elements of a three-dimensional array in row-major order: element
/// `(x, y, z)` of an array of shape `(a, b, c)` is at `(x * b + y) * c + z`.
pub uninterp spec fn grid_cells(a: CellGrid) -> Seq<BlockInstance>;

/// The shape of a three-dimensional array.
pub uninterp spec fn grid_shape(a: CellGrid) -> (nat, nat, nat);

pub open spec fn cell_index(s: int, x: int, y: int, z: int) -> int {
    (x * s + y) * s + z
}

/// Largest side of a chunk.
pub const MAX_CHUNK_SIZE: usize = 256;

/// Relies on ndarray's `Array3::from_elem`: an array of the given shape with
/// every element equal to `elem`.
#[verifier::external_body]
fn grid_filled(size: usize, elem: BlockInstance) -> (r: CellGrid)
    requires
        size <= MAX_CHUNK_SIZE,
    ensures
        grid_shape(r) == (size as nat, size as nat, size as nat),
        grid_cells(r) == Seq::new((size * size * size) as nat, |i: int| elem),
{
    CellGrid { cells: Array3::from_elem((size, size, size), elem) }
}

/// Relies on ndarray's indexing of `Array3` by `(x, y, z)`.
#[verifier::external_body]
fn grid_ref(a: &CellGrid, x: usize, y: usize, z: usize) -> (r: &BlockInstance)
    requires
        x < grid_shape(*a).0,
        y < grid_shape(*a).1,
        z < grid_shape(*a).2,
    ensures
        *r == grid_cells(*a)[(x * grid_shape(*a).1 + y) * grid_shape(*a).2 + z],
{
    &a.cells[(x, y, z)]
}

/// Relies on ndarray's mutable indexing of `Array3` by `(x, y, z)`.
#[verifier::external_body]
fn grid_mut(a: &mut CellGrid, x: usize, y: usize, z: usize) -> (r: &mut BlockInstance)
    requires
        x < grid_shape(*old(a)).0,
        y < grid_shape(*old(a)).1,
        z < grid_shape(*old(a)).2,
    ensures
        *r == grid_cells(*old(a))[(x * grid_shape(*old(a)).1 + y) * grid_shape(*old(a)).2 + z],
        grid_shape(*final(a)) == grid_shape(*old(a)),
        grid_cells(*final(a)) == grid_cells(*old(a)).update(
            (x * grid_shape(*old(a)).1 + y) * grid_shape(*old(a)).2 + z,
            *final(r),
        ),
{
    &mut a.cells[(x, y, z)]
}

/// The mesh of a chunk, ready to draw.
pub struct ChunkDrawCache {
    pub vertices: Vec<MeshVertex>,
    pub indices: Vec<u16>,
}

impl Default for ChunkDrawCache {
    fn default() -> (r: ChunkDrawCache)
        ensures
            r.vertices@.len() == 0,
            r.indices@.len() == 0,
    {
        ChunkDrawCache { vertices: Vec::new(), indices: Vec::new() }
    }
}

impl ChunkDrawCache {
    pub fn is_empty(&self) -> (r: bool)
        ensures
            r == (self.vertices@.len() == 0),
    {
        self.vertices.len() == 0
    }

    /// A copy of this mesh.
    pub fn duplicate(&self) -> (r: ChunkDrawCache)
        ensures
            r.vertices@ == self.vertices@,
            r.indices@ == self.indices@,
    {
        let mut vertices = Vec::new();
        let mut i: usize = 0;
        while i < self.vertices.len()
            invariant
                0 <= i <= self.vertices@.len(),
                vertices@ == self.vertices@.take(i as int),
            decreases self.vertices@.len() - i,
        {
            vertices.push(self.vertices[i]);
            assert(self.vertices@.take(i as int + 1) =~= self.vertices@.take(i as int).push(self.vertices@[i as int]));
            i = i + 1;
        }
        let mut indices = Vec::new();
        let mut j: usize = 0;
        while j < self.indices.len()
            invariant
                0 <= j <= self.indices@.len(),
                indices@ == self.indices@.take(j as int),
            decreases self.indices@.len() - j,
        {
            indices.push(self.indices[j]);
            assert(self.indices@.take(j as int + 1) =~= self.indices@.take(j as int).push(self.indices@[j as int]));
            j = j + 1;
        }
        assert(vertices@ =~= self.vertices@);
        assert(indices@ =~= self.indices@);
        ChunkDrawCache { vertices, indices }
    }
}

/// The boundary layers of the up to six neighbouring chunks, each `size * size`
/// instances: for a neighbour across z at `[x * size + y]`, across y at
/// `[x * size + z]`, across x at `[y * size + z]`. `None` where there is no
/// neighbour; such a side is open.
pub struct ChunkDrawContext {
    pub minus_z: Option<Vec<BlockInstance>>,
    pub plus_z: Option<Vec<BlockInstance>>,
    pub minus_y: Option<Vec<BlockInstance>>,
    pub plus_y: Option<Vec<BlockInstance>>,
    pub minus_x: Option<Vec<BlockInstance>>,
    pub plus_x: Option<Vec<BlockInstance>>,
}

pub open spec fn slice_view(s: Option<Vec<BlockInstance>>) -> Option<Seq<BlockInstance>> {
    match s {
        Some(v) => Some(v@),
        None => None,
    }
}

impl View for ChunkDrawContext {
    /// The six layers, indexed by face direction index.
    type V = Seq<Option<Seq<BlockInstance>>>;

    open spec fn view(&self) -> Seq<Option<Seq<BlockInstance>>> {
        seq![
            slice_view(self.plus_z),
            slice_view(self.minus_z),
            slice_view(self.plus_y),
            slice_view(self.minus_y),
            slice_view(self.plus_x),
            slice_view(self.minus_x),
        ]
    }
}

impl ChunkDrawContext {
    /// A context with every side open.
    pub fn new() -> (r: ChunkDrawContext)
        ensures
            r@ == seq![
                None::<Seq<BlockInstance>>,
                None::<Seq<BlockInstance>>,
                None::<Seq<BlockInstance>>,
                None::<Seq<BlockInstance>>,
                None::<Seq<BlockInstance>>,
                None::<Seq<BlockInstance>>,
            ],
    {
        ChunkDrawContext {
            minus_z: None,
            plus_z: None,
            minus_y: None,
            plus_y: None,
            minus_x: None,
            plus_x: None,
        }
    }
}

/// A cubic chunk of `size`³ cells, its mesh and whether the mesh is stale.
pub struct Chunk {
    pub data: CellGrid,
    pub size: usize,
    pub dirty: bool,
    pub draw_cache: ChunkDrawCache,
}

/// The side of a chunk made by `Chunk::new`.
pub const CHUNK_SIZE: usize = 16;

/// The coordinates of the `n`-th cell of a chunk in row-major order.
pub open spec fn decode(s: int, n: int) -> (int, int, int) {
    (n / (s * s), (n / s) % s, n % s)
}

pub open spec fn cell(c: Chunk, x: int, y: int, z: int) -> BlockInstance {
    grid_cells(c.data)[cell_index(c.size as int, x, y, z)]
}

pub open spec fn slice_at(s: Option<Seq<BlockInstance>>, i: int) -> BlockInstance {
    match s {
        Some(v) => v[i],
        None => air_instance(),
    }
}

/// The instance next to cell `(x, y, z)` in face direction `d`: inside the
/// chunk, or in the neighbouring layer of `ctx`, or air where that side is open.
pub open spec fn neighbor(c: Chunk, ctx: Seq<Option<Seq<BlockInstance>>>, x: int, y: int, z: int, d: int) -> BlockInstance {
    let s = c.size as int;
    if d == 0 {
        if z + 1 == s { slice_at(ctx[0], x * s + y) } else { cell(c, x, y, z + 1) }
    } else if d == 1 {
        if z == 0 { slice_at(ctx[1], x * s + y) } else { cell(c, x, y, z - 1) }
    } else if d == 2 {
        if y + 1 == s { slice_at(ctx[2], x * s + z) } else { cell(c, x, y + 1, z) }
    } else if d == 3 {
        if y == 0 { slice_at(ctx[3], x * s + z) } else { cell(c, x, y - 1, z) }
    } else if d == 4 {
        if x + 1 == s { slice_at(ctx[4], y * s + z) } else { cell(c, x + 1, y, z) }
    } else {
        if x == 0 { slice_at(ctx[5], y * s + z) } else { cell(c, x - 1, y, z) }
    }
}

/// An instance the mesh builder can draw: air, or a registered block whose
/// shape is registered, well formed, and accepts the orientation byte.
pub open spec fn instance_ok(reg: Seq<Block>, shapes: Seq<BlockShape>, bi: BlockInstance) -> bool {
    bi.blockdef == 0 || {
        &&& (bi.blockdef as int) < reg.len()
        &&& (reg[bi.blockdef as int].shape_id as int) < shapes.len()
        &&& shapes[reg[bi.blockdef as int].shape_id as int].wf()
        &&& shapes[reg[bi.blockdef as int].shape_id as int].accepts(bi.exparam)
    }
}

/// Whether instance `bi` seals its side in direction `dir`: an opaque block
/// whose shape, so oriented, seals that side.
pub open spec fn side_sealed(reg: Seq<Block>, shapes: Seq<BlockShape>, bi: BlockInstance, dir: RotFace) -> bool {
    let b = reg[bi.blockdef as int];
    let sh = shapes[b.shape_id as int];
    !b.transparent && seals(sh.obstructs@, shape_rotation(sh.rot_group, bi.exparam).unwrap(), dir)
}

/// The obstruction table of cell `(x, y, z)`: entry `d` is set when the
/// neighbour in direction `d` seals the side facing back at the cell.
pub open spec fn cell_obstructions(
    c: Chunk,
    ctx: Seq<Option<Seq<BlockInstance>>>,
    reg: Seq<Block>,
    shapes: Seq<BlockShape>,
    x: int,
    y: int,
    z: int,
) -> Seq<bool> {
    Seq::new(
        6,
        |d: int| side_sealed(reg, shapes, neighbor(c, ctx, x, y, z, d), rf_reverse(rf_at(d as u8).unwrap())),
    )
}

/// The mesh of the first `k` cells of chunk `c` in row-major order, for a
/// chunk whose first cell sits at `world_pos`.
pub open spec fn chunk_mesh(
    c: Chunk,
    ctx: Seq<Option<Seq<BlockInstance>>>,
    reg: Seq<Block>,
    shapes: Seq<BlockShape>,
    world_pos: (usize, usize, usize),
    k: int,
) -> (Seq<MeshVertex>, Seq<u16>)
    decreases k,
{
    if k <= 0 {
        (Seq::empty(), Seq::empty())
    } else {
        let prev = chunk_mesh(c, ctx, reg, shapes, world_pos, k - 1);
        let (x, y, z) = decode(c.size as int, k - 1);
        let bi = cell(c, x, y, z);
        if bi.blockdef == 0 {
            prev
        } else {
            let b = reg[bi.blockdef as int];
            let sh = shapes[b.shape_id as int];
            let m = cell_mesh(
                sh,
                b,
                shape_rotation(sh.rot_group, bi.exparam).unwrap(),
                cell_obstructions(c, ctx, reg, shapes, x, y, z),
                world_pos,
                (x as usize, y as usize, z as usize),
                prev.0.len() as int,
            );
            (prev.0 + m.0, prev.1 + m.1)
        }
    }
}

/// The whole mesh of chunk `c`.
pub open spec fn full_chunk_mesh(
    c: Chunk,
    ctx: Seq<Option<Seq<BlockInstance>>>,
    reg: Seq<Block>,
    shapes: Seq<BlockShape>,
    world_pos: (usize, usize, usize),
) -> (Seq<MeshVertex>, Seq<u16>) {
    let s = c.size as int;
    chunk_mesh(c, ctx, reg, shapes, world_pos, s * s * s)
}

/// Every layer of the context that is present holds `size * size` instances.
pub open spec fn context_shaped(c: Chunk, ctx: Seq<Option<Seq<BlockInstance>>>) -> bool {
    forall|d: int| 0 <= d < 6 ==> match #[trigger] ctx[d] {
        Some(v) => v.len() == c.size * c.size,
        None => true,
    }
}

/// Every instance of a layer can be drawn.
pub open spec fn layer_drawable(layer: Option<Seq<BlockInstance>>, reg: Seq<Block>, shapes: Seq<BlockShape>) -> bool {
    match layer {
        Some(v) => seq_drawable(v, reg, shapes),
        None => true,
    }
}

pub open spec fn seq_drawable(v: Seq<BlockInstance>, reg: Seq<Block>, shapes: Seq<BlockShape>) -> bool {
    forall|i: int| 0 <= i < v.len() ==> instance_ok(reg, shapes, #[trigger] v[i])
}

/// Every cell of the chunk and of the context can be drawn.
pub open spec fn chunk_drawable(
    c: Chunk,
    ctx: Seq<Option<Seq<BlockInstance>>>,
    reg: Seq<Block>,
    shapes: Seq<BlockShape>,
) -> bool {
    &&& cells_drawable(c, reg, shapes)
    &&& forall|d: int| 0 <= d < 6 ==> layer_drawable(#[trigger] ctx[d], reg, shapes)
}

/// Every cell of the chunk can be drawn.
pub open spec fn cells_drawable(c: Chunk, reg: Seq<Block>, shapes: Seq<BlockShape>) -> bool {
    forall|n: int| 0 <= n < grid_cells(c.data).len() ==> instance_ok(reg, shapes, #[trigger] grid_cells(c.data)[n])
}

/// Why a mesh could not be built.
#[derive(Clone, Copy, Debug, PartialEq, Eq, Structural)]
pub enum MeshError {
    /// A boundary layer of the context has the wrong length.
    BadBoundary,
    /// A cell names an unknown block or shape, or an orientation its shape lacks.
    InvalidCell,
    /// The mesh has more vertices than 16-bit indices can address.
    TooManyVertices,
}

/// Most vertices a chunk mesh holds: every index must fit in `u16`.
pub const MAX_MESH_VERTICES: usize = 65536;

/// A mesh with at most `MAX_MESH_VERTICES` vertices.
pub open spec fn mesh_fits(m: (Seq<MeshVertex>, Seq<u16>)) -> bool {
    m.0.len() <= MAX_MESH_VERTICES
}

impl Chunk {
    pub open spec fn wf(&self) -> bool {
        &&& 1 <= self.size <= MAX_CHUNK_SIZE
        &&& grid_shape(self.data) == (self.size as nat, self.size as nat, self.size as nat)
        &&& grid_cells(self.data).len() == self.size * self.size * self.size
    }

    /// A dirty chunk of `CHUNK_SIZE`³ air cells.
    pub fn new() -> (r: Chunk)
        ensures
            r.wf(),
            r.size == CHUNK_SIZE,
            r.dirty,
            grid_cells(r.data) == Seq::new(
                (CHUNK_SIZE * CHUNK_SIZE * CHUNK_SIZE) as nat,
                |i: int| BlockInstance { blockdef: 0, exparam: 0, light: 255 },
            ),
            r.draw_cache.vertices@.len() == 0,
            r.draw_cache.indices@.len() == 0,
    {
        let proto_bi = BlockInstance { blockdef: 0, exparam: 0, light: 255 };
        Self::from_blockinstance(proto_bi)
    }

    /// A dirty chunk of `CHUNK_SIZE`³ cells, all equal to `bi`.
    pub fn from_blockinstance(bi: BlockInstance) -> (r: Chunk)
        ensures
            r.wf(),
            r.size == CHUNK_SIZE,
            r.dirty,
            grid_cells(r.data) == Seq::new((CHUNK_SIZE * CHUNK_SIZE * CHUNK_SIZE) as nat, |i: int| bi),
            r.draw_cache.vertices@.len() == 0,
            r.draw_cache.indices@.len() == 0,
    {
        Self::with_size(CHUNK_SIZE, bi)
    }

    /// A dirty chunk of `size`³ cells, all equal to `bi`.
    pub fn with_size(size: usize, bi: BlockInstance) -> (r: Chunk)
        requires
            1 <= size <= MAX_CHUNK_SIZE,
        ensures
            r.wf(),
            r.size == size,
            r.dirty,
            grid_cells(r.data) == Seq::new((size * size * size) as nat, |i: int| bi),
            r.draw_cache.vertices@.len() == 0,
            r.draw_cache.indices@.len() == 0,
    {
        proof {
            lemma_cube_bound(size as int);
        }
        let data = grid_filled(size, bi);
        Chunk { data, size, dirty: true, draw_cache: ChunkDrawCache::default() }
    }

    /// The instance at `(x, y, z)`.
    pub fn get(&self, x: usize, y: usize, z: usize) -> (r: BlockInstance)
        requires
            self.wf(),
            x < self.size,
            y < self.size,
            z < self.size,
        ensures
            r == cell(*self, x as int, y as int, z as int),
    {
        *grid_ref(&self.data, x, y, z)
    }

    /// Rebuilds the mesh from the cells and the neighbouring layers in `cdc`,
    /// and marks the chunk clean. Fails, changing nothing, when a layer has the
    /// wrong length, a cell cannot be drawn, or the mesh would have more than
    /// `MAX_MESH_VERTICES` vertices.
    pub fn update_draw_cache(
        &mut self,
        world_pos: (usize, usize, usize),
        registry: &BlockRegistry,
        shape_registry: &BlockShapeRegistry,
        cdc: ChunkDrawContext,
    ) -> (r: Result<(), MeshError>)
        requires
            old(self).wf(),
            registry.wf(),
            world_pos.0 + old(self).size <= COORD_BOUND,
            world_pos.1 + old(self).size <= COORD_BOUND,
            world_pos.2 + old(self).size <= COORD_BOUND,
        ensures
            r == Err::<(), MeshError>(MeshError::BadBoundary) <==> !context_shaped(*old(self), cdc@),
            r == Err::<(), MeshError>(MeshError::InvalidCell) <==> context_shaped(*old(self), cdc@)
                && !chunk_drawable(*old(self), cdc@, registry@, shape_registry.bshapes@),
            r == Err::<(), MeshError>(MeshError::TooManyVertices) <==> context_shaped(*old(self), cdc@)
                && chunk_drawable(*old(self), cdc@, registry@, shape_registry.bshapes@)
                && !mesh_fits(full_chunk_mesh(*old(self), cdc@, registry@, shape_registry.bshapes@, world_pos)),
            r is Ok <==> context_shaped(*old(self), cdc@) && chunk_drawable(*old(self), cdc@, registry@, shape_registry.bshapes@)
                && mesh_fits(full_chunk_mesh(*old(self), cdc@, registry@, shape_registry.bshapes@, world_pos)),
            r is Err ==> *final(self) == *old(self),
            r is Ok ==> {
                let m = full_chunk_mesh(*old(self), cdc@, registry@, shape_registry.bshapes@, world_pos);
                &&& final(self).data == old(self).data
                &&& final(self).size == old(self).size
                &&& !final(self).dirty
                &&& final(self).draw_cache.vertices@ == m.0
                &&& final(self).draw_cache.indices@ == m.1
            },
    {
        if !context_ok(self.size, &cdc) {
            return Err(MeshError::BadBoundary);
        }
        if !cells_ok(self, &cdc, registry, shape_registry) {
            return Err(MeshError::InvalidCell);
        }
        let ghost ctx = cdc@;
        let ghost reg = registry@;
        let ghost shapes = shape_registry.bshapes@;
        let s = self.size;
        proof {
            lemma_cube_bound(s as int);
        }
        let total = s * s * s;
        let mut tverts = Vec::<MeshVertex>::new();
        let mut tinds = Vec::<u16>::new();
        let mut n: usize = 0;
        while n < total
            invariant
                self.wf(),
                s == self.size,
                total == s * s * s,
                0 <= n <= total,
                registry.wf(),
                ctx == cdc@,
                reg == registry@,
                shapes == shape_registry.bshapes@,
                context_shaped(*self, ctx),
                chunk_drawable(*self, ctx, reg, shapes),
                world_pos.0 + s <= COORD_BOUND,
                world_pos.1 + s <= COORD_BOUND,
                world_pos.2 + s <= COORD_BOUND,
                tverts@ == chunk_mesh(*self, ctx, reg, shapes, world_pos, n as int).0,
                tinds@ == chunk_mesh(*self, ctx, reg, shapes, world_pos, n as int).1,
            decreases total - n,
        {
            proof {
                lemma_decode_bounds(s as int, n as int);
            }
            let x = n / (s * s);
            let y = (n / s) % s;
            let z = n % s;
            let bi = *grid_ref(&self.data, x, y, z);
            proof {
                lemma_cell_index_bounds(s as int, x as int, y as int, z as int);
                assert(instance_ok(reg, shapes, grid_cells(self.data)[cell_index(s as int, x as int, y as int, z as int)]));
            }
            if bi.blockdef != 0 {
                let bdef = registry.get(bi.blockdef).unwrap();
                let shape = shape_registry.get(bdef.shape_id).unwrap();
                let bdc = self.create_bdc((x, y, z), registry, shape_registry, &cdc);
                shape.generate_draw_buffers(&mut tverts, &mut tinds, bdef, bi.exparam, bdc, world_pos, (x, y, z));
            }
            n = n + 1;
        }
        if tverts.len() > MAX_MESH_VERTICES {
            return Err(MeshError::TooManyVertices);
        }
        self.draw_cache = ChunkDrawCache { vertices: tverts, indices: tinds };
        self.dirty = false;
        Ok(())
    }

    /// The obstruction table of cell `pos`.
    pub fn create_bdc(
        &self,
        pos: (usize, usize, usize),
        registry: &BlockRegistry,
        shape_registry: &BlockShapeRegistry,
        cdc: &ChunkDrawContext,
    ) -> (r: BlockDrawContext)
        requires
            self.wf(),
            registry.wf(),
            pos.0 < self.size,
            pos.1 < self.size,
            pos.2 < self.size,
            context_shaped(*self, cdc@),
            chunk_drawable(*self, cdc@, registry@, shape_registry.bshapes@),
        ensures
            r.obstructions@ == cell_obstructions(
                *self,
                cdc@,
                registry@,
                shape_registry.bshapes@,
                pos.0 as int,
                pos.1 as int,
                pos.2 as int,
            ),
    {
        let mut out = [false; 6];
        let mut idx: u8 = 0;
        while idx < 6
            invariant
                0 <= idx <= 6,
                self.wf(),
                registry.wf(),
                pos.0 < self.size,
                pos.1 < self.size,
                pos.2 < self.size,
                context_shaped(*self, cdc@),
                chunk_drawable(*self, cdc@, registry@, shape_registry.bshapes@),
                out@.len() == 6,
                forall|d: int| 0 <= d < idx ==> out@[d] == #[trigger] cell_obstructions(
                    *self,
                    cdc@,
                    registry@,
                    shape_registry.bshapes@,
                    pos.0 as int,
                    pos.1 as int,
                    pos.2 as int,
                )[d],
            decreases 6 - idx,
        {
            let bi = self.neighbor_instance(pos, idx, cdc);
            let bdef = registry.get(bi.blockdef).unwrap();
            let mut sealed = false;
            if !bdef.transparent {
                let sdef = shape_registry.get(bdef.shape_id).unwrap();
                let dir = reverse_rf(num_to_rf(idx).unwrap());
                sealed = sdef.does_obstruct(bi.exparam, dir);
            }
            out[idx as usize] = sealed;
            idx = idx + 1;
        }
        let r = BlockDrawContext { obstructions: out };
        assert(r.obstructions@ =~= cell_obstructions(
            *self,
            cdc@,
            registry@,
            shape_registry.bshapes@,
            pos.0 as int,
            pos.1 as int,
            pos.2 as int,
        ));
        r
    }

    /// The instance next to cell `pos` in face direction `d`.
    fn neighbor_instance(&self, pos: (usize, usize, usize), d: u8, cdc: &ChunkDrawContext) -> (r: BlockInstance)
        requires
            self.wf(),
            pos.0 < self.size,
            pos.1 < self.size,
            pos.2 < self.size,
            d < 6,
            context_shaped(*self, cdc@),
        ensures
            r == neighbor(*self, cdc@, pos.0 as int, pos.1 as int, pos.2 as int, d as int),
            r == air_instance() || (exists|n: int| 0 <= n < grid_cells(self.data).len() && r == grid_cells(self.data)[n])
                || (exists|e: int, i: int| 0 <= e < 6 && cdc@[e] is Some && 0 <= i < cdc@[e].unwrap().len() && r == cdc@[e].unwrap()[i]),
    {
        let s = self.size;
        let (x, y, z) = pos;
        proof {
            lemma_face_index_bounds(s as int, x as int, y as int);
            lemma_face_index_bounds(s as int, x as int, z as int);
            lemma_face_index_bounds(s as int, y as int, z as int);
        }
        let r = if d == 0 {
            if z + 1 == s { layer_at(&cdc.plus_z, x * s + y) } else { self.cell_checked(x, y, z + 1) }
        } else if d == 1 {
            if z == 0 { layer_at(&cdc.minus_z, x * s + y) } else { self.cell_checked(x, y, z - 1) }
        } else if d == 2 {
            if y + 1 == s { layer_at(&cdc.plus_y, x * s + z) } else { self.cell_checked(x, y + 1, z) }
        } else if d == 3 {
            if y == 0 { layer_at(&cdc.minus_y, x * s + z) } else { self.cell_checked(x, y - 1, z) }
        } else if d == 4 {
            if x + 1 == s { layer_at(&cdc.plus_x, y * s + z) } else { self.cell_checked(x + 1, y, z) }
        } else {
            if x == 0 { layer_at(&cdc.minus_x, y * s + z) } else { self.cell_checked(x - 1, y, z) }
        };
        proof {
            assert(cdc@[0] == slice_view(cdc.plus_z));
            assert(cdc@[1] == slice_view(cdc.minus_z));
            assert(cdc@[2] == slice_view(cdc.plus_y));
            assert(cdc@[3] == slice_view(cdc.minus_y));
            assert(cdc@[4] == slice_view(cdc.plus_x));
            assert(cdc@[5] == slice_view(cdc.minus_x));
        }
        r
    }

    /// The instance at `(x, y, z)`, with the index it has among the cells.
    fn cell_checked(&self, x: usize, y: usize, z: usize) -> (r: BlockInstance)
        requires
            self.wf(),
            x < self.size,
            y < self.size,
            z < self.size,
        ensures
            r == cell(*self, x as int, y as int, z as int),
            0 <= cell_index(self.size as int, x as int, y as int, z as int) < grid_cells(self.data).len(),
    {
        proof {
            lemma_cell_index_bounds(self.size as int, x as int, y as int, z as int);
        }
        *grid_ref(&self.data, x, y, z)
    }
}

/// The instance at `i` of a layer, or air where the layer is absent.
fn layer_at(layer: &Option<Vec<BlockInstance>>, i: usize) -> (r: BlockInstance)
    requires
        layer matches Some(v) ==> i < v@.len(),
    ensures
        r == slice_at(slice_view(*layer), i as int),
{
    match layer {
        Some(v) => v[i],
        None => BlockInstance { blockdef: 0, exparam: 0, light: 0 },
    }
}

/// Every present layer of `cdc` holds `size * size` instances.
fn context_ok(size: usize, cdc: &ChunkDrawContext) -> (r: bool)
    requires
        size <= MAX_CHUNK_SIZE,
    ensures
        forall|c: Chunk| c.size == size ==> (r == context_shaped(c, cdc@)),
{
    proof {
        assert(size * size <= MAX_CHUNK_SIZE * MAX_CHUNK_SIZE) by (nonlinear_arith)
            requires size <= MAX_CHUNK_SIZE;
    }
    let n = size * size;
    let r = layer_len_ok(&cdc.plus_z, n) && layer_len_ok(&cdc.minus_z, n) && layer_len_ok(&cdc.plus_y, n)
        && layer_len_ok(&cdc.minus_y, n) && layer_len_ok(&cdc.plus_x, n) && layer_len_ok(&cdc.minus_x, n);
    proof {
        assert forall|c: Chunk| c.size == size implies (r == context_shaped(c, cdc@)) by {
            if !r {
                if !layer_len_ok_spec(&cdc.plus_z, n as int) {
                    assert(!(match cdc@[0] { Some(v) => v.len() == c.size * c.size, None => true }));
                } else if !layer_len_ok_spec(&cdc.minus_z, n as int) {
                    assert(!(match cdc@[1] { Some(v) => v.len() == c.size * c.size, None => true }));
                } else if !layer_len_ok_spec(&cdc.plus_y, n as int) {
                    assert(!(match cdc@[2] { Some(v) => v.len() == c.size * c.size, None => true }));
                } else if !layer_len_ok_spec(&cdc.minus_y, n as int) {
                    assert(!(match cdc@[3] { Some(v) => v.len() == c.size * c.size, None => true }));
                } else if !layer_len_ok_spec(&cdc.plus_x, n as int) {
                    assert(!(match cdc@[4] { Some(v) => v.len() == c.size * c.size, None => true }));
                } else {
                    assert(!(match cdc@[5] { Some(v) => v.len() == c.size * c.size, None => true }));
                }
            }
        }
    }
    r
}

pub open spec fn layer_len_ok_spec(layer: &Option<Vec<BlockInstance>>, n: int) -> bool {
    match layer {
        Some(v) => v@.len() == n,
        None => true,
    }
}

fn layer_len_ok(layer: &Option<Vec<BlockInstance>>, n: usize) -> (r: bool)
    ensures
        r == layer_len_ok_spec(layer, n as int),
{
    match layer {
        Some(v) => v.len() == n,
        None => true,
    }
}

/// Whether `bi` can be drawn.
fn instance_checked(bi: BlockInstance, registry: &BlockRegistry, shape_registry: &BlockShapeRegistry) -> (r: bool)
    ensures
        r == instance_ok(registry@, shape_registry.bshapes@, bi),
{
    if bi.blockdef == 0 {
        return true;
    }
    match registry.get(bi.blockdef) {
        None => false,
        Some(bdef) => match shape_registry.get(bdef.shape_id) {
            None => false,
            Some(shape) => shape_checked(shape) && shape.orientation(bi.exparam).is_some(),
        },
    }
}

/// Whether `shape` is well formed.
fn shape_checked(shape: &BlockShape) -> (r: bool)
    ensures
        r == shape.wf(),
{
    let mut f: usize = 0;
    while f < shape.faces.len()
        invariant
            0 <= f <= shape.faces@.len(),
            forall|g: int| 0 <= g < f ==> (#[trigger] shape.faces@[g]).wf(),
        decreases shape.faces@.len() - f,
    {
        let face = &shape.faces[f];
        let mut i: usize = 0;
        while i < face.vertices.len()
            invariant
                0 <= i <= face.vertices@.len(),
                f < shape.faces@.len(),
                shape.faces@[f as int] == *face,
                forall|k: int|
                    0 <= k < i ==> bounded_by(
                        (#[trigger] face.vertices@[k]).pos@,
                        HALF_EXTENT as int,
                    ) && -HALF_EXTENT <= face.vertices@[k].u <= HALF_EXTENT && -HALF_EXTENT
                        <= face.vertices@[k].v <= HALF_EXTENT,
            decreases face.vertices@.len() - i,
        {
            let v = face.vertices[i];
            if !(-HALF_EXTENT <= v.pos.x && v.pos.x <= HALF_EXTENT && -HALF_EXTENT <= v.pos.y
                && v.pos.y <= HALF_EXTENT && -HALF_EXTENT <= v.pos.z && v.pos.z <= HALF_EXTENT
                && -HALF_EXTENT <= v.u && v.u <= HALF_EXTENT && -HALF_EXTENT <= v.v && v.v <= HALF_EXTENT) {
                assert(!face.wf()) by {
                    assert(!(bounded_by(face.vertices@[i as int].pos@, HALF_EXTENT as int)
                        && -HALF_EXTENT <= face.vertices@[i as int].u <= HALF_EXTENT && -HALF_EXTENT
                        <= face.vertices@[i as int].v <= HALF_EXTENT));
                }
                assert(!shape.faces@[f as int].wf());
                return false;
            }
            i = i + 1;
        }
        let mut j: usize = 0;
        while j < face.indices.len()
            invariant
                0 <= j <= face.indices@.len(),
                f < shape.faces@.len(),
                shape.faces@[f as int] == *face,
                forall|k: int| 0 <= k < j ==> (#[trigger] face.indices@[k]) < face.vertices@.len(),
            decreases face.indices@.len() - j,
        {
            if face.indices[j] as usize >= face.vertices.len() {
                assert(!face.wf()) by {
                    assert(!(face.indices@[j as int] < face.vertices@.len()));
                }
                assert(!shape.faces@[f as int].wf());
                return false;
            }
            j = j + 1;
        }
        f = f + 1;
    }
    true
}

/// Whether every cell of `c` and every instance of the layers in `cdc` can be drawn.
fn cells_ok(c: &Chunk, cdc: &ChunkDrawContext, registry: &BlockRegistry, shape_registry: &BlockShapeRegistry) -> (r: bool)
    requires
        c.wf(),
    ensures
        r == chunk_drawable(*c, cdc@, registry@, shape_registry.bshapes@),
{
    let ghost reg = registry@;
    let ghost shapes = shape_registry.bshapes@;
    let s = c.size;
    proof {
        lemma_cube_bound(s as int);
    }
    let total = s * s * s;
    let mut n: usize = 0;
    while n < total
        invariant
            c.wf(),
            s == c.size,
            total == s * s * s,
            0 <= n <= total,
            reg == registry@,
            shapes == shape_registry.bshapes@,
            forall|m: int| 0 <= m < n ==> instance_ok(reg, shapes, #[trigger] grid_cells(c.data)[m]),
        decreases total - n,
    {
        proof {
            lemma_decode_bounds(s as int, n as int);
            lemma_decode_index(s as int, n as int);
        }
        let x = n / (s * s);
        let y = (n / s) % s;
        let z = n % s;
        let bi = *grid_ref(&c.data, x, y, z);
        if !instance_checked(bi, registry, shape_registry) {
            assert(!instance_ok(reg, shapes, grid_cells(c.data)[n as int]));
            return false;
        }
        n = n + 1;
    }
    let layers_ok = layer_cells_ok(&cdc.plus_z, registry, shape_registry)
        && layer_cells_ok(&cdc.minus_z, registry, shape_registry)
        && layer_cells_ok(&cdc.plus_y, registry, shape_registry)
        && layer_cells_ok(&cdc.minus_y, registry, shape_registry)
        && layer_cells_ok(&cdc.plus_x, registry, shape_registry)
        && layer_cells_ok(&cdc.minus_x, registry, shape_registry);
    proof {
        let ctx = cdc@;
        assert(grid_cells(c.data).len() == total);
        assert(ctx[0] == slice_view(cdc.plus_z));
        assert(ctx[1] == slice_view(cdc.minus_z));
        assert(ctx[2] == slice_view(cdc.plus_y));
        assert(ctx[3] == slice_view(cdc.minus_y));
        assert(ctx[4] == slice_view(cdc.plus_x));
        assert(ctx[5] == slice_view(cdc.minus_x));
        if layers_ok {
            assert forall|d: int| 0 <= d < 6 implies layer_drawable(#[trigger] ctx[d], reg, shapes) by {
                assert(d == 0 || d == 1 || d == 2 || d == 3 || d == 4 || d == 5);
            }
        }
    }
    layers_ok
}

fn layer_cells_ok(layer: &Option<Vec<BlockInstance>>, registry: &BlockRegistry, shape_registry: &BlockShapeRegistry) -> (r: bool)
    ensures
        r == layer_drawable(slice_view(*layer), registry@, shape_registry.bshapes@),
{
    match layer {
        None => true,
        Some(v) => {
            let r = vec_cells_ok(v, registry, shape_registry);
            assert(slice_view(*layer) == Some(v@));
            r
        },
    }
}

fn vec_cells_ok(v: &Vec<BlockInstance>, registry: &BlockRegistry, shape_registry: &BlockShapeRegistry) -> (r: bool)
    ensures
        r == seq_drawable(v@, registry@, shape_registry.bshapes@),
{
    let mut i: usize = 0;
    while i < v.len()
        invariant
            0 <= i <= v@.len(),
            forall|k: int| 0 <= k < i ==> instance_ok(registry@, shape_registry.bshapes@, #[trigger] v@[k]),
        decreases v@.len() - i,
    {
        if !instance_checked(v[i], registry, shape_registry) {
            assert(!instance_ok(registry@, shape_registry.bshapes@, v@[i as int]));
            return false;
        }
        i = i + 1;
    }
    true
}

proof fn lemma_cube_bound(s: int)
    requires
        0 <= s <= MAX_CHUNK_SIZE,
    ensures
        s * s <= MAX_CHUNK_SIZE * MAX_CHUNK_SIZE,
        s * s * s <= MAX_CHUNK_SIZE * MAX_CHUNK_SIZE * MAX_CHUNK_SIZE,
{
    assert(s * s <= 256 * 256) by (nonlinear_arith)
        requires 0 <= s <= 256;
    assert(s * s * s <= 256 * 256 * 256) by (nonlinear_arith)
        requires 0 <= s <= 256, s * s <= 256 * 256;
}

/// The coordinates of cell `n` lie inside the chunk.
proof fn lemma_decode_bounds(s: int, n: int)
    requires
        1 <= s <= MAX_CHUNK_SIZE,
        0 <= n < s * s * s,
    ensures
        0 <= n / (s * s) < s,
        0 <= (n / s) % s < s,
        0 <= n % s < s,
        s * s <= MAX_CHUNK_SIZE * MAX_CHUNK_SIZE,
        s * s * s <= MAX_CHUNK_SIZE * MAX_CHUNK_SIZE * MAX_CHUNK_SIZE,
{
    lemma_cube_bound(s);
    let q = n / (s * s);
    assert(s * s > 0) by (nonlinear_arith)
        requires s >= 1;
    vstd::arithmetic::div_mod::lemma_fundamental_div_mod(n, s * s);
    assert(0 <= n % (s * s));
    vstd::arithmetic::div_mod::lemma_mod_pos_bound(n, s * s);
    assert(q >= 0) by {
        vstd::arithmetic::div_mod::lemma_div_pos_is_pos(n, s * s);
    }
    assert(q < s) by (nonlinear_arith)
        requires n == (s * s) * q + n % (s * s), 0 <= n % (s * s), n < s * s * s, s >= 1, q >= 0;
    vstd::arithmetic::div_mod::lemma_mod_pos_bound(n / s, s);
    vstd::arithmetic::div_mod::lemma_mod_pos_bound(n, s);
    vstd::arithmetic::div_mod::lemma_div_pos_is_pos(n, s);
}

/// Cell `n` sits at index `n` of the row-major sequence.
proof fn lemma_decode_index(s: int, n: int)
    requires
        1 <= s <= MAX_CHUNK_SIZE,
        0 <= n < s * s * s,
    ensures
        cell_index(s, n / (s * s), (n / s) % s, n % s) == n,
{
    assert(s * s > 0) by (nonlinear_arith)
        requires s >= 1;
    vstd::arithmetic::div_mod::lemma_fundamental_div_mod(n, s);
    vstd::arithmetic::div_mod::lemma_fundamental_div_mod(n / s, s);
    vstd::arithmetic::div_mod::lemma_div_denominator(n, s, s);
    let q = n / s;
    assert(q / s == n / (s * s));
    assert((n / (s * s) * s + q % s) * s + n % s == n) by (nonlinear_arith)
        requires n == s * q + n % s, q == s * (q / s) + q % s, q / s == n / (s * s);
}

/// Cell indices of coordinates inside the chunk are inside the sequence.
proof fn lemma_cell_index_bounds(s: int, x: int, y: int, z: int)
    requires
        1 <= s,
        0 <= x < s,
        0 <= y < s,
        0 <= z < s,
    ensures
        0 <= cell_index(s, x, y, z) < s * s * s,
{
    assert(0 <= x * s + y < s * s) by (nonlinear_arith)
        requires 0 <= x < s, 0 <= y < s;
    assert(0 <= (x * s + y) * s + z < s * s * s) by (nonlinear_arith)
        requires 0 <= x * s + y < s * s, 0 <= z < s;
}

/// Layer indices of coordinates inside the chunk are inside the layer.
proof fn lemma_face_index_bounds(s: int, a: int, b: int)
    requires
        1 <= s <= MAX_CHUNK_SIZE,
        0 <= a < s,
        0 <= b < s,
    ensures
        0 <= a * s + b < s * s,
        a * s + b <= MAX_CHUNK_SIZE * MAX_CHUNK_SIZE,
{
    assert(0 <= a * s + b < s * s) by (nonlinear_arith)
        requires 0 <= a < s, 0 <= b < s;
    lemma_cube_bound(s);
}

// ---------------------------------------------------------------------------
// The chunk manager
// ---------------------------------------------------------------------------

/// Chunks per axis in the world made by `ChunkManager::new`.
pub const WORLD_CHUNKS: usize = 8;

/// Most chunks a world holds.
pub const MAX_CHUNKS: usize = 0x10000;

/// A world of `dims.0 × dims.1 × dims.2` chunks, each `chunk_size`³ cells,
/// stored in row-major order.
pub struct ChunkManager {
    pub data: Vec<Chunk>,
    pub dims: (usize, usize, usize),
    pub chunk_size: usize,
}

pub open spec fn chunk_index(dims: (usize, usize, usize), cx: int, cy: int, cz: int) -> int {
    (cx * dims.1 + cy) * dims.2 + cz
}

/// The chunk coordinates of the `i`-th chunk.
pub open spec fn chunk_coords(dims: (usize, usize, usize), i: int) -> (int, int, int) {
    let n1 = dims.1 as int;
    let n2 = dims.2 as int;
    (i / (n1 * n2), (i / n2) % n1, i % n2)
}

/// The layer of chunk `c` at `level` across axis `axis` (0 for x, 1 for y,
/// 2 for z), in the order of `ChunkDrawContext`.
pub open spec fn layer_of(c: Chunk, axis: int, level: int) -> Seq<BlockInstance> {
    let s = c.size as int;
    Seq::new(
        (s * s) as nat,
        |i: int|
            if axis == 0 {
                cell(c, level, i / s, i % s)
            } else if axis == 1 {
                cell(c, i / s, level, i % s)
            } else {
                cell(c, i / s, i % s, level)
            },
    )
}

impl ChunkManager {
    pub open spec fn wf(&self) -> bool {
        let (nx, ny, nz) = self.dims;
        let s = self.chunk_size;
        &&& 1 <= s <= MAX_CHUNK_SIZE
        &&& 1 <= nx && 1 <= ny && 1 <= nz
        &&& nx * ny * nz <= MAX_CHUNKS
        &&& self.data@.len() == nx * ny * nz
        &&& nx * s <= COORD_BOUND && ny * s <= COORD_BOUND && nz * s <= COORD_BOUND
        &&& forall|i: int| 0 <= i < self.data@.len() ==> (#[trigger] self.data@[i]).wf() && self.data@[i].size == s
    }

    pub open spec fn chunk_at(&self, cx: int, cy: int, cz: int) -> Chunk {
        self.data@[chunk_index(self.dims, cx, cy, cz)]
    }

    /// The world position of the first cell of the `i`-th chunk.
    pub open spec fn chunk_origin(&self, i: int) -> (usize, usize, usize) {
        let (cx, cy, cz) = chunk_coords(self.dims, i);
        let s = self.chunk_size as int;
        ((cx * s) as usize, (cy * s) as usize, (cz * s) as usize)
    }

    /// The boundary layers around the `i`-th chunk, taken from its neighbours.
    pub open spec fn context_of(&self, i: int) -> Seq<Option<Seq<BlockInstance>>> {
        let (cx, cy, cz) = chunk_coords(self.dims, i);
        let (nx, ny, nz) = self.dims;
        let s = self.chunk_size as int;
        seq![
            if cz + 1 < nz { Some(layer_of(self.chunk_at(cx, cy, cz + 1), 2, 0)) } else { None },
            if cz > 0 { Some(layer_of(self.chunk_at(cx, cy, cz - 1), 2, s - 1)) } else { None },
            if cy + 1 < ny { Some(layer_of(self.chunk_at(cx, cy + 1, cz), 1, 0)) } else { None },
            if cy > 0 { Some(layer_of(self.chunk_at(cx, cy - 1, cz), 1, s - 1)) } else { None },
            if cx + 1 < nx { Some(layer_of(self.chunk_at(cx + 1, cy, cz), 0, 0)) } else { None },
            if cx > 0 { Some(layer_of(self.chunk_at(cx - 1, cy, cz), 0, s - 1)) } else { None },
        ]
    }

    /// The mesh that rebuilding the `i`-th chunk yields.
    pub open spec fn rebuilt_mesh(&self, i: int, reg: Seq<Block>, shapes: Seq<BlockShape>) -> (Seq<MeshVertex>, Seq<u16>) {
        full_chunk_mesh(self.data@[i], self.context_of(i), reg, shapes, self.chunk_origin(i))
    }

    /// `next` is this world with every stale chunk whose mesh fits rebuilt and
    /// marked clean; cells unchanged, other chunks untouched.
    pub open spec fn rebuilds_to(&self, next: ChunkManager, reg: Seq<Block>, shapes: Seq<BlockShape>) -> bool {
        &&& next.wf()
        &&& next.dims == self.dims
        &&& next.chunk_size == self.chunk_size
        &&& next.data@.len() == self.data@.len()
        &&& forall|i: int| 0 <= i < self.data@.len() ==> {
            &&& (#[trigger] next.data@[i]).data == self.data@[i].data
            &&& (self.data@[i].dirty && mesh_fits(self.rebuilt_mesh(i, reg, shapes))) ==> {
                let m = self.rebuilt_mesh(i, reg, shapes);
                &&& !next.data@[i].dirty
                &&& next.data@[i].draw_cache.vertices@ == m.0
                &&& next.data@[i].draw_cache.indices@ == m.1
            }
            &&& !(self.data@[i].dirty && mesh_fits(self.rebuilt_mesh(i, reg, shapes))) ==> next.data@[i] == self.data@[i]
        }
    }

    /// Every clean chunk's mesh is the mesh its cells and its neighbours'
    /// boundary layers rebuild to.
    pub open spec fn meshes_current(&self, reg: Seq<Block>, shapes: Seq<BlockShape>) -> bool {
        forall|i: int| 0 <= i < self.data@.len() && !(#[trigger] self.data@[i]).dirty ==> {
            &&& self.data@[i].draw_cache.vertices@ == self.rebuilt_mesh(i, reg, shapes).0
            &&& self.data@[i].draw_cache.indices@ == self.rebuilt_mesh(i, reg, shapes).1
        }
    }

    /// Every stale chunk's rebuilt mesh fits.
    pub open spec fn stale_meshes_fit(&self, reg: Seq<Block>, shapes: Seq<BlockShape>) -> bool {
        forall|i: int| 0 <= i < self.data@.len() && (#[trigger] self.data@[i]).dirty ==> mesh_fits(self.rebuilt_mesh(i, reg, shapes))
    }

    /// Every cell of the world can be drawn.
    pub open spec fn drawable(&self, reg: Seq<Block>, shapes: Seq<BlockShape>) -> bool {
        forall|i: int| 0 <= i < self.data@.len() ==> cells_drawable(#[trigger] self.data@[i], reg, shapes)
    }

    /// The position `world_pos` lies inside the world.
    pub open spec fn contains(&self, world_pos: (usize, usize, usize)) -> bool {
        let s = self.chunk_size as int;
        &&& world_pos.0 < self.dims.0 * s
        &&& world_pos.1 < self.dims.1 * s
        &&& world_pos.2 < self.dims.2 * s
    }

    /// The index of the chunk that holds `world_pos`.
    pub open spec fn owner(&self, world_pos: (usize, usize, usize)) -> int {
        let s = self.chunk_size as int;
        chunk_index(self.dims, world_pos.0 as int / s, world_pos.1 as int / s, world_pos.2 as int / s)
    }

    /// The instance at `world_pos`.
    pub open spec fn world_cell(&self, world_pos: (usize, usize, usize)) -> BlockInstance {
        let s = self.chunk_size as int;
        cell(self.data@[self.owner(world_pos)], world_pos.0 as int % s, world_pos.1 as int % s, world_pos.2 as int % s)
    }

    /// Whether editing the cell at `world_pos` makes the `j`-th chunk stale:
    /// the chunk that holds it, and each neighbour across a chunk side that
    /// the cell touches.
    pub open spec fn marks_dirty(&self, world_pos: (usize, usize, usize), j: int) -> bool {
        let s = self.chunk_size as int;
        let (nx, ny, nz) = self.dims;
        let (cx, cy, cz) = (world_pos.0 as int / s, world_pos.1 as int / s, world_pos.2 as int / s);
        let (lx, ly, lz) = (world_pos.0 as int % s, world_pos.1 as int % s, world_pos.2 as int % s);
        ||| j == chunk_index(self.dims, cx, cy, cz)
        ||| lx == 0 && cx > 0 && j == chunk_index(self.dims, cx - 1, cy, cz)
        ||| lx == s - 1 && cx + 1 < nx && j == chunk_index(self.dims, cx + 1, cy, cz)
        ||| ly == 0 && cy > 0 && j == chunk_index(self.dims, cx, cy - 1, cz)
        ||| ly == s - 1 && cy + 1 < ny && j == chunk_index(self.dims, cx, cy + 1, cz)
        ||| lz == 0 && cz > 0 && j == chunk_index(self.dims, cx, cy, cz - 1)
        ||| lz == s - 1 && cz + 1 < nz && j == chunk_index(self.dims, cx, cy, cz + 1)
    }

    /// `next` is this world after the cell at `world_pos` was set to `v`:
    /// the cell's chunk holds `v` there, the chunks the edit affects are stale,
    /// and nothing else changed.
    pub open spec fn edits_to(&self, next: ChunkManager, world_pos: (usize, usize, usize), v: BlockInstance) -> bool {
        let s = self.chunk_size as int;
        let o = self.owner(world_pos);
        &&& next.wf()
        &&& next.dims == self.dims
        &&& next.chunk_size == self.chunk_size
        &&& next.data@.len() == self.data@.len()
        &&& forall|j: int| 0 <= j < self.data@.len() ==> {
            &&& (#[trigger] next.data@[j]).dirty == (self.data@[j].dirty || self.marks_dirty(world_pos, j))
            &&& next.data@[j].draw_cache == self.data@[j].draw_cache
            &&& next.data@[j].size == self.data@[j].size
            &&& j != o ==> next.data@[j].data == self.data@[j].data
        }
        &&& grid_shape(next.data@[o].data) == grid_shape(self.data@[o].data)
        &&& grid_cells(next.data@[o].data) == grid_cells(self.data@[o].data).update(
            cell_index(s, world_pos.0 as int % s, world_pos.1 as int % s, world_pos.2 as int % s),
            v,
        )
    }

    /// A world of `dims` chunks of `chunk_size`³ cells, all equal to `bi`.
    pub fn with_dims(chunk_size: usize, dims: (usize, usize, usize), bi: BlockInstance) -> (r: ChunkManager)
        requires
            1 <= chunk_size <= MAX_CHUNK_SIZE,
            1 <= dims.0 && 1 <= dims.1 && 1 <= dims.2,
            dims.0 * dims.1 * dims.2 <= MAX_CHUNKS,
            dims.0 * chunk_size <= COORD_BOUND,
            dims.1 * chunk_size <= COORD_BOUND,
            dims.2 * chunk_size <= COORD_BOUND,
        ensures
            r.wf(),
            r.dims == dims,
            r.chunk_size == chunk_size,
            forall|i: int| 0 <= i < r.data@.len() ==> {
                &&& (#[trigger] r.data@[i]).dirty
                &&& r.data@[i].draw_cache.vertices@.len() == 0
                &&& r.data@[i].draw_cache.indices@.len() == 0
                &&& grid_cells(r.data@[i].data) == Seq::new(
                    (chunk_size * chunk_size * chunk_size) as nat,
                    |k: int| bi,
                )
            },
    {
        proof {
            let (a, b, c) = (dims.0 as int, dims.1 as int, dims.2 as int);
            assert(a * b <= a * b * c) by (nonlinear_arith)
                requires a >= 1, b >= 1, c >= 1;
        }
        let total = dims.0 * dims.1 * dims.2;
        let mut data: Vec<Chunk> = Vec::new();
        let mut i: usize = 0;
        while i < total
            invariant
                0 <= i <= total,
                total == dims.0 * dims.1 * dims.2,
                1 <= chunk_size <= MAX_CHUNK_SIZE,
                data@.len() == i,
                forall|k: int| 0 <= k < i ==> {
                    &&& (#[trigger] data@[k]).wf()
                    &&& data@[k].size == chunk_size
                    &&& data@[k].dirty
                    &&& data@[k].draw_cache.vertices@.len() == 0
                    &&& data@[k].draw_cache.indices@.len() == 0
                    &&& grid_cells(data@[k].data) == Seq::new(
                        (chunk_size * chunk_size * chunk_size) as nat,
                        |m: int| bi,
                    )
                },
            decreases total - i,
        {
            data.push(Chunk::with_size(chunk_size, bi));
            i = i + 1;
        }
        ChunkManager { data, dims, chunk_size }
    }

    /// The instance at `world_pos`.
    pub fn get_block(&self, world_pos: (usize, usize, usize)) -> (r: &BlockInstance)
        requires
            self.wf(),
            self.contains(world_pos),
        ensures
            *r == self.world_cell(world_pos),
    {
        let s = self.chunk_size;
        proof {
            lemma_div_mod_bounds(world_pos.0 as int, s as int, self.dims.0 as int);
            lemma_div_mod_bounds(world_pos.1 as int, s as int, self.dims.1 as int);
            lemma_div_mod_bounds(world_pos.2 as int, s as int, self.dims.2 as int);
        }
        let ci = self.chunk_index_of(world_pos.0 / s, world_pos.1 / s, world_pos.2 / s);
        let ch = &self.data[ci];
        proof {
            lemma_cell_index_bounds(s as int, (world_pos.0 % s) as int, (world_pos.1 % s) as int, (world_pos.2 % s) as int);
        }
        grid_ref(&ch.data, world_pos.0 % s, world_pos.1 % s, world_pos.2 % s)
    }

    /// The index of the chunk at `(cx, cy, cz)`.
    fn chunk_index_of(&self, cx: usize, cy: usize, cz: usize) -> (r: usize)
        requires
            self.wf(),
            cx < self.dims.0,
            cy < self.dims.1,
            cz < self.dims.2,
        ensures
            r == chunk_index(self.dims, cx as int, cy as int, cz as int),
            r < self.data@.len(),
    {
        proof {
            lemma_chunk_index_bounds(self.dims, cx as int, cy as int, cz as int);
        }
        (cx * self.dims.1 + cy) * self.dims.2 + cz
    }

    /// Marks the chunks that an edit of the cell at `world_pos` makes stale,
    /// and hands out that cell for the edit.
    pub fn get_mut_block(&mut self, world_pos: (usize, usize, usize)) -> (r: &mut BlockInstance)
        requires
            old(self).wf(),
            old(self).contains(world_pos),
        ensures
            *r == old(self).world_cell(world_pos),
            old(self).edits_to(*final(self), world_pos, *final(r)),
    {
        let s = self.chunk_size;
        let (nx, ny, nz) = self.dims;
        proof {
            lemma_div_mod_bounds(world_pos.0 as int, s as int, nx as int);
            lemma_div_mod_bounds(world_pos.1 as int, s as int, ny as int);
            lemma_div_mod_bounds(world_pos.2 as int, s as int, nz as int);
        }
        let (cx, cy, cz) = (world_pos.0 / s, world_pos.1 / s, world_pos.2 / s);
        let (lx, ly, lz) = (world_pos.0 % s, world_pos.1 % s, world_pos.2 % s);
        let ci = self.chunk_index_of(cx, cy, cz);
        self.mark_for_edit(world_pos);
        proof {
            lemma_cell_index_bounds(s as int, lx as int, ly as int, lz as int);
        }
        let ch = chunk_mut(&mut self.data, ci);
        grid_mut(&mut ch.data, lx, ly, lz)
    }

    /// Marks stale the chunks that an edit of the cell at `world_pos` affects.
    #[verifier::rlimit(50)]
    fn mark_for_edit(&mut self, world_pos: (usize, usize, usize))
        requires
            old(self).wf(),
            old(self).contains(world_pos),
        ensures
            final(self).wf(),
            final(self).dims == old(self).dims,
            final(self).chunk_size == old(self).chunk_size,
            final(self).data@.len() == old(self).data@.len(),
            forall|j: int| 0 <= j < old(self).data@.len() ==> {
                &&& (#[trigger] final(self).data@[j]).dirty == (old(self).data@[j].dirty || old(self).marks_dirty(world_pos, j))
                &&& final(self).data@[j].draw_cache == old(self).data@[j].draw_cache
                &&& final(self).data@[j].size == old(self).data@[j].size
                &&& final(self).data@[j].data == old(self).data@[j].data
            },
    {
        let s = self.chunk_size;
        let (nx, ny, nz) = self.dims;
        proof {
            lemma_div_mod_bounds(world_pos.0 as int, s as int, nx as int);
            lemma_div_mod_bounds(world_pos.1 as int, s as int, ny as int);
            lemma_div_mod_bounds(world_pos.2 as int, s as int, nz as int);
        }
        let (cx, cy, cz) = (world_pos.0 / s, world_pos.1 / s, world_pos.2 / s);
        let (lx, ly, lz) = (world_pos.0 % s, world_pos.1 % s, world_pos.2 % s);
        let ghost start = *self;
        let ci = self.chunk_index_of(cx, cy, cz);
        self.mark_dirty(ci);
        if lx == 0 && cx > 0 {
            let j = self.chunk_index_of(cx - 1, cy, cz);
            self.mark_dirty(j);
        }
        if lx == s - 1 && cx + 1 < nx {
            let j = self.chunk_index_of(cx + 1, cy, cz);
            self.mark_dirty(j);
        }
        if ly == 0 && cy > 0 {
            let j = self.chunk_index_of(cx, cy - 1, cz);
            self.mark_dirty(j);
        }
        if ly == s - 1 && cy + 1 < ny {
            let j = self.chunk_index_of(cx, cy + 1, cz);
            self.mark_dirty(j);
        }
        if lz == 0 && cz > 0 {
            let j = self.chunk_index_of(cx, cy, cz - 1);
            self.mark_dirty(j);
        }
        if lz == s - 1 && cz + 1 < nz {
            let j = self.chunk_index_of(cx, cy, cz + 1);
            self.mark_dirty(j);
        }
    }

    /// Marks the `j`-th chunk stale.
    fn mark_dirty(&mut self, j: usize)
        requires
            old(self).wf(),
            j < old(self).data@.len(),
        ensures
            final(self).wf(),
            final(self).dims == old(self).dims,
            final(self).chunk_size == old(self).chunk_size,
            final(self).data@.len() == old(self).data@.len(),
            forall|k: int| 0 <= k < old(self).data@.len() ==> {
                &&& (#[trigger] final(self).data@[k]).dirty == (old(self).data@[k].dirty || k == j)
                &&& final(self).data@[k].draw_cache == old(self).data@[k].draw_cache
                &&& final(self).data@[k].size == old(self).data@[k].size
                &&& final(self).data@[k].data == old(self).data@[k].data
            },
    {
        let ch = chunk_mut(&mut self.data, j);
        ch.dirty = true;
    }
}

impl ChunkManager {
    /// The coordinates of the `i`-th chunk.
    fn coords_of(&self, i: usize) -> (r: (usize, usize, usize))
        requires
            self.wf(),
            i < self.data@.len(),
        ensures
            r.0 as int == chunk_coords(self.dims, i as int).0,
            r.1 as int == chunk_coords(self.dims, i as int).1,
            r.2 as int == chunk_coords(self.dims, i as int).2,
            r.0 < self.dims.0,
            r.1 < self.dims.1,
            r.2 < self.dims.2,
            chunk_index(self.dims, r.0 as int, r.1 as int, r.2 as int) == i,
    {
        let (nx, ny, nz) = self.dims;
        proof {
            let (a, b, c) = (nx as int, ny as int, nz as int);
            assert(a * b * c == a * (b * c)) by (nonlinear_arith);
            assert(b * c <= a * b * c) by (nonlinear_arith)
                requires a >= 1, b >= 1, c >= 1;
            assert(b * c >= 1) by (nonlinear_arith)
                requires b >= 1, c >= 1;
            lemma_div_mod_bounds(i as int, (b * c), a);
            lemma_div_mod_bounds(i as int, c, a * b);
            assert(a * b * c == (a * b) * c) by (nonlinear_arith);
            vstd::arithmetic::div_mod::lemma_mod_pos_bound(i as int / c, b);
            vstd::arithmetic::div_mod::lemma_fundamental_div_mod(i as int, c);
            vstd::arithmetic::div_mod::lemma_fundamental_div_mod(i as int / c, b);
            vstd::arithmetic::div_mod::lemma_div_denominator(i as int, c, b);
            let q = i as int / c;
            assert(q / b == i as int / (c * b));
            assert(c * b == b * c) by (nonlinear_arith);
            assert((i as int / (b * c) * b + q % b) * c + i as int % c == i as int) by (nonlinear_arith)
                requires i == c * q + i as int % c, q == b * (q / b) + q % b, q / b == i as int / (b * c);
        }
        (i / (ny * nz), (i / nz) % ny, i % nz)
    }

    /// A copy of the layer of the `j`-th chunk at `level` across `axis`.
    fn build_layer(&self, j: usize, axis: u8, level: usize) -> (r: Vec<BlockInstance>)
        requires
            self.wf(),
            j < self.data@.len(),
            axis < 3,
            level < self.chunk_size,
        ensures
            r@ == layer_of(self.data@[j as int], axis as int, level as int),
    {
        let c = &self.data[j];
        let s = c.size;
        proof {
            lemma_cube_bound(s as int);
        }
        let total = s * s;
        let mut out: Vec<BlockInstance> = Vec::new();
        let mut i: usize = 0;
        while i < total
            invariant
                c.wf(),
                s == c.size,
                total == s * s,
                0 <= i <= total,
                axis < 3,
                level < s,
                out@.len() == i,
                forall|k: int| 0 <= k < i ==> #[trigger] out@[k] == layer_of(*c, axis as int, level as int)[k],
            decreases total - i,
        {
            proof {
                lemma_div_mod_bounds(i as int, s as int, s as int);
            }
            let a = i / s;
            let b = i % s;
            let bi = if axis == 0 {
                c.cell_checked(level, a, b)
            } else if axis == 1 {
                c.cell_checked(a, level, b)
            } else {
                c.cell_checked(a, b, level)
            };
            out.push(bi);
            i = i + 1;
        }
        assert(out@ =~= layer_of(*c, axis as int, level as int));
        out
    }

    /// The boundary layers around the `i`-th chunk.
    fn build_context(&self, i: usize) -> (r: ChunkDrawContext)
        requires
            self.wf(),
            i < self.data@.len(),
        ensures
            r@ == self.context_of(i as int),
    {
        let (cx, cy, cz) = self.coords_of(i);
        let (nx, ny, nz) = self.dims;
        let top = self.chunk_size - 1;
        let plus_z = if cz + 1 < nz {
            Some(self.build_layer(self.chunk_index_of(cx, cy, cz + 1), 2, 0))
        } else {
            None
        };
        let minus_z = if cz > 0 {
            Some(self.build_layer(self.chunk_index_of(cx, cy, cz - 1), 2, top))
        } else {
            None
        };
        let plus_y = if cy + 1 < ny {
            Some(self.build_layer(self.chunk_index_of(cx, cy + 1, cz), 1, 0))
        } else {
            None
        };
        let minus_y = if cy > 0 {
            Some(self.build_layer(self.chunk_index_of(cx, cy - 1, cz), 1, top))
        } else {
            None
        };
        let plus_x = if cx + 1 < nx {
            Some(self.build_layer(self.chunk_index_of(cx + 1, cy, cz), 0, 0))
        } else {
            None
        };
        let minus_x = if cx > 0 {
            Some(self.build_layer(self.chunk_index_of(cx - 1, cy, cz), 0, top))
        } else {
            None
        };
        let r = ChunkDrawContext { minus_z, plus_z, minus_y, plus_y, minus_x, plus_x };
        assert(r@ =~= self.context_of(i as int));
        r
    }

    /// Whether every cell of the world can be drawn.
    fn world_ok(&self, registry: &BlockRegistry, shape_registry: &BlockShapeRegistry) -> (r: bool)
        requires
            self.wf(),
        ensures
            r == self.drawable(registry@, shape_registry.bshapes@),
    {
        let open = ChunkDrawContext::new();
        let mut k: usize = 0;
        while k < self.data.len()
            invariant
                self.wf(),
                0 <= k <= self.data@.len(),
                open@ == seq![
                    None::<Seq<BlockInstance>>,
                    None::<Seq<BlockInstance>>,
                    None::<Seq<BlockInstance>>,
                    None::<Seq<BlockInstance>>,
                    None::<Seq<BlockInstance>>,
                    None::<Seq<BlockInstance>>,
                ],
                forall|m: int| 0 <= m < k ==> cells_drawable(#[trigger] self.data@[m], registry@, shape_registry.bshapes@),
            decreases self.data@.len() - k,
        {
            if !cells_ok(&self.data[k], &open, registry, shape_registry) {
                assert(!cells_drawable(self.data@[k as int], registry@, shape_registry.bshapes@)) by {
                    assert forall|d: int| 0 <= d < 6 implies layer_drawable(#[trigger] open@[d], registry@, shape_registry.bshapes@) by {}
                }
                return false;
            }
            k = k + 1;
        }
        true
    }

    /// Rebuilds the mesh of every stale chunk from its cells and the boundary
    /// layers of its neighbours, and marks it clean. Fails, changing nothing,
    /// when some cell of the world cannot be drawn. A stale chunk whose mesh
    /// would exceed `MAX_MESH_VERTICES` stays as it was, and the pass then
    /// reports `TooManyVertices` after rebuilding the others.
    pub fn update_dirty_chunks(&mut self, registry: &BlockRegistry, shape_registry: &BlockShapeRegistry) -> (r: Result<(), MeshError>)
        requires
            old(self).wf(),
            registry.wf(),
        ensures
            r == Err::<(), MeshError>(MeshError::InvalidCell) <==> !old(self).drawable(registry@, shape_registry.bshapes@),
            r == Err::<(), MeshError>(MeshError::InvalidCell) ==> *final(self) == *old(self),
            r is Ok <==> old(self).drawable(registry@, shape_registry.bshapes@)
                && old(self).stale_meshes_fit(registry@, shape_registry.bshapes@),
            r == Err::<(), MeshError>(MeshError::TooManyVertices) <==> old(self).drawable(registry@, shape_registry.bshapes@)
                && !old(self).stale_meshes_fit(registry@, shape_registry.bshapes@),
            old(self).drawable(registry@, shape_registry.bshapes@) ==> old(self).rebuilds_to(
                *final(self),
                registry@,
                shape_registry.bshapes@,
            ),
            old(self).meshes_current(registry@, shape_registry.bshapes@) ==> final(self).meshes_current(
                registry@,
                shape_registry.bshapes@,
            ),
    {
        if !self.world_ok(registry, shape_registry) {
            return Err(MeshError::InvalidCell);
        }
        let ghost start = *self;
        let ghost reg = registry@;
        let ghost shapes = shape_registry.bshapes@;
        let n = self.data.len();
        let s = self.chunk_size;
        let mut too_big = false;
        let mut i: usize = 0;
        while i < n
            invariant
                self.wf(),
                registry.wf(),
                reg == registry@,
                shapes == shape_registry.bshapes@,
                start.wf(),
                start.drawable(reg, shapes),
                n == start.data@.len(),
                s == start.chunk_size,
                0 <= i <= n,
                self.dims == start.dims,
                self.chunk_size == start.chunk_size,
                self.data@.len() == n,
                forall|k: int| 0 <= k < n ==> (#[trigger] self.data@[k]).data == start.data@[k].data
                    && self.data@[k].size == start.data@[k].size,
                forall|k: int| i <= k < n ==> #[trigger] self.data@[k] == start.data@[k],
                forall|k: int| 0 <= k < i ==> {
                    &&& (start.data@[k].dirty && mesh_fits(start.rebuilt_mesh(k, reg, shapes))) ==> {
                        let m = start.rebuilt_mesh(k, reg, shapes);
                        &&& !(#[trigger] self.data@[k]).dirty
                        &&& self.data@[k].draw_cache.vertices@ == m.0
                        &&& self.data@[k].draw_cache.indices@ == m.1
                    }
                    &&& !(start.data@[k].dirty && mesh_fits(start.rebuilt_mesh(k, reg, shapes))) ==> self.data@[k] == start.data@[k]
                },
                too_big <==> exists|k: int| 0 <= k < i && (#[trigger] start.data@[k]).dirty && !mesh_fits(start.rebuilt_mesh(k, reg, shapes)),
            decreases n - i,
        {
            if self.data[i].dirty {
                let cdc = self.build_context(i);
                proof {
                    lemma_context_same(*self, start, i as int);
                    lemma_context_drawable(start, i as int, reg, shapes);
                }
                let (cx, cy, cz) = self.coords_of(i);
                proof {
                    lemma_origin_bound(cx as int, self.dims.0 as int, s as int);
                    lemma_origin_bound(cy as int, self.dims.1 as int, s as int);
                    lemma_origin_bound(cz as int, self.dims.2 as int, s as int);
                }
                let origin = (cx * s, cy * s, cz * s);
                assert(self.data@[i as int] == start.data@[i as int]);
                assert(cdc@ == start.context_of(i as int));
                assert(context_shaped(self.data@[i as int], cdc@));
                assert(chunk_drawable(self.data@[i as int], cdc@, reg, shapes));
                let ch = chunk_mut(&mut self.data, i);
                let res = ch.update_draw_cache(origin, registry, shape_registry, cdc);
                if res.is_err() {
                    too_big = true;
                }
            }
            i = i + 1;
        }
        assert(self.wf());
        proof {
            if start.meshes_current(reg, shapes) {
                assert(start.rebuilds_to(*self, reg, shapes));
                lemma_rebuild_keeps_current(start, *self, reg, shapes);
            }
        }
        if too_big {
            Err(MeshError::TooManyVertices)
        } else {
            Ok(())
        }
    }

    /// The meshes of all chunks that have any geometry.
    pub fn get_render_chunks(&self) -> (r: Vec<ChunkDrawCache>)
        ensures
            r@.len() == render_meshes(self.data@, self.data@.len() as int).len(),
            forall|j: int| 0 <= j < r@.len() ==> (#[trigger] r@[j]).vertices@ == render_meshes(
                self.data@,
                self.data@.len() as int,
            )[j].0 && r@[j].indices@ == render_meshes(self.data@, self.data@.len() as int)[j].1,
    {
        let mut cache_vec: Vec<ChunkDrawCache> = Vec::new();
        let mut k: usize = 0;
        while k < self.data.len()
            invariant
                0 <= k <= self.data@.len(),
                cache_vec@.len() == render_meshes(self.data@, k as int).len(),
                forall|j: int| 0 <= j < cache_vec@.len() ==> (#[trigger] cache_vec@[j]).vertices@
                    == render_meshes(self.data@, k as int)[j].0 && cache_vec@[j].indices@
                    == render_meshes(self.data@, k as int)[j].1,
            decreases self.data@.len() - k,
        {
            let cache = &self.data[k].draw_cache;
            if !cache.is_empty() {
                cache_vec.push(cache.duplicate());
            }
            k = k + 1;
        }
        cache_vec
    }
}

impl ChunkManager {
    /// The starting world: `WORLD_CHUNKS`³ chunks of `CHUNK_SIZE`³ cells; the
    /// two lowest layers of chunks are filled with block 1, the rest with air.
    pub fn new() -> (r: ChunkManager)
        ensures
            r.wf(),
            r.dims == (WORLD_CHUNKS, WORLD_CHUNKS, WORLD_CHUNKS),
            r.chunk_size == CHUNK_SIZE,
            forall|i: int| 0 <= i < r.data@.len() ==> {
                &&& (#[trigger] r.data@[i]).dirty
                &&& r.data@[i].draw_cache.vertices@.len() == 0
                &&& r.data@[i].draw_cache.indices@.len() == 0
                &&& grid_cells(r.data@[i].data) == Seq::new(
                    (CHUNK_SIZE * CHUNK_SIZE * CHUNK_SIZE) as nat,
                    |k: int|
                        BlockInstance {
                            blockdef: if chunk_coords(r.dims, i).1 < 2 { 1 } else { 0 },
                            exparam: 0,
                            light: 255,
                        },
                )
            },
    {
        let dims = (WORLD_CHUNKS, WORLD_CHUNKS, WORLD_CHUNKS);
        let total = WORLD_CHUNKS * WORLD_CHUNKS * WORLD_CHUNKS;
        let mut data: Vec<Chunk> = Vec::new();
        let mut i: usize = 0;
        while i < total
            invariant
                0 <= i <= total,
                total == WORLD_CHUNKS * WORLD_CHUNKS * WORLD_CHUNKS,
                dims == (WORLD_CHUNKS, WORLD_CHUNKS, WORLD_CHUNKS),
                data@.len() == i,
                forall|k: int| 0 <= k < i ==> {
                    &&& (#[trigger] data@[k]).wf()
                    &&& data@[k].size == CHUNK_SIZE
                    &&& data@[k].dirty
                    &&& data@[k].draw_cache.vertices@.len() == 0
                    &&& data@[k].draw_cache.indices@.len() == 0
                    &&& grid_cells(data@[k].data) == Seq::new(
                        (CHUNK_SIZE * CHUNK_SIZE * CHUNK_SIZE) as nat,
                        |m: int|
                            BlockInstance {
                                blockdef: if chunk_coords(dims, k).1 < 2 { 1 } else { 0 },
                                exparam: 0,
                                light: 255,
                            },
                    )
                },
            decreases total - i,
        {
            let cy = (i / WORLD_CHUNKS) % WORLD_CHUNKS;
            let blockdef: u16 = if cy < 2 { 1 } else { 0 };
            let proto_bi = BlockInstance { blockdef, exparam: 0, light: 255 };
            let ch = Chunk::from_blockinstance(proto_bi);
            proof {
                assert(dims.1 as int == 8 && dims.2 as int == 8);
                assert(chunk_coords(dims, i as int).1 == (i as int / 8) % 8);
                assert(chunk_coords(dims, i as int).1 == cy);
                assert(grid_cells(ch.data) =~= Seq::new(
                    (CHUNK_SIZE * CHUNK_SIZE * CHUNK_SIZE) as nat,
                    |m: int|
                        BlockInstance {
                            blockdef: if chunk_coords(dims, i as int).1 < 2 { 1 } else { 0 },
                            exparam: 0,
                            light: 255,
                        },
                ));
            }
            data.push(ch);
            i = i + 1;
        }
        ChunkManager { data, dims, chunk_size: CHUNK_SIZE }
    }
}

/// The mesh of a chunk depends on its cells and size alone.
proof fn lemma_chunk_mesh_same(
    c1: Chunk,
    c2: Chunk,
    ctx: Seq<Option<Seq<BlockInstance>>>,
    reg: Seq<Block>,
    shapes: Seq<BlockShape>,
    world_pos: (usize, usize, usize),
    k: int,
)
    requires
        grid_cells(c1.data) == grid_cells(c2.data),
        c1.size == c2.size,
    ensures
        chunk_mesh(c1, ctx, reg, shapes, world_pos, k) == chunk_mesh(c2, ctx, reg, shapes, world_pos, k),
    decreases k,
{
    if k > 0 {
        lemma_chunk_mesh_same(c1, c2, ctx, reg, shapes, world_pos, k - 1);
        let (x, y, z) = decode(c1.size as int, k - 1);
        assert(cell_obstructions(c1, ctx, reg, shapes, x, y, z) =~= cell_obstructions(c2, ctx, reg, shapes, x, y, z));
    }
}

/// Rebuilding reproduces the same mesh: in two worlds whose chunks hold the
/// same cells, every chunk rebuilds to the same vertices and indices, whatever
/// their meshes and dirty flags were before.
pub proof fn lemma_rebuild_reproducible(
    m1: ChunkManager,
    m2: ChunkManager,
    i: int,
    reg: Seq<Block>,
    shapes: Seq<BlockShape>,
)
    requires
        m1.wf(),
        m2.wf(),
        m1.dims == m2.dims,
        m1.chunk_size == m2.chunk_size,
        forall|k: int| 0 <= k < m1.data@.len() ==> grid_cells((#[trigger] m1.data@[k]).data) == grid_cells(m2.data@[k].data),
        0 <= i < m1.data@.len(),
    ensures
        m1.rebuilt_mesh(i, reg, shapes) == m2.rebuilt_mesh(i, reg, shapes),
{
    lemma_context_same(m1, m2, i);
    let s = m1.chunk_size as int;
    lemma_chunk_mesh_same(m1.data@[i], m2.data@[i], m1.context_of(i), reg, shapes, m1.chunk_origin(i), s * s * s);
}

/// A second rebuild pass right after a first changes nothing: every chunk it
/// could rebuild is clean, and every chunk it left stale would rebuild to the
/// same oversized mesh again, so every chunk stays as the first pass left it.
pub proof fn lemma_second_pass_keeps_meshes(
    m0: ChunkManager,
    m1: ChunkManager,
    m2: ChunkManager,
    reg: Seq<Block>,
    shapes: Seq<BlockShape>,
)
    requires
        m0.wf(),
        m0.rebuilds_to(m1, reg, shapes),
        m1.rebuilds_to(m2, reg, shapes),
    ensures
        m2.data@.len() == m1.data@.len(),
        forall|i: int| 0 <= i < m1.data@.len() ==> (#[trigger] m2.data@[i]) == m1.data@[i],
{
    assert forall|i: int| 0 <= i < m1.data@.len() implies (#[trigger] m2.data@[i]) == m1.data@[i] by {
        lemma_rebuild_reproducible(m0, m1, i, reg, shapes);
    }
}

/// A rebuild pass keeps every clean mesh current: a chunk it rebuilt holds
/// the mesh of its unchanged cells, and a chunk it left clean already did.
pub proof fn lemma_rebuild_keeps_current(m0: ChunkManager, m1: ChunkManager, reg: Seq<Block>, shapes: Seq<BlockShape>)
    requires
        m0.wf(),
        m0.rebuilds_to(m1, reg, shapes),
        m0.meshes_current(reg, shapes),
    ensures
        m1.meshes_current(reg, shapes),
{
    assert forall|i: int| 0 <= i < m1.data@.len() && !(#[trigger] m1.data@[i]).dirty implies {
        &&& m1.data@[i].draw_cache.vertices@ == m1.rebuilt_mesh(i, reg, shapes).0
        &&& m1.data@[i].draw_cache.indices@ == m1.rebuilt_mesh(i, reg, shapes).1
    } by {
        lemma_rebuild_reproducible(m0, m1, i, reg, shapes);
    }
}

/// A world whose chunks are all stale has every clean mesh current.
pub proof fn lemma_all_stale_current(m: ChunkManager, reg: Seq<Block>, shapes: Seq<BlockShape>)
    requires
        forall|i: int| 0 <= i < m.data@.len() ==> (#[trigger] m.data@[i]).dirty,
    ensures
        m.meshes_current(reg, shapes),
{
}

/// Distinct coordinates inside a cube of side `s` have distinct row-major indices.
proof fn lemma_index_injective(s: int, t: int, x: int, y: int, z: int, x2: int, y2: int, z2: int)
    requires
        1 <= s,
        1 <= t,
        0 <= y < s,
        0 <= y2 < s,
        0 <= z < t,
        0 <= z2 < t,
        0 <= x,
        0 <= x2,
        (x * s + y) * t + z == (x2 * s + y2) * t + z2,
    ensures
        x == x2 && y == y2 && z == z2,
{
    let i = (x * s + y) * t + z;
    assert(x * s + y >= 0 && x2 * s + y2 >= 0) by (nonlinear_arith)
        requires 0 <= x, 0 <= x2, 0 <= y, 0 <= y2, s >= 1;
    vstd::arithmetic::div_mod::lemma_fundamental_div_mod_converse(i, t, x * s + y, z);
    vstd::arithmetic::div_mod::lemma_fundamental_div_mod_converse(i, t, x2 * s + y2, z2);
    vstd::arithmetic::div_mod::lemma_fundamental_div_mod_converse(x * s + y, s, x, y);
    vstd::arithmetic::div_mod::lemma_fundamental_div_mod_converse(x2 * s + y2, s, x2, y2);
}

/// The chunk at the coordinates of the `j`-th chunk is the `j`-th chunk.
proof fn lemma_coords_index(d: (usize, usize, usize), j: int)
    requires
        1 <= d.0 && 1 <= d.1 && 1 <= d.2,
        0 <= j < d.0 * d.1 * d.2,
    ensures
        chunk_index(d, chunk_coords(d, j).0, chunk_coords(d, j).1, chunk_coords(d, j).2) == j,
{
    let (b, c) = (d.1 as int, d.2 as int);
    lemma_coords_bounds(d, j);
    assert(b * c >= 1) by (nonlinear_arith)
        requires b >= 1, c >= 1;
    vstd::arithmetic::div_mod::lemma_fundamental_div_mod(j, c);
    vstd::arithmetic::div_mod::lemma_fundamental_div_mod(j / c, b);
    vstd::arithmetic::div_mod::lemma_div_denominator(j, c, b);
    let q = j / c;
    assert(c * b == b * c) by (nonlinear_arith);
    assert((j / (b * c) * b + q % b) * c + j % c == j) by (nonlinear_arith)
        requires j == c * q + j % c, q == b * (q / b) + q % b, q / b == j / (b * c);
}

/// A layer that avoids the edited cell is the same after the edit.
proof fn lemma_layer_avoids_edit(c0: Chunk, c1: Chunk, axis: int, level: int, p: (int, int, int), v: BlockInstance)
    requires
        c0.wf(),
        c1.size == c0.size,
        0 <= level < c0.size,
        0 <= p.0 < c0.size && 0 <= p.1 < c0.size && 0 <= p.2 < c0.size,
        0 <= axis < 3,
        comp(p, axis) != level,
        grid_cells(c1.data) == grid_cells(c0.data).update(cell_index(c0.size as int, p.0, p.1, p.2), v),
    ensures
        layer_of(c1, axis, level) == layer_of(c0, axis, level),
{
    let s = c0.size as int;
    assert forall|k: int| 0 <= k < s * s implies #[trigger] layer_of(c1, axis, level)[k] == layer_of(c0, axis, level)[k] by {
        lemma_div_mod_bounds(k, s, s);
        let (a, b) = (k / s, k % s);
        let q = if axis == 0 { (level, a, b) } else if axis == 1 { (a, level, b) } else { (a, b, level) };
        lemma_cell_index_bounds(s, q.0, q.1, q.2);
        lemma_cell_index_bounds(s, p.0, p.1, p.2);
        assert(comp(q, axis) == level);
        assert(layer_of(c1, axis, level)[k] == cell(c1, q.0, q.1, q.2));
        assert(layer_of(c0, axis, level)[k] == cell(c0, q.0, q.1, q.2));
        if cell_index(s, q.0, q.1, q.2) == cell_index(s, p.0, p.1, p.2) {
            lemma_index_injective(s, s, q.0, q.1, q.2, p.0, p.1, p.2);
        }
        assert(cell_index(s, q.0, q.1, q.2) != cell_index(s, p.0, p.1, p.2));
    }
    assert(layer_of(c1, axis, level) =~= layer_of(c0, axis, level));
}

/// A neighbouring layer read by an unedited chunk is the same after the edit,
/// unless it is the layer of the edited chunk that holds the edited cell.
proof fn lemma_neighbor_layer_after_edit(
    m0: ChunkManager,
    m1: ChunkManager,
    wp: (usize, usize, usize),
    v: BlockInstance,
    nb: (int, int, int),
    axis: int,
    level: int,
)
    requires
        m0.wf(),
        m0.contains(wp),
        m0.edits_to(m1, wp, v),
        0 <= nb.0 < m0.dims.0 && 0 <= nb.1 < m0.dims.1 && 0 <= nb.2 < m0.dims.2,
        0 <= axis < 3,
        0 <= level < m0.chunk_size,
        chunk_index(m0.dims, nb.0, nb.1, nb.2) == m0.owner(wp) ==> comp(
            (wp.0 as int % (m0.chunk_size as int), wp.1 as int % (m0.chunk_size as int), wp.2 as int % (m0.chunk_size as int)),
            axis,
        ) != level,
    ensures
        layer_of(m1.chunk_at(nb.0, nb.1, nb.2), axis, level) == layer_of(m0.chunk_at(nb.0, nb.1, nb.2), axis, level),
{
    let s = m0.chunk_size as int;
    let d = m0.dims;
    lemma_chunk_index_bounds(d, nb.0, nb.1, nb.2);
    let k = chunk_index(d, nb.0, nb.1, nb.2);
    if k == m0.owner(wp) {
        lemma_div_mod_bounds(wp.0 as int, s, d.0 as int);
        lemma_div_mod_bounds(wp.1 as int, s, d.1 as int);
        lemma_div_mod_bounds(wp.2 as int, s, d.2 as int);
        lemma_layer_avoids_edit(
            m0.data@[k],
            m1.data@[k],
            axis,
            level,
            (wp.0 as int % s, wp.1 as int % s, wp.2 as int % s),
            v,
        );
    } else {
        lemma_layer_same(m1.data@[k], m0.data@[k], axis, level);
    }
}

/// An edit keeps every clean mesh current: a chunk whose cells or boundary
/// layers hold the edited cell is marked stale, and every other chunk
/// rebuilds to the same mesh as before.
pub proof fn lemma_edit_keeps_current(
    m0: ChunkManager,
    m1: ChunkManager,
    wp: (usize, usize, usize),
    v: BlockInstance,
    reg: Seq<Block>,
    shapes: Seq<BlockShape>,
)
    requires
        m0.wf(),
        m0.contains(wp),
        m0.edits_to(m1, wp, v),
        m0.meshes_current(reg, shapes),
    ensures
        m1.meshes_current(reg, shapes),
{
    let s = m0.chunk_size as int;
    let d = m0.dims;
    let (nx, ny, nz) = (d.0 as int, d.1 as int, d.2 as int);
    lemma_div_mod_bounds(wp.0 as int, s, nx);
    lemma_div_mod_bounds(wp.1 as int, s, ny);
    lemma_div_mod_bounds(wp.2 as int, s, nz);
    let (cx, cy, cz) = (wp.0 as int / s, wp.1 as int / s, wp.2 as int / s);
    let (lx, ly, lz) = (wp.0 as int % s, wp.1 as int % s, wp.2 as int % s);
    assert forall|j: int| 0 <= j < m1.data@.len() && !(#[trigger] m1.data@[j]).dirty implies {
        &&& m1.data@[j].draw_cache.vertices@ == m1.rebuilt_mesh(j, reg, shapes).0
        &&& m1.data@[j].draw_cache.indices@ == m1.rebuilt_mesh(j, reg, shapes).1
    } by {
        assert(!m0.marks_dirty(wp, j) && !m0.data@[j].dirty);
        lemma_coords_bounds(d, j);
        lemma_coords_index(d, j);
        let (jx, jy, jz) = chunk_coords(d, j);
        // A neighbour of `j` that is the edited chunk puts `j` next to it.
        if jz + 1 < nz && chunk_index(d, jx, jy, jz + 1) == m0.owner(wp) {
            lemma_chunk_index_bounds(d, cx, cy, cz);
            lemma_index_injective(ny, nz, jx, jy, jz + 1, cx, cy, cz);
        }
        if jz + 1 < nz {
            lemma_neighbor_layer_after_edit(m0, m1, wp, v, (jx, jy, jz + 1), 2, 0);
        }
        if jz > 0 && chunk_index(d, jx, jy, jz - 1) == m0.owner(wp) {
            lemma_index_injective(ny, nz, jx, jy, jz - 1, cx, cy, cz);
        }
        if jz > 0 {
            lemma_neighbor_layer_after_edit(m0, m1, wp, v, (jx, jy, jz - 1), 2, s - 1);
        }
        if jy + 1 < ny && chunk_index(d, jx, jy + 1, jz) == m0.owner(wp) {
            lemma_index_injective(ny, nz, jx, jy + 1, jz, cx, cy, cz);
        }
        if jy + 1 < ny {
            lemma_neighbor_layer_after_edit(m0, m1, wp, v, (jx, jy + 1, jz), 1, 0);
        }
        if jy > 0 && chunk_index(d, jx, jy - 1, jz) == m0.owner(wp) {
            lemma_index_injective(ny, nz, jx, jy - 1, jz, cx, cy, cz);
        }
        if jy > 0 {
            lemma_neighbor_layer_after_edit(m0, m1, wp, v, (jx, jy - 1, jz), 1, s - 1);
        }
        if jx + 1 < nx && chunk_index(d, jx + 1, jy, jz) == m0.owner(wp) {
            lemma_index_injective(ny, nz, jx + 1, jy, jz, cx, cy, cz);
        }
        if jx + 1 < nx {
            lemma_neighbor_layer_after_edit(m0, m1, wp, v, (jx + 1, jy, jz), 0, 0);
        }
        if jx > 0 && chunk_index(d, jx - 1, jy, jz) == m0.owner(wp) {
            lemma_index_injective(ny, nz, jx - 1, jy, jz, cx, cy, cz);
        }
        if jx > 0 {
            lemma_neighbor_layer_after_edit(m0, m1, wp, v, (jx - 1, jy, jz), 0, s - 1);
        }
        assert(m1.context_of(j) =~= m0.context_of(j));
        lemma_chunk_mesh_same(m1.data@[j], m0.data@[j], m0.context_of(j), reg, shapes, m0.chunk_origin(j), s * s * s);
    }
}

/// Rebuilding after marking chunks stale reproduces the same meshes: in a
/// clean world whose meshes are current, writing a cell's own value back and
/// then rebuilding leaves every mesh that fits as it was.
pub proof fn lemma_remark_reproduces(
    m0: ChunkManager,
    m1: ChunkManager,
    m2: ChunkManager,
    wp: (usize, usize, usize),
    reg: Seq<Block>,
    shapes: Seq<BlockShape>,
)
    requires
        m0.wf(),
        m0.contains(wp),
        forall|i: int| 0 <= i < m0.data@.len() ==> !(#[trigger] m0.data@[i]).dirty,
        m0.meshes_current(reg, shapes),
        m0.edits_to(m1, wp, m0.world_cell(wp)),
        m1.rebuilds_to(m2, reg, shapes),
    ensures
        forall|i: int| 0 <= i < m0.data@.len() ==> (#[trigger] m2.data@[i]).draw_cache.vertices@
            == m0.data@[i].draw_cache.vertices@ && m2.data@[i].draw_cache.indices@ == m0.data@[i].draw_cache.indices@,
{
    let s = m0.chunk_size as int;
    let d = m0.dims;
    lemma_div_mod_bounds(wp.0 as int, s, d.0 as int);
    lemma_div_mod_bounds(wp.1 as int, s, d.1 as int);
    lemma_div_mod_bounds(wp.2 as int, s, d.2 as int);
    let o = m0.owner(wp);
    lemma_chunk_index_bounds(d, wp.0 as int / s, wp.1 as int / s, wp.2 as int / s);
    lemma_cell_index_bounds(s, wp.0 as int % s, wp.1 as int % s, wp.2 as int % s);
    assert(grid_cells(m1.data@[o].data) =~= grid_cells(m0.data@[o].data));
    assert forall|i: int| 0 <= i < m0.data@.len() implies (#[trigger] m2.data@[i]).draw_cache.vertices@
        == m0.data@[i].draw_cache.vertices@ && m2.data@[i].draw_cache.indices@ == m0.data@[i].draw_cache.indices@ by {
        lemma_rebuild_reproducible(m0, m1, i, reg, shapes);
    }
}

/// Editing a cell on the low x side of its chunk marks the chunk below it in
/// x stale, where there is one.
pub proof fn lemma_edit_marks_low_x_neighbor(m: ChunkManager, world_pos: (usize, usize, usize))
    requires
        m.wf(),
        m.contains(world_pos),
        world_pos.0 as int % (m.chunk_size as int) == 0,
        world_pos.0 as int / (m.chunk_size as int) > 0,
    ensures
        m.marks_dirty(
            world_pos,
            chunk_index(
                m.dims,
                world_pos.0 as int / (m.chunk_size as int) - 1,
                world_pos.1 as int / (m.chunk_size as int),
                world_pos.2 as int / (m.chunk_size as int),
            ),
        ),
{
}

/// Editing a cell one step inside the low x side of its chunk, away from the
/// other sides, leaves the chunk below it in x alone.
pub proof fn lemma_interior_edit_spares_low_x_neighbor(m: ChunkManager, world_pos: (usize, usize, usize))
    requires
        m.wf(),
        m.contains(world_pos),
        m.chunk_size >= 3,
        world_pos.0 as int % (m.chunk_size as int) == 1,
        0 < world_pos.1 as int % (m.chunk_size as int) < m.chunk_size - 1,
        0 < world_pos.2 as int % (m.chunk_size as int) < m.chunk_size - 1,
        world_pos.0 as int / (m.chunk_size as int) > 0,
    ensures
        !m.marks_dirty(
            world_pos,
            chunk_index(
                m.dims,
                world_pos.0 as int / (m.chunk_size as int) - 1,
                world_pos.1 as int / (m.chunk_size as int),
                world_pos.2 as int / (m.chunk_size as int),
            ),
        ),
{
    let s = m.chunk_size as int;
    let (cx, cy, cz) = (world_pos.0 as int / s, world_pos.1 as int / s, world_pos.2 as int / s);
    let (ny, nz) = (m.dims.1 as int, m.dims.2 as int);
    assert(chunk_index(m.dims, cx - 1, cy, cz) < chunk_index(m.dims, cx, cy, cz)) by (nonlinear_arith)
        requires ny >= 1, nz >= 1, cy >= 0, cz >= 0, cx >= 1,
            chunk_index(m.dims, cx - 1, cy, cz) == ((cx - 1) * ny + cy) * nz + cz,
            chunk_index(m.dims, cx, cy, cz) == (cx * ny + cy) * nz + cz;
}

/// The meshes, in order, of those of the first `k` chunks whose mesh has vertices.
pub open spec fn render_meshes(chunks: Seq<Chunk>, k: int) -> Seq<(Seq<MeshVertex>, Seq<u16>)>
    decreases k,
{
    if k <= 0 {
        Seq::empty()
    } else {
        let prev = render_meshes(chunks, k - 1);
        let c = chunks[k - 1].draw_cache;
        if c.vertices@.len() == 0 {
            prev
        } else {
            prev.push((c.vertices@, c.indices@))
        }
    }
}

proof fn lemma_origin_bound(c: int, n: int, s: int)
    requires
        0 <= c < n,
        1 <= s,
        n * s <= COORD_BOUND,
    ensures
        0 <= c * s,
        c * s + s <= COORD_BOUND,
{
    assert(0 <= c * s && c * s + s <= n * s) by (nonlinear_arith)
        requires 0 <= c < n, 1 <= s;
}

/// A layer depends on the cells and size of its chunk alone.
proof fn lemma_layer_same(c1: Chunk, c2: Chunk, axis: int, level: int)
    requires
        grid_cells(c1.data) == grid_cells(c2.data),
        c1.size == c2.size,
    ensures
        layer_of(c1, axis, level) == layer_of(c2, axis, level),
{
    assert(layer_of(c1, axis, level) =~= layer_of(c2, axis, level));
}

/// The boundary layers of a chunk depend on the cells of the chunks alone.
proof fn lemma_context_same(m1: ChunkManager, m2: ChunkManager, i: int)
    requires
        m1.dims == m2.dims,
        m1.chunk_size == m2.chunk_size,
        m1.data@.len() == m2.data@.len(),
        m1.data@.len() == m1.dims.0 * m1.dims.1 * m1.dims.2,
        1 <= m1.dims.0 && 1 <= m1.dims.1 && 1 <= m1.dims.2,
        forall|k: int| 0 <= k < m1.data@.len() ==> grid_cells((#[trigger] m1.data@[k]).data) == grid_cells(m2.data@[k].data)
            && m1.data@[k].size == m2.data@[k].size,
        0 <= i < m1.data@.len(),
    ensures
        m1.context_of(i) == m2.context_of(i),
{
    let (cx, cy, cz) = chunk_coords(m1.dims, i);
    let s = m1.chunk_size as int;
    let d = m1.dims;
    lemma_coords_bounds(d, i);
    if cz + 1 < d.2 {
        lemma_chunk_index_bounds(d, cx, cy, cz + 1);
        lemma_layer_same(m1.chunk_at(cx, cy, cz + 1), m2.chunk_at(cx, cy, cz + 1), 2, 0);
    }
    if cz > 0 {
        lemma_chunk_index_bounds(d, cx, cy, cz - 1);
        lemma_layer_same(m1.chunk_at(cx, cy, cz - 1), m2.chunk_at(cx, cy, cz - 1), 2, s - 1);
    }
    if cy + 1 < d.1 {
        lemma_chunk_index_bounds(d, cx, cy + 1, cz);
        lemma_layer_same(m1.chunk_at(cx, cy + 1, cz), m2.chunk_at(cx, cy + 1, cz), 1, 0);
    }
    if cy > 0 {
        lemma_chunk_index_bounds(d, cx, cy - 1, cz);
        lemma_layer_same(m1.chunk_at(cx, cy - 1, cz), m2.chunk_at(cx, cy - 1, cz), 1, s - 1);
    }
    if cx + 1 < d.0 {
        lemma_chunk_index_bounds(d, cx + 1, cy, cz);
        lemma_layer_same(m1.chunk_at(cx + 1, cy, cz), m2.chunk_at(cx + 1, cy, cz), 0, 0);
    }
    if cx > 0 {
        lemma_chunk_index_bounds(d, cx - 1, cy, cz);
        lemma_layer_same(m1.chunk_at(cx - 1, cy, cz), m2.chunk_at(cx - 1, cy, cz), 0, s - 1);
    }
    assert(m1.context_of(i) =~= m2.context_of(i));
}

proof fn lemma_coords_bounds(d: (usize, usize, usize), i: int)
    requires
        1 <= d.0 && 1 <= d.1 && 1 <= d.2,
        0 <= i < d.0 * d.1 * d.2,
    ensures
        0 <= chunk_coords(d, i).0 < d.0,
        0 <= chunk_coords(d, i).1 < d.1,
        0 <= chunk_coords(d, i).2 < d.2,
{
    let (a, b, c) = (d.0 as int, d.1 as int, d.2 as int);
    assert(a * b * c == a * (b * c)) by (nonlinear_arith);
    assert(b * c >= 1) by (nonlinear_arith)
        requires b >= 1, c >= 1;
    lemma_div_mod_bounds(i, b * c, a);
    vstd::arithmetic::div_mod::lemma_mod_pos_bound(i / c, b);
    vstd::arithmetic::div_mod::lemma_mod_pos_bound(i, c);
}

/// The layer of a chunk whose cells can all be drawn can be drawn, and has
/// `size * size` instances.
proof fn lemma_layer_drawable(c: Chunk, axis: int, level: int, reg: Seq<Block>, shapes: Seq<BlockShape>)
    requires
        c.wf(),
        cells_drawable(c, reg, shapes),
        0 <= level < c.size,
    ensures
        seq_drawable(layer_of(c, axis, level), reg, shapes),
        layer_of(c, axis, level).len() == c.size * c.size,
{
    let s = c.size as int;
    let l = layer_of(c, axis, level);
    assert forall|k: int| 0 <= k < l.len() implies instance_ok(reg, shapes, #[trigger] l[k]) by {
        lemma_div_mod_bounds(k, s, s);
        if axis == 0 {
            lemma_cell_index_bounds(s, level, k / s, k % s);
        } else if axis == 1 {
            lemma_cell_index_bounds(s, k / s, level, k % s);
        } else {
            lemma_cell_index_bounds(s, k / s, k % s, level);
        }
    }
}

/// In a world whose cells can all be drawn, every chunk can be drawn with its
/// boundary layers.
proof fn lemma_context_drawable(m: ChunkManager, i: int, reg: Seq<Block>, shapes: Seq<BlockShape>)
    requires
        m.wf(),
        m.drawable(reg, shapes),
        0 <= i < m.data@.len(),
    ensures
        context_shaped(m.data@[i], m.context_of(i)),
        chunk_drawable(m.data@[i], m.context_of(i), reg, shapes),
{
    let (cx, cy, cz) = chunk_coords(m.dims, i);
    let s = m.chunk_size as int;
    let d = m.dims;
    let ctx = m.context_of(i);
    lemma_coords_bounds(d, i);
    if cz + 1 < d.2 {
        lemma_chunk_index_bounds(d, cx, cy, cz + 1);
        lemma_layer_drawable(m.chunk_at(cx, cy, cz + 1), 2, 0, reg, shapes);
    }
    if cz > 0 {
        lemma_chunk_index_bounds(d, cx, cy, cz - 1);
        lemma_layer_drawable(m.chunk_at(cx, cy, cz - 1), 2, s - 1, reg, shapes);
    }
    if cy + 1 < d.1 {
        lemma_chunk_index_bounds(d, cx, cy + 1, cz);
        lemma_layer_drawable(m.chunk_at(cx, cy + 1, cz), 1, 0, reg, shapes);
    }
    if cy > 0 {
        lemma_chunk_index_bounds(d, cx, cy - 1, cz);
        lemma_layer_drawable(m.chunk_at(cx, cy - 1, cz), 1, s - 1, reg, shapes);
    }
    if cx + 1 < d.0 {
        lemma_chunk_index_bounds(d, cx + 1, cy, cz);
        lemma_layer_drawable(m.chunk_at(cx + 1, cy, cz), 0, 0, reg, shapes);
    }
    if cx > 0 {
        lemma_chunk_index_bounds(d, cx - 1, cy, cz);
        lemma_layer_drawable(m.chunk_at(cx - 1, cy, cz), 0, s - 1, reg, shapes);
    }
    assert forall|e: int| 0 <= e < 6 implies layer_drawable(#[trigger] ctx[e], reg, shapes) by {}
    assert forall|e: int| 0 <= e < 6 implies match #[trigger] ctx[e] {
        Some(v) => v.len() == m.data@[i].size * m.data@[i].size,
        None => true,
    } by {}
}

/// The `i`-th chunk, for an edit.
fn chunk_mut(v: &mut Vec<Chunk>, i: usize) -> (r: &mut Chunk)
    requires
        i < old(v)@.len(),
    ensures
        *r == old(v)@[i as int],
        final(v)@ == old(v)@.update(i as int, *final(r)),
{
    &mut v[i]
}

/// `w / s < n` and `w % s < s` for `w < n * s`.
proof fn lemma_div_mod_bounds(w: int, s: int, n: int)
    requires
        1 <= s,
        0 <= w < n * s,
    ensures
        0 <= w / s < n,
        0 <= w % s < s,
{
    vstd::arithmetic::div_mod::lemma_fundamental_div_mod(w, s);
    vstd::arithmetic::div_mod::lemma_mod_pos_bound(w, s);
    vstd::arithmetic::div_mod::lemma_div_pos_is_pos(w, s);
    assert(w / s < n) by (nonlinear_arith)
        requires w == s * (w / s) + w % s, 0 <= w % s, w < n * s, s >= 1;
}

/// Chunk indices of coordinates inside the world are inside the chunk list.
proof fn lemma_chunk_index_bounds(dims: (usize, usize, usize), cx: int, cy: int, cz: int)
    requires
        0 <= cx < dims.0,
        0 <= cy < dims.1,
        0 <= cz < dims.2,
    ensures
        0 <= chunk_index(dims, cx, cy, cz) < dims.0 * dims.1 * dims.2,
        0 <= cx * dims.1 + cy < dims.0 * dims.1,
        dims.0 * dims.1 <= dims.0 * dims.1 * dims.2,
        0 <= (cx * dims.1 + cy) * dims.2 <= chunk_index(dims, cx, cy, cz),
{
    let (nx, ny, nz) = (dims.0 as int, dims.1 as int, dims.2 as int);
    assert(0 <= cx * ny + cy < nx * ny) by (nonlinear_arith)
        requires 0 <= cx < nx, 0 <= cy < ny;
    assert(0 <= (cx * ny + cy) * nz + cz < nx * ny * nz) by (nonlinear_arith)
        requires 0 <= cx * ny + cy < nx * ny, 0 <= cz < nz;
    assert(nx * ny <= nx * ny * nz) by (nonlinear_arith)
        requires nx >= 1, ny >= 1, nz >= 1;
    assert(0 <= (cx * ny + cy) * nz) by (nonlinear_arith)
        requires 0 <= cx * ny + cy, nz >= 0;
}

} // verus!

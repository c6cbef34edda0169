//! Block types, block shapes and the geometry a shape emits for one cell.
//!
//! Geometry is exact. Shape-local positions and texture coordinates are
//! counted in half units (the unit cube spans -1..=1), and an emitted vertex
//! carries an integer numerator and a positive denominator for its position.
use vstd::prelude::*;
use crate::wctx::rotation_group::{
    arc_spec, face_of, num_to_re, num_to_rf, num_to_rv, re_at, re_vec, rf_at, rf_index, rf_to_num,
    rf_vec, rotate_rf, rv_at, rv_vec, bounded_by, generate_quat_from_re, generate_quat_from_rf,
    generate_quat_from_rv, rf_to_vector, vector_to_rf, IVec3, RotFace, RotType, Rotation,
    RE_ZERO, RF_ZERO, RV_ZERO, lemma_identity_apply,
};

verus! {

/// A block type.
pub struct Block {
    pub registry_id: u16,
    pub shape_id: u32,
    /// Texture index for each face of the shape; faces past the end use the last entry.
    pub textures: Vec<u32>,
    pub pretty_name: String,
    pub transparent: bool,
}

/// The texture index for face `f` of a block: `textures[min(f, len - 1)]`.
pub open spec fn texture_for(block: Block, f: int) -> u32 {
    let n = block.textures@.len();
    if f < n - 1 {
        block.textures@[f]
    } else {
        block.textures@[n - 1]
    }
}

/// The append-only table of block types; id 0 is air.
pub struct BlockRegistry {
    blocks: Vec<Block>,
}

impl View for BlockRegistry {
    type V = Seq<Block>;

    closed spec fn view(&self) -> Seq<Block> {
        self.blocks@
    }
}

/// Most block types a registry holds, so that every id and the count fit in `u16`.
pub const MAX_BLOCKS: usize = 65535;

impl BlockRegistry {
    /// Air sits at id 0, every block's id is its position, and every block has a texture.
    pub open spec fn wf(&self) -> bool {
        &&& 1 <= self@.len() <= MAX_BLOCKS
        &&& self@[0].shape_id == 0
        &&& self@[0].transparent
        &&& forall|i: int|
            0 <= i < self@.len() ==> (#[trigger] self@[i]).registry_id == i
                && self@[i].textures@.len() > 0
    }

    /// A registry holding only air.
    pub fn new() -> (r: BlockRegistry)
        ensures
            r.wf(),
            r@.len() == 1,
            r@[0].registry_id == 0,
            r@[0].shape_id == 0,
            r@[0].transparent,
            r@[0].textures@ == seq![0u32],
            r@[0].pretty_name@ == "Air"@,
    {
        let air = Block {
            registry_id: 0,
            shape_id: 0,
            pretty_name: String::from_str("Air"),
            transparent: true,
            textures: vec![0],
        };
        let mut blocks = Vec::<Block>::new();
        blocks.push(air);
        proof {
            reveal_strlit("Air");
        }
        BlockRegistry { blocks }
    }

    /// Appends a block type and returns its id.
    pub fn add(&mut self, shape_id: u32, pretty_name: String, textures: Vec<u32>, transparent: bool) -> (r: u16)
        requires
            old(self).wf(),
            old(self)@.len() < MAX_BLOCKS,
            textures@.len() > 0,
        ensures
            final(self).wf(),
            r == old(self)@.len(),
            final(self)@ == old(self)@.push(
                Block { registry_id: r, shape_id, textures, pretty_name, transparent },
            ),
    {
        let registry_id = self.blocks.len() as u16;
        self.blocks.push(Block { registry_id, shape_id, pretty_name, textures, transparent });
        proof {
            assert forall|i: int| 0 <= i < self@.len() implies (#[trigger] self@[i]).registry_id
                == i && self@[i].textures@.len() > 0 by {
                if i < old(self)@.len() {
                    assert(self@[i] == old(self)@[i]);
                }
            }
        }
        registry_id
    }

    /// The block type with id `index`.
    pub fn get(&self, index: u16) -> (r: Option<&Block>)
        ensures
            (index as int) < self@.len() ==> r == Some(&self@[index as int]),
            (index as int) >= self@.len() ==> r is None,
    {
        if (index as usize) < self.blocks.len() {
            Some(&self.blocks[index as usize])
        } else {
            None
        }
    }

    /// The number of block types, air included.
    pub fn get_num_blocks(&self) -> (r: u16)
        requires
            self.wf(),
        ensures
            r == self@.len(),
    {
        self.blocks.len() as u16
    }
}

// ---------------------------------------------------------------------------
// Shapes
// ---------------------------------------------------------------------------

/// A vertex of a face, in half units: position in -HALF_EXTENT..=HALF_EXTENT,
/// texture coordinates `(u, v) / 2`.
#[derive(Clone, Copy, Debug, PartialEq, Eq, Structural)]
pub struct FaceVertex {
    pub pos: IVec3,
    pub u: i64,
    pub v: i64,
}

/// Largest magnitude of a face vertex coordinate, in half units.
pub const HALF_EXTENT: i64 = 16;

/// One face of a shape: a polygon, its triangles (indices into `vertices`),
/// and the direction whose neighbour can hide it.
pub struct FaceDef {
    pub obstructed_by: Option<RotFace>,
    pub vertices: Vec<FaceVertex>,
    pub indices: Vec<u32>,
}

impl FaceDef {
    pub open spec fn wf(&self) -> bool {
        &&& forall|i: int|
            0 <= i < self.vertices@.len() ==> bounded_by(
                (#[trigger] self.vertices@[i]).pos@,
                HALF_EXTENT as int,
            ) && -HALF_EXTENT <= self.vertices@[i].u <= HALF_EXTENT && -HALF_EXTENT
                <= self.vertices@[i].v <= HALF_EXTENT
        &&& forall|j: int|
            0 <= j < self.indices@.len() ==> (#[trigger] self.indices@[j]) < self.vertices@.len()
    }
}

/// A block shape: its faces, which of its six sides fully seal the cell
/// (indexed by face direction index), and how its orientation byte is read.
pub struct BlockShape {
    pub faces: Vec<FaceDef>,
    pub obstructs: [bool; 6],
    pub rot_group: RotType,
}

/// The orientation that the byte `exparam` selects for a shape of kind `kind`:
/// the shortest-arc rotation from the group's reference member to the member
/// in the low bits (three bits for faces and vertices, four for edges).
pub open spec fn shape_rotation(kind: RotType, exparam: u8) -> Option<Rotation> {
    match kind {
        RotType::Static => Some(Rotation::identity_spec()),
        RotType::RotFace => match rf_at(exparam & 7) {
            Some(x) => Some(arc_spec(rf_vec(RF_ZERO), rf_vec(x))),
            None => None,
        },
        RotType::RotVert => match rv_at(exparam & 7) {
            Some(x) => Some(arc_spec(rv_vec(RV_ZERO), rv_vec(x))),
            None => None,
        },
        RotType::RotEdge => match re_at(exparam & 15) {
            Some(x) => Some(arc_spec(re_vec(RE_ZERO), re_vec(x))),
            None => None,
        },
    }
}

/// Whether the side of a cell in direction `dir` is sealed by a shape with
/// orientation `rot`: the direction is taken back to the shape's own frame and
/// looked up in `obstructs`. A direction that does not come back onto an axis
/// is not sealed.
pub open spec fn seals(obstructs: Seq<bool>, rot: Rotation, dir: RotFace) -> bool {
    match face_of(rot.apply_inverse_spec(rf_vec(dir))) {
        Some(f) => obstructs[rf_index(f) as int],
        None => false,
    }
}

/// Whether a face is drawn: it is hidden only when its obstruction direction,
/// turned by `rot`, lands on an axis whose entry in `obstructions` is set.
pub open spec fn face_visible(face: FaceDef, rot: Rotation, obstructions: Seq<bool>) -> bool {
    match face.obstructed_by {
        None => true,
        Some(d) => match face_of(rot.apply_spec(rf_vec(d))) {
            Some(w) => !obstructions[rf_index(w) as int],
            None => true,
        },
    }
}

/// An emitted vertex: world position `pos / scale`, texture coordinates
/// `(u, v) / 2`, texture layer `array_index`.
#[derive(Clone, Copy, Debug, PartialEq, Eq, Structural)]
pub struct MeshVertex {
    pub pos: IVec3,
    pub scale: i64,
    pub u: i64,
    pub v: i64,
    pub array_index: u32,
}

/// Largest world coordinate of a cell.
pub const COORD_BOUND: usize = 0x4000_0000;

/// The world position of face vertex `fv` of the cell at `world_pos + pos`:
/// the cell's centre plus the rotated local position. Doubled and multiplied
/// by the rotation's denominator `d`, this is `2 d (world_pos + pos) + d + M fv`.
pub open spec fn vertex_out(
    fv: FaceVertex,
    rot: Rotation,
    tex: u32,
    world_pos: (usize, usize, usize),
    pos: (usize, usize, usize),
) -> MeshVertex {
    let m = rot.apply_spec(fv.pos@);
    let d = rot.den as int;
    MeshVertex {
        pos: IVec3 {
            x: (2 * d * (world_pos.0 + pos.0) + d + m.0) as i64,
            y: (2 * d * (world_pos.1 + pos.1) + d + m.1) as i64,
            z: (2 * d * (world_pos.2 + pos.2) + d + m.2) as i64,
        },
        scale: (2 * d) as i64,
        u: fv.u,
        v: fv.v,
        array_index: tex,
    }
}

pub open spec fn face_vertices(
    face: FaceDef,
    rot: Rotation,
    tex: u32,
    world_pos: (usize, usize, usize),
    pos: (usize, usize, usize),
) -> Seq<MeshVertex> {
    face.vertices@.map_values(|fv: FaceVertex| vertex_out(fv, rot, tex, world_pos, pos))
}

/// The triangle indices of a face whose vertices start at `base` in the
/// vertex list, as 16-bit indices (taken modulo 65536).
pub open spec fn face_indices(face: FaceDef, base: int) -> Seq<u16> {
    face.indices@.map_values(|ind: u32| ((base + ind) % 65536) as u16)
}

/// The vertices and indices emitted by the first `k` faces of `shape` for a
/// block drawn with orientation `rot`, when the vertex list already holds
/// `base` vertices.
pub open spec fn shape_mesh(
    shape: BlockShape,
    k: int,
    block: Block,
    rot: Rotation,
    obstructions: Seq<bool>,
    world_pos: (usize, usize, usize),
    pos: (usize, usize, usize),
    base: int,
) -> (Seq<MeshVertex>, Seq<u16>)
    decreases k,
{
    if k <= 0 {
        (Seq::empty(), Seq::empty())
    } else {
        let prev = shape_mesh(shape, k - 1, block, rot, obstructions, world_pos, pos, base);
        let face = shape.faces@[k - 1];
        if face_visible(face, rot, obstructions) {
            (
                prev.0 + face_vertices(face, rot, texture_for(block, k - 1), world_pos, pos),
                prev.1 + face_indices(face, base + prev.0.len()),
            )
        } else {
            prev
        }
    }
}

/// Everything a shape emits for one cell.
pub open spec fn cell_mesh(
    shape: BlockShape,
    block: Block,
    rot: Rotation,
    obstructions: Seq<bool>,
    world_pos: (usize, usize, usize),
    pos: (usize, usize, usize),
    base: int,
) -> (Seq<MeshVertex>, Seq<u16>) {
    shape_mesh(shape, shape.faces@.len() as int, block, rot, obstructions, world_pos, pos, base)
}

impl BlockShape {
    pub open spec fn wf(&self) -> bool {
        forall|f: int| 0 <= f < self.faces@.len() ==> (#[trigger] self.faces@[f]).wf()
    }

    /// Whether `exparam` names an orientation of this shape.
    pub open spec fn accepts(&self, exparam: u8) -> bool {
        shape_rotation(self.rot_group, exparam) is Some
    }

    /// The orientation that `exparam` selects, if it names one.
    pub fn orientation(&self, exparam: u8) -> (r: Option<Rotation>)
        ensures
            r == shape_rotation(self.rot_group, exparam),
            r matches Some(q) ==> q.wf(),
    {
        match self.rot_group {
            RotType::Static => Some(Rotation::identity()),
            RotType::RotFace => match num_to_rf(exparam & 7) {
                Some(x) => Some(generate_quat_from_rf(x)),
                None => None,
            },
            RotType::RotVert => match num_to_rv(exparam & 7) {
                Some(x) => Some(generate_quat_from_rv(x)),
                None => None,
            },
            RotType::RotEdge => match num_to_re(exparam & 15) {
                Some(x) => Some(generate_quat_from_re(x)),
                None => None,
            },
        }
    }

    /// Whether this shape, placed with orientation `exparam`, seals its side
    /// in direction `dir`.
    pub fn does_obstruct(&self, exparam: u8, dir: RotFace) -> (r: bool)
        requires
            self.accepts(exparam),
        ensures
            r == seals(self.obstructs@, shape_rotation(self.rot_group, exparam).unwrap(), dir),
    {
        let quat = self.orientation(exparam).unwrap();
        let back = quat.apply_inverse(rf_to_vector(dir));
        match vector_to_rf(back) {
            Some(f) => self.obstructs[rf_to_num(f) as usize],
            None => false,
        }
    }

    /// Appends the faces of this shape that are not hidden, for a block of
    /// type `blockdef` at cell `pos` of the chunk at `world_pos`, with the
    /// per-side obstruction table `bdc`.
    pub fn generate_draw_buffers(
        &self,
        vertex_buffer: &mut Vec<MeshVertex>,
        index_buffer: &mut Vec<u16>,
        blockdef: &Block,
        exparam: u8,
        bdc: BlockDrawContext,
        world_pos: (usize, usize, usize),
        pos: (usize, usize, usize),
    )
        requires
            self.wf(),
            self.accepts(exparam),
            blockdef.textures@.len() > 0,
            world_pos.0 + pos.0 <= COORD_BOUND,
            world_pos.1 + pos.1 <= COORD_BOUND,
            world_pos.2 + pos.2 <= COORD_BOUND,
        ensures
            ({
                let m = cell_mesh(
                    *self,
                    *blockdef,
                    shape_rotation(self.rot_group, exparam).unwrap(),
                    bdc.obstructions@,
                    world_pos,
                    pos,
                    old(vertex_buffer)@.len() as int,
                );
                &&& final(vertex_buffer)@ == old(vertex_buffer)@ + m.0
                &&& final(index_buffer)@ == old(index_buffer)@ + m.1
            }),
    {
        let quat = self.orientation(exparam).unwrap();
        let ghost rot = quat;
        let ghost base = old(vertex_buffer)@.len() as int;
        let n = self.faces.len();
        let mut f: usize = 0;
        while f < n
            invariant
                n == self.faces@.len(),
                0 <= f <= n,
                self.wf(),
                quat.wf(),
                rot == quat,
                rot == shape_rotation(self.rot_group, exparam).unwrap(),
                blockdef.textures@.len() > 0,
                world_pos.0 + pos.0 <= COORD_BOUND,
                world_pos.1 + pos.1 <= COORD_BOUND,
                world_pos.2 + pos.2 <= COORD_BOUND,
                base == old(vertex_buffer)@.len(),
                ({
                    let m = shape_mesh(*self, f as int, *blockdef, rot, bdc.obstructions@, world_pos, pos, base);
                    &&& vertex_buffer@ == old(vertex_buffer)@ + m.0
                    &&& index_buffer@ == old(index_buffer)@ + m.1
                }),
            decreases n - f,
        {
            let face = &self.faces[f];
            assert(face.wf());
            let visible = match face.obstructed_by {
                Some(obstruct) => match rotate_rf(obstruct, &quat) {
                    Some(w) => !bdc.obstructions[rf_to_num(w) as usize],
                    None => true,
                },
                None => true,
            };
            assert(visible == face_visible(*face, rot, bdc.obstructions@));
            if visible {
                let ntex = blockdef.textures.len();
                let tex = if f < ntex - 1 { blockdef.textures[f] } else { blockdef.textures[ntex - 1] };
                assert(tex == texture_for(*blockdef, f as int));
                emit_face(vertex_buffer, index_buffer, face, &quat, tex, world_pos, pos);
            }
            proof {
                let prev = shape_mesh(*self, f as int, *blockdef, rot, bdc.obstructions@, world_pos, pos, base);
                let next = shape_mesh(*self, f as int + 1, *blockdef, rot, bdc.obstructions@, world_pos, pos, base);
                if visible {
                    assert(next.0 == prev.0 + face_vertices(*face, rot, texture_for(*blockdef, f as int), world_pos, pos));
                    assert(vertex_buffer@ == old(vertex_buffer)@ + next.0);
                    assert(index_buffer@ == old(index_buffer)@ + next.1);
                }
            }
            f = f + 1;
        }
    }
}

/// Appends one face: its vertices placed in the world, then its triangle
/// indices offset by the vertex count before it.
fn emit_face(
    vertex_buffer: &mut Vec<MeshVertex>,
    index_buffer: &mut Vec<u16>,
    face: &FaceDef,
    quat: &Rotation,
    tex: u32,
    world_pos: (usize, usize, usize),
    pos: (usize, usize, usize),
)
    requires
        face.wf(),
        quat.wf(),
        world_pos.0 + pos.0 <= COORD_BOUND,
        world_pos.1 + pos.1 <= COORD_BOUND,
        world_pos.2 + pos.2 <= COORD_BOUND,
    ensures
        final(vertex_buffer)@ == old(vertex_buffer)@ + face_vertices(*face, *quat, tex, world_pos, pos),
        final(index_buffer)@ == old(index_buffer)@ + face_indices(*face, old(vertex_buffer)@.len() as int),
{
    let base = vertex_buffer.len();
    let nv = face.vertices.len();
    let mut i: usize = 0;
    while i < nv
        invariant
            nv == face.vertices@.len(),
            0 <= i <= nv,
            face.wf(),
            quat.wf(),
            world_pos.0 + pos.0 <= COORD_BOUND,
            world_pos.1 + pos.1 <= COORD_BOUND,
            world_pos.2 + pos.2 <= COORD_BOUND,
            base == old(vertex_buffer)@.len(),
            index_buffer@ == old(index_buffer)@,
            vertex_buffer@ == old(vertex_buffer)@ + face_vertices(*face, *quat, tex, world_pos, pos).take(i as int),
        decreases nv - i,
    {
        let fv = face.vertices[i];
        assert(bounded_by(face.vertices@[i as int].pos@, HALF_EXTENT as int));
        let out = place_vertex(fv, quat, tex, world_pos, pos);
        vertex_buffer.push(out);
        proof {
            assert(face_vertices(*face, *quat, tex, world_pos, pos).take(i as int + 1) =~= face_vertices(
                *face,
                *quat,
                tex,
                world_pos,
                pos,
            ).take(i as int).push(out));
        }
        i = i + 1;
    }
    assert(face_vertices(*face, *quat, tex, world_pos, pos).take(nv as int) =~= face_vertices(
        *face,
        *quat,
        tex,
        world_pos,
        pos,
    ));
    let ni = face.indices.len();
    let mut j: usize = 0;
    let base_mod = (base % 65536) as u32;
    while j < ni
        invariant
            ni == face.indices@.len(),
            0 <= j <= ni,
            face.wf(),
            base_mod == base % 65536,
            base == old(vertex_buffer)@.len(),
            index_buffer@ == old(index_buffer)@ + face_indices(*face, base as int).take(j as int),
        decreases ni - j,
    {
        let ind = face.indices[j];
        let idx = ((base_mod as u64 + (ind % 65536) as u64) % 65536) as u16;
        proof {
            vstd::arithmetic::div_mod::lemma_add_mod_noop(base as int, ind as int, 65536);
            assert(idx == ((base as int + ind as int) % 65536) as u16);
            assert(face_indices(*face, base as int).take(j as int + 1) =~= face_indices(
                *face,
                base as int,
            ).take(j as int).push(idx));
        }
        index_buffer.push(idx);
        j = j + 1;
    }
    assert(face_indices(*face, base as int).take(ni as int) =~= face_indices(*face, base as int));
}

/// A face vertex placed in the world.
fn place_vertex(
    fv: FaceVertex,
    quat: &Rotation,
    tex: u32,
    world_pos: (usize, usize, usize),
    pos: (usize, usize, usize),
) -> (r: MeshVertex)
    requires
        bounded_by(fv.pos@, HALF_EXTENT as int),
        quat.wf(),
        world_pos.0 + pos.0 <= COORD_BOUND,
        world_pos.1 + pos.1 <= COORD_BOUND,
        world_pos.2 + pos.2 <= COORD_BOUND,
    ensures
        r == vertex_out(fv, *quat, tex, world_pos, pos),
{
    let m = quat.apply(fv.pos);
    let d = quat.den;
    proof {
        assert(bounded_by(m@, 3072int)) by {
            lemma_small_dot(quat.row_x@, fv.pos@);
            lemma_small_dot(quat.row_y@, fv.pos@);
            lemma_small_dot(quat.row_z@, fv.pos@);
        }
    }
    let wx = (world_pos.0 + pos.0) as i64;
    let wy = (world_pos.1 + pos.1) as i64;
    let wz = (world_pos.2 + pos.2) as i64;
    let dd = 2 * d;
    proof {
        let cb = COORD_BOUND as int;
        assert(0 <= dd * wx <= 128 * cb) by (nonlinear_arith)
            requires 0 < dd <= 128, 0 <= wx <= cb;
        assert(0 <= dd * wy <= 128 * cb) by (nonlinear_arith)
            requires 0 < dd <= 128, 0 <= wy <= cb;
        assert(0 <= dd * wz <= 128 * cb) by (nonlinear_arith)
            requires 0 < dd <= 128, 0 <= wz <= cb;
        assert(dd * wx == 2 * d * (world_pos.0 + pos.0)) by (nonlinear_arith)
            requires dd == 2 * d, wx == world_pos.0 + pos.0;
        assert(dd * wy == 2 * d * (world_pos.1 + pos.1)) by (nonlinear_arith)
            requires dd == 2 * d, wy == world_pos.1 + pos.1;
        assert(dd * wz == 2 * d * (world_pos.2 + pos.2)) by (nonlinear_arith)
            requires dd == 2 * d, wz == world_pos.2 + pos.2;
    }
    MeshVertex {
        pos: IVec3 { x: dd * wx + d + m.x, y: dd * wy + d + m.y, z: dd * wz + d + m.z },
        scale: dd,
        u: fv.u,
        v: fv.v,
        array_index: tex,
    }
}
proof fn lemma_small_dot(a: (int, int, int), v: (int, int, int))
    requires
        bounded_by(a, 64),
        bounded_by(v, 16),
    ensures
        -3 * 64 * 16 <= a.0 * v.0 + a.1 * v.1 + a.2 * v.2 <= 3 * 64 * 16,
{
    assert(-64 * 16 <= a.0 * v.0 <= 64 * 16) by (nonlinear_arith)
        requires -64 <= a.0 <= 64, -16 <= v.0 <= 16;
    assert(-64 * 16 <= a.1 * v.1 <= 64 * 16) by (nonlinear_arith)
        requires -64 <= a.1 <= 64, -16 <= v.1 <= 16;
    assert(-64 * 16 <= a.2 * v.2 <= 64 * 16) by (nonlinear_arith)
        requires -64 <= a.2 <= 64, -16 <= v.2 <= 16;
}

/// Per-side obstruction of one cell, indexed by face direction index: entry
/// `i` is set when the neighbour in direction `i` seals the side it shares.
pub struct BlockDrawContext {
    pub obstructions: [bool; 6],
}

impl Default for BlockDrawContext {
    fn default() -> (r: BlockDrawContext)
        ensures
            r.obstructions@ == seq![false, false, false, false, false, false],
    {
        BlockDrawContext { obstructions: [false; 6] }
    }
}

/// The append-only table of block shapes.
pub struct BlockShapeRegistry {
    pub bshapes: Vec<BlockShape>,
}

impl BlockShapeRegistry {
    pub fn new() -> (r: BlockShapeRegistry)
        ensures
            r.bshapes@.len() == 0,
    {
        BlockShapeRegistry { bshapes: Vec::new() }
    }

    /// Appends a shape and returns its id.
    pub fn add(&mut self, blockshape: BlockShape) -> (r: u32)
        requires
            old(self).bshapes@.len() < u32::MAX,
        ensures
            r == old(self).bshapes@.len(),
            final(self).bshapes@ == old(self).bshapes@.push(blockshape),
    {
        let registry_id = self.bshapes.len() as u32;
        self.bshapes.push(blockshape);
        registry_id
    }

    /// The shape with id `index`.
    pub fn get(&self, index: u32) -> (r: Option<&BlockShape>)
        ensures
            (index as int) < self.bshapes@.len() ==> r == Some(&self.bshapes@[index as int]),
            (index as int) >= self.bshapes@.len() ==> r is None,
    {
        if (index as usize) < self.bshapes.len() {
            Some(&self.bshapes[index as usize])
        } else {
            None
        }
    }
}

/// The face vertex with half-unit position `(x, y, z)` and texture coordinates `(u, v)`.
pub open spec fn face_vertex(x: int, y: int, z: int, u: int, v: int) -> FaceVertex {
    FaceVertex { pos: IVec3 { x: x as i64, y: y as i64, z: z as i64 }, u: u as i64, v: v as i64 }
}

/// A face vertex from half-unit position and texture coordinates.
fn fv(x: i64, y: i64, z: i64, u: i64, v: i64) -> (r: FaceVertex)
    ensures
        r == face_vertex(x as int, y as int, z as int, u as int, v as int),
{
    FaceVertex { pos: IVec3 { x, y, z }, u, v }
}

fn face(obstructed_by: Option<RotFace>, vertices: Vec<FaceVertex>, indices: Vec<u32>) -> (r: FaceDef)
    ensures
        r.obstructed_by == obstructed_by,
        r.vertices@ == vertices@,
        r.indices@ == indices@,
{
    FaceDef { obstructed_by, vertices, indices }
}

/// The unit cube: six square faces, each hidden by its neighbour; seals all six sides.
pub fn make_cube_shape() -> (r: BlockShape)
    ensures
        r.wf(),
        r.faces@.len() == 6,
        r.obstructs@ == seq![true, true, true, true, true, true],
        r.faces@[0].obstructed_by == Some(RotFace::PlusY),
        r.faces@[0].vertices@ == seq![face_vertex(-1, 1, -1, 0, 0), face_vertex(1, 1, -1, 2, 0), face_vertex(-1, 1, 1, 0, 2), face_vertex(1, 1, 1, 2, 2)],
        r.faces@[0].indices@ == seq![0u32, 2u32, 1u32, 1u32, 2u32, 3u32],
        r.faces@[1].obstructed_by == Some(RotFace::MinusY),
        r.faces@[1].vertices@ == seq![face_vertex(-1, -1, -1, 0, 0), face_vertex(1, -1, -1, 2, 0), face_vertex(-1, -1, 1, 0, 2), face_vertex(1, -1, 1, 2, 2)],
        r.faces@[1].indices@ == seq![0u32, 1u32, 2u32, 1u32, 3u32, 2u32],
        r.faces@[2].obstructed_by == Some(RotFace::PlusZ),
        r.faces@[2].vertices@ == seq![face_vertex(-1, 1, 1, 0, 0), face_vertex(1, 1, 1, 2, 0), face_vertex(-1, -1, 1, 0, 2), face_vertex(1, -1, 1, 2, 2)],
        r.faces@[2].indices@ == seq![0u32, 2u32, 1u32, 1u32, 2u32, 3u32],
        r.faces@[3].obstructed_by == Some(RotFace::MinusZ),
        r.faces@[3].vertices@ == seq![face_vertex(1, 1, -1, 0, 0), face_vertex(-1, 1, -1, 2, 0), face_vertex(1, -1, -1, 0, 2), face_vertex(-1, -1, -1, 2, 2)],
        r.faces@[3].indices@ == seq![0u32, 2u32, 1u32, 1u32, 2u32, 3u32],
        r.faces@[4].obstructed_by == Some(RotFace::PlusX),
        r.faces@[4].vertices@ == seq![face_vertex(1, 1, -1, 0, 0), face_vertex(1, 1, 1, 2, 0), face_vertex(1, -1, -1, 0, 2), face_vertex(1, -1, 1, 2, 2)],
        r.faces@[4].indices@ == seq![0u32, 1u32, 2u32, 1u32, 3u32, 2u32],
        r.faces@[5].obstructed_by == Some(RotFace::MinusX),
        r.faces@[5].vertices@ == seq![face_vertex(-1, 1, 1, 0, 0), face_vertex(-1, 1, -1, 2, 0), face_vertex(-1, -1, 1, 0, 2), face_vertex(-1, -1, -1, 2, 2)],
        r.faces@[5].indices@ == seq![0u32, 1u32, 2u32, 1u32, 3u32, 2u32],
        r.rot_group == RotType::Static,
{
    let r = BlockShape {
        faces: vec![
            face(Some(RotFace::PlusY), vec![fv(-1, 1, -1, 0, 0), fv(1, 1, -1, 2, 0), fv(-1, 1, 1, 0, 2), fv(1, 1, 1, 2, 2)], vec![0, 2, 1, 1, 2, 3]),
            face(Some(RotFace::MinusY), vec![fv(-1, -1, -1, 0, 0), fv(1, -1, -1, 2, 0), fv(-1, -1, 1, 0, 2), fv(1, -1, 1, 2, 2)], vec![0, 1, 2, 1, 3, 2]),
            face(Some(RotFace::PlusZ), vec![fv(-1, 1, 1, 0, 0), fv(1, 1, 1, 2, 0), fv(-1, -1, 1, 0, 2), fv(1, -1, 1, 2, 2)], vec![0, 2, 1, 1, 2, 3]),
            face(Some(RotFace::MinusZ), vec![fv(1, 1, -1, 0, 0), fv(-1, 1, -1, 2, 0), fv(1, -1, -1, 0, 2), fv(-1, -1, -1, 2, 2)], vec![0, 2, 1, 1, 2, 3]),
            face(Some(RotFace::PlusX), vec![fv(1, 1, -1, 0, 0), fv(1, 1, 1, 2, 0), fv(1, -1, -1, 0, 2), fv(1, -1, 1, 2, 2)], vec![0, 1, 2, 1, 3, 2]),
            face(Some(RotFace::MinusX), vec![fv(-1, 1, 1, 0, 0), fv(-1, 1, -1, 2, 0), fv(-1, -1, 1, 0, 2), fv(-1, -1, -1, 2, 2)], vec![0, 1, 2, 1, 3, 2]),
        ],
        obstructs: [true; 6],
        rot_group: RotType::Static,
    };
    assert(r.obstructs@ =~= seq![true, true, true, true, true, true]);
    r
}

/// A slope: full faces at -Y and -Z, triangles at +X and -X and the slanted face;
/// seals its -Z and -Y sides. Oriented by the edge group.
pub fn make_slope_shape() -> (r: BlockShape)
    ensures
        r.wf(),
        r.faces@.len() == 5,
        r.obstructs@ == seq![false, true, false, true, false, false],
        r.faces@[0].obstructed_by == Some(RotFace::MinusY),
        r.faces@[0].vertices@ == seq![face_vertex(-1, -1, -1, 0, 0), face_vertex(1, -1, -1, 2, 0), face_vertex(-1, -1, 1, 0, 2), face_vertex(1, -1, 1, 2, 2)],
        r.faces@[0].indices@ == seq![0u32, 1u32, 2u32, 1u32, 3u32, 2u32],
        r.faces@[1].obstructed_by == Some(RotFace::MinusZ),
        r.faces@[1].vertices@ == seq![face_vertex(1, 1, -1, 0, 0), face_vertex(-1, 1, -1, 2, 0), face_vertex(1, -1, -1, 0, 2), face_vertex(-1, -1, -1, 2, 2)],
        r.faces@[1].indices@ == seq![0u32, 2u32, 1u32, 1u32, 2u32, 3u32],
        r.faces@[2].obstructed_by == Some(RotFace::PlusX),
        r.faces@[2].vertices@ == seq![face_vertex(1, 1, -1, 0, 0), face_vertex(1, -1, -1, 0, 2), face_vertex(1, -1, 1, 2, 2)],
        r.faces@[2].indices@ == seq![0u32, 2u32, 1u32],
        r.faces@[3].obstructed_by == Some(RotFace::MinusX),
        r.faces@[3].vertices@ == seq![face_vertex(-1, 1, -1, 0, 0), face_vertex(-1, -1, -1, 0, 2), face_vertex(-1, -1, 1, 2, 2)],
        r.faces@[3].indices@ == seq![0u32, 1u32, 2u32],
        r.faces@[4].obstructed_by is None,
        r.faces@[4].vertices@ == seq![face_vertex(-1, 1, -1, 0, 0), face_vertex(1, 1, -1, 2, 0), face_vertex(-1, -1, 1, 0, 2), face_vertex(1, -1, 1, 2, 2)],
        r.faces@[4].indices@ == seq![0u32, 2u32, 1u32, 1u32, 2u32, 3u32],
        r.rot_group == RotType::RotEdge,
{
    let r = BlockShape {
        faces: vec![
            face(Some(RotFace::MinusY), vec![fv(-1, -1, -1, 0, 0), fv(1, -1, -1, 2, 0), fv(-1, -1, 1, 0, 2), fv(1, -1, 1, 2, 2)], vec![0, 1, 2, 1, 3, 2]),
            face(Some(RotFace::MinusZ), vec![fv(1, 1, -1, 0, 0), fv(-1, 1, -1, 2, 0), fv(1, -1, -1, 0, 2), fv(-1, -1, -1, 2, 2)], vec![0, 2, 1, 1, 2, 3]),
            face(Some(RotFace::PlusX), vec![fv(1, 1, -1, 0, 0), fv(1, -1, -1, 0, 2), fv(1, -1, 1, 2, 2)], vec![0, 2, 1]),
            face(Some(RotFace::MinusX), vec![fv(-1, 1, -1, 0, 0), fv(-1, -1, -1, 0, 2), fv(-1, -1, 1, 2, 2)], vec![0, 1, 2]),
            face(None, vec![fv(-1, 1, -1, 0, 0), fv(1, 1, -1, 2, 0), fv(-1, -1, 1, 0, 2), fv(1, -1, 1, 2, 2)], vec![0, 2, 1, 1, 2, 3]),
        ],
        obstructs: [false, true, false, true, false, false],
        rot_group: RotType::RotEdge,
    };
    assert(r.obstructs@ =~= seq![false, true, false, true, false, false]);
    r
}

/// A corner: three triangles on the -Y, -X and -Z sides and the slanted face;
/// seals no side. Oriented by the vertex group.
pub fn make_corner_shape() -> (r: BlockShape)
    ensures
        r.wf(),
        r.faces@.len() == 4,
        r.obstructs@ == seq![false, false, false, false, false, false],
        r.faces@[0].obstructed_by == Some(RotFace::MinusY),
        r.faces@[0].vertices@ == seq![face_vertex(-1, -1, -1, 0, 0), face_vertex(1, -1, -1, 2, 0), face_vertex(-1, -1, 1, 0, 2)],
        r.faces@[0].indices@ == seq![0u32, 1u32, 2u32],
        r.faces@[1].obstructed_by == Some(RotFace::MinusX),
        r.faces@[1].vertices@ == seq![face_vertex(-1, -1, -1, 0, 0), face_vertex(-1, 1, -1, 2, 0), face_vertex(-1, -1, 1, 0, 2)],
        r.faces@[1].indices@ == seq![0u32, 2u32, 1u32],
        r.faces@[2].obstructed_by == Some(RotFace::MinusZ),
        r.faces@[2].vertices@ == seq![face_vertex(-1, -1, -1, 0, 0), face_vertex(1, -1, -1, 2, 0), face_vertex(-1, 1, -1, 0, 2)],
        r.faces@[2].indices@ == seq![0u32, 2u32, 1u32],
        r.faces@[3].obstructed_by is None,
        r.faces@[3].vertices@ == seq![face_vertex(1, -1, -1, 2, 2), face_vertex(-1, -1, 1, 0, 2), face_vertex(-1, 1, -1, 1, 0)],
        r.faces@[3].indices@ == seq![0u32, 2u32, 1u32],
        r.rot_group == RotType::RotVert,
{
    let r = BlockShape {
        faces: vec![
            face(Some(RotFace::MinusY), vec![fv(-1, -1, -1, 0, 0), fv(1, -1, -1, 2, 0), fv(-1, -1, 1, 0, 2)], vec![0, 1, 2]),
            face(Some(RotFace::MinusX), vec![fv(-1, -1, -1, 0, 0), fv(-1, 1, -1, 2, 0), fv(-1, -1, 1, 0, 2)], vec![0, 2, 1]),
            face(Some(RotFace::MinusZ), vec![fv(-1, -1, -1, 0, 0), fv(1, -1, -1, 2, 0), fv(-1, 1, -1, 0, 2)], vec![0, 2, 1]),
            face(None, vec![fv(1, -1, -1, 2, 2), fv(-1, -1, 1, 0, 2), fv(-1, 1, -1, 1, 0)], vec![0, 2, 1]),
        ],
        obstructs: [false; 6],
        rot_group: RotType::RotVert,
    };
    assert(r.obstructs@ =~= seq![false, false, false, false, false, false]);
    r
}

/// A shape without orientation seals exactly the sides that its `obstructs`
/// table lists, whatever its orientation byte holds.
pub proof fn lemma_static_shape_seals(shape: BlockShape, exparam: u8, dir: RotFace)
    requires
        shape.rot_group == RotType::Static,
    ensures
        shape.accepts(exparam),
        seals(shape.obstructs@, shape_rotation(shape.rot_group, exparam).unwrap(), dir)
            == shape.obstructs@[rf_index(dir) as int],
{
    lemma_identity_apply(rf_vec(dir));
    match dir {
        RotFace::PlusZ => {},
        RotFace::MinusZ => {},
        RotFace::PlusY => {},
        RotFace::MinusY => {},
        RotFace::PlusX => {},
        RotFace::MinusX => {},
    }
}

} // verus!

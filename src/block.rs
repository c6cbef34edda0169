//! The first block model: six axis directions and a registry of block types
//! that borrow their names.
use vstd::prelude::*;
use crate::wctx::rotation_group::{neg, IVec3, V3};

verus! {

/// An axis direction.
#[derive(Clone, Copy, Debug, PartialEq, Eq, Structural)]
pub enum Direction {
    PlusY,
    MinusY,
    PlusX,
    MinusX,
    PlusZ,
    MinusZ,
}

pub open spec fn dir_vec(dir: Direction) -> V3 {
    match dir {
        Direction::PlusZ => (0, 0, 1),
        Direction::MinusZ => (0, 0, -1),
        Direction::PlusX => (1, 0, 0),
        Direction::MinusX => (-1, 0, 0),
        Direction::PlusY => (0, 1, 0),
        Direction::MinusY => (0, -1, 0),
    }
}

pub open spec fn dir_reverse(dir: Direction) -> Direction {
    match dir {
        Direction::PlusZ => Direction::MinusZ,
        Direction::MinusZ => Direction::PlusZ,
        Direction::PlusX => Direction::MinusX,
        Direction::MinusX => Direction::PlusX,
        Direction::PlusY => Direction::MinusY,
        Direction::MinusY => Direction::PlusY,
    }
}

/// The unit vector of a direction.
pub fn dir_to_vector(dir: &Direction) -> (r: IVec3)
    ensures
        r@ == dir_vec(*dir),
{
    match dir {
        Direction::PlusZ => IVec3 { x: 0, y: 0, z: 1 },
        Direction::MinusZ => IVec3 { x: 0, y: 0, z: -1 },
        Direction::PlusX => IVec3 { x: 1, y: 0, z: 0 },
        Direction::MinusX => IVec3 { x: -1, y: 0, z: 0 },
        Direction::PlusY => IVec3 { x: 0, y: 1, z: 0 },
        Direction::MinusY => IVec3 { x: 0, y: -1, z: 0 },
    }
}

/// The opposite direction.
pub fn reverse_dir(dir: &Direction) -> (r: Direction)
    ensures
        r == dir_reverse(*dir),
        dir_vec(r) == neg(dir_vec(*dir)),
{
    match dir {
        Direction::PlusZ => Direction::MinusZ,
        Direction::MinusZ => Direction::PlusZ,
        Direction::PlusX => Direction::MinusX,
        Direction::MinusX => Direction::PlusX,
        Direction::PlusY => Direction::MinusY,
        Direction::MinusY => Direction::PlusY,
    }
}

/// Reversing a direction twice gives it back.
pub proof fn lemma_reverse_dir_involutive(dir: Direction)
    ensures
        dir_reverse(dir_reverse(dir)) == dir,
{
}

/// A block type whose name is borrowed.
pub struct Block<'a> {
    pub registry_id: u16,
    pub shape_id: usize,
    pub textures: Vec<u32>,
    pub pretty_name: &'a str,
}

/// The append-only table of block types; id 0 is air.
pub struct BlockRegistry<'a> {
    blocks: Vec<Block<'a>>,
}

impl<'a> View for BlockRegistry<'a> {
    type V = Seq<Block<'a>>;

    closed spec fn view(&self) -> Seq<Block<'a>> {
        self.blocks@
    }
}

/// Most block types a registry holds, so that every id fits in `u16`.
pub const MAX_BLOCKS: usize = 65536;

impl<'a> BlockRegistry<'a> {
    /// Every block's id is its position, and there is room for ids.
    pub open spec fn wf(&self) -> bool {
        &&& 1 <= self@.len() <= MAX_BLOCKS
        &&& forall|i: int| 0 <= i < self@.len() ==> (#[trigger] self@[i]).registry_id == i
    }

    /// A registry holding only air.
    pub fn new() -> (r: BlockRegistry<'a>)
        ensures
            r.wf(),
            r@.len() == 1,
            r@[0].registry_id == 0,
            r@[0].shape_id == 0,
            r@[0].textures@ == seq![0u32],
            r@[0].pretty_name@ == "Air"@,
    {
        let air = Block { registry_id: 0, shape_id: 0, pretty_name: "Air", textures: vec![0] };
        let mut b = Vec::<Block>::new();
        b.push(air);
        proof {
            reveal_strlit("Air");
        }
        BlockRegistry { blocks: b }
    }

    /// Appends a block type and returns its id.
    pub fn add(&mut self, shape_id: usize, pretty_name: &'a str, textures: Vec<u32>) -> (r: u16)
        requires
            old(self).wf(),
            old(self)@.len() < MAX_BLOCKS,
        ensures
            final(self).wf(),
            r == old(self)@.len(),
            final(self)@ == old(self)@.push(Block { registry_id: r, shape_id, textures, pretty_name }),
    {
        let registry_id = self.blocks.len() as u16;
        self.blocks.push(Block { registry_id, shape_id, pretty_name, textures });
        proof {
            assert forall|i: int| 0 <= i < self@.len() implies (#[trigger] self@[i]).registry_id == i by {
                if i < old(self)@.len() {
                    assert(self@[i] == old(self)@[i]);
                }
            }
        }
        registry_id
    }

    /// The block type with id `index`.
    pub fn get(&self, index: u16) -> (r: Option<&Block<'a>>)
        ensures
            (index as int) < self@.len() ==> r == Some(&self@[index as int]),
            (index as int) >= self@.len() ==> r is None,
    {
        if (index as usize) < self.blocks.len() {
            Some(&self.blocks[index as usize])
        } else {
            None
        }
    }
}

} // verus!

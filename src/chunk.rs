//! The first chunk model: block instances in a chunk of fixed size.
use vstd::prelude::*;

verus! {

/// The side of a chunk.
pub const CHUNK_SIZE: usize = 16;

/// The runtime state of one cell: its block type (0 for air), orientation
/// byte and light.
#[derive(Clone, Copy, Debug, PartialEq, Eq, Structural)]
pub struct BlockInstance {
    pub blockdef: u16,
    pub exparam: u8,
    pub light: u8,
}

/// Whether `pos` names a cell of a chunk.
pub fn is_in_bounds(pos: (usize, usize, usize)) -> (r: bool)
    ensures
        r == (pos.0 < CHUNK_SIZE && pos.1 < CHUNK_SIZE && pos.2 < CHUNK_SIZE),
{
    pos.0 < CHUNK_SIZE && pos.1 < CHUNK_SIZE && pos.2 < CHUNK_SIZE
}

} // verus!

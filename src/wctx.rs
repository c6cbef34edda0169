//! The world context: rotation groups, blocks and chunks.
pub mod block;
pub mod chunk;
pub mod rotation_group;
pub mod rotation_lemmas;

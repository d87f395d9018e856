use vstd::prelude::*;
use std::collections::HashMap;
use crate::chunk::{Chunk, ChunkPos};

verus! {

/// The loaded chunks, by grid position.
pub struct World {
    pub chunks: HashMap<ChunkPos, Chunk>,
}

impl World {
    /// A world with no chunk loaded.
    pub fn new() -> (w: World)
        ensures
            w.chunks@ == Map::<ChunkPos, Chunk>::empty(),
    {
        World { chunks: HashMap::new() }
    }
}

} // verus!

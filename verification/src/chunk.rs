//! Chunk generation for code splitting.

use vstd::prelude::*;

verus! {

use crate::graph::ModuleId;

/// Type of chunk.
#[derive(Debug, Clone, PartialEq, Eq, Structural)]
pub enum ChunkType {
    /// Entry point chunk - loaded immediately.
    Entry,
    /// Async chunk - loaded on demand via dynamic import.
    Async,
    /// Shared chunk - contains modules used by multiple entry points.
    Shared,
}

/// A chunk is a named group of modules that will be bundled together into
/// one output file, in a fixed order.
#[derive(Debug, Clone)]
pub struct Chunk {
    /// Chunk name (used for the output filename).
    pub name: String,
    /// Type of chunk.
    pub chunk_type: ChunkType,
    /// Module IDs included in this chunk, in emit order.
    pub module_ids: Vec<ModuleId>,
}

impl Chunk {
    /// Create a new entry chunk.
    pub fn entry(name: String, module_ids: Vec<ModuleId>) -> (r: Self)
        ensures
            r.name@ == name@,
            r.chunk_type == ChunkType::Entry,
            r.module_ids@ == module_ids@,
    {
        Chunk { name, chunk_type: ChunkType::Entry, module_ids }
    }

    /// Create a new async chunk.
    pub fn async_chunk(name: String, module_ids: Vec<ModuleId>) -> (r: Self)
        ensures
            r.name@ == name@,
            r.chunk_type == ChunkType::Async,
            r.module_ids@ == module_ids@,
    {
        Chunk { name, chunk_type: ChunkType::Async, module_ids }
    }

    /// Create a new shared chunk.
    pub fn shared(name: String, module_ids: Vec<ModuleId>) -> (r: Self)
        ensures
            r.name@ == name@,
            r.chunk_type == ChunkType::Shared,
            r.module_ids@ == module_ids@,
    {
        Chunk { name, chunk_type: ChunkType::Shared, module_ids }
    }

    /// Check if the chunk is empty.
    pub fn is_empty(&self) -> (r: bool)
        ensures
            r == (self.module_ids@.len() == 0),
    {
        self.module_ids.len() == 0
    }

    /// Number of modules in the chunk.
    pub fn len(&self) -> (r: usize)
        ensures
            r == self.module_ids@.len(),
    {
        self.module_ids.len()
    }
}

} // verus!

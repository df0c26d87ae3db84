//! Chunks and the read-only compilation state the generators consult.
//!
//! A chunk is one output unit of the bundle.  Generation only ever reads
//! already-finalized data: a chunk's id, its optional name, and the name of
//! the runtime scope it belongs to.  The compilation state is the table of
//! chunks, addressed by a stable key.

use vstd::prelude::*;

verus! {

/// A stable key addressing one chunk inside a compilation.
#[derive(Clone, Copy, PartialEq, Eq, Structural, Debug, Hash)]
pub struct ChunkUkey {
    pub index: usize,
}

/// One output unit of the bundle, with the data the resolver reads.
pub struct Chunk {
    /// The assigned chunk id (already finalized when generation runs).
    pub id: String,
    /// The human-readable chunk name, if the configuration gave one.
    pub name: Option<String>,
    /// The name of the runtime scope this chunk belongs to.
    pub runtime: String,
}

/// Read-only compilation state: the finalized chunk table.
pub struct Compilation {
    pub chunks: Vec<Chunk>,
}

impl Compilation {
    /// Whether a key addresses a chunk of this compilation.
    pub open spec fn valid_ukey(&self, u: ChunkUkey) -> bool {
        u.index < self.chunks@.len()
    }

    /// The chunk a key addresses.
    pub fn chunk_by_ukey(&self, u: ChunkUkey) -> (r: &Chunk)
        requires
            self.valid_ukey(u),
        ensures
            *r == self.chunks@[u.index as int],
    {
        &self.chunks[u.index]
    }
}

} // verus!

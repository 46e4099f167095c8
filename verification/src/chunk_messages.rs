use vstd::prelude::*;
use crate::chunk::Chunk;
use crate::keyed::KeyedVec;
use crate::pos::ChunkPos;

verus! {

/// World update sent from the server to a client: the chunks it has not
/// received yet, stamped with the streaming tick at which they were sent.
#[derive(Clone, Debug)]
pub struct ChunkDataMessage<B> {
    pub tick: u64,
    pub chunks: KeyedVec<ChunkPos, Chunk<B>>,
}

impl<B> Default for ChunkDataMessage<B> {
    /// A message at tick 0 that carries no chunk.
    fn default() -> (r: Self)
        ensures
            r.tick == 0,
            r.chunks.wf(),
            r.chunks@ == Map::<ChunkPos, Chunk<B>>::empty(),
    {
        ChunkDataMessage { tick: 0, chunks: KeyedVec::new() }
    }
}

} // verus!

//! Connection handles and data chunks.
use vstd::prelude::*;

verus! {

/// An opaque handle for one connection of the host, unique for the connection's lifetime.
#[derive(Clone, Copy, Debug, PartialEq, Eq, Hash, Structural)]
pub struct ConnectionId {
    pub id: u64,
}

impl ConnectionId {
    pub fn new(id: u64) -> (r: ConnectionId)
        ensures
            r.id == id,
    {
        ConnectionId { id }
    }
}

/// What a chunk stands for: its bytes and whether the stream ends with it.
pub struct ChunkModel {
    pub payload: Seq<u8>,
    pub end_stream: bool,
}

/// A byte payload delivered by the host, with its end-of-stream flag.
#[derive(Clone, Debug)]
pub struct DataChunk {
    pub payload: Vec<u8>,
    pub end_stream: bool,
}

impl View for DataChunk {
    type V = ChunkModel;

    open spec fn view(&self) -> ChunkModel {
        ChunkModel { payload: self.payload@, end_stream: self.end_stream }
    }
}

impl DataChunk {
    pub fn new(payload: Vec<u8>, end_stream: bool) -> (r: DataChunk)
        ensures
            r@ == (ChunkModel { payload: payload@, end_stream }),
    {
        DataChunk { payload, end_stream }
    }
}

} // verus!

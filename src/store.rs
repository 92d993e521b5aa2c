//! The library's side of the persistent page store.
//!
//! The store itself (a browser database, a file, a map) is run by the
//! embedding program. The library only decides what to ask of it: requests
//! are queued here and handed out with `take_requests`; the answer to a
//! `Get` comes back through `Buffer::deliver` with the request's handle.
use vstd::prelude::*;

use crate::chunk::Chunk;

verus! {

/// Names the placeholder page that a `Get` request is meant to fill.
///
/// `key` is the id of the page's first chunk; `epoch` tells requests made
/// before a `clear` from those made after it.
#[derive(Clone, Copy, Debug, PartialEq, Eq, Structural)]
pub struct FetchHandle {
    pub key: usize,
    pub epoch: u64,
}

/// One operation for the store to perform.
pub enum StoreRequest {
    /// Write a closed page under the id of its first chunk. Best effort: no
    /// acknowledgment is expected.
    Put { key: usize, chunks: Vec<Chunk> },
    /// Read the page stored under `handle.key` (an empty sequence when the
    /// key is absent) and deliver it with `handle`.
    Get { handle: FetchHandle },
    /// Wipe the store.
    Clear,
}

/// What a store request asks for, as plain values: a record is an id and
/// the chunk's bytes.
pub enum RequestModel {
    Put(nat, Seq<(nat, Seq<u8>)>),
    Get(nat, nat),
    Clear,
}

/// The records of a sequence of chunks.
pub open spec fn records(chunks: Seq<Chunk>) -> Seq<(nat, Seq<u8>)> {
    chunks.map_values(|c: Chunk| (c.id as nat, c.data@))
}

impl StoreRequest {
    pub open spec fn model(&self) -> RequestModel {
        match self {
            StoreRequest::Put { key, chunks } => RequestModel::Put(*key as nat, records(chunks@)),
            StoreRequest::Get { handle } => RequestModel::Get(handle.key as nat, handle.epoch as nat),
            StoreRequest::Clear => RequestModel::Clear,
        }
    }
}

/// The models of a sequence of requests.
pub open spec fn request_models(rs: Seq<StoreRequest>) -> Seq<RequestModel> {
    rs.map_values(|r: StoreRequest| r.model())
}

/// The queue of store requests that the embedding program has not taken yet.
pub struct Data {
    requests: Vec<StoreRequest>,
}

impl View for Data {
    type V = Seq<RequestModel>;

    closed spec fn view(&self) -> Seq<RequestModel> {
        request_models(self.requests@)
    }
}

impl Data {
    pub fn new() -> (r: Data)
        ensures
            r@ == Seq::<RequestModel>::empty(),
    {
        let r = Data { requests: Vec::new() };
        assert(r@ =~= Seq::<RequestModel>::empty());
        r
    }

    fn enqueue(&mut self, request: StoreRequest)
        ensures
            final(self)@ == old(self)@.push(request.model()),
    {
        self.requests.push(request);
        assert(final(self)@ =~= old(self)@.push(request.model()));
    }

    /// Asks the store to write `chunks` under `key`.
    pub fn put(&mut self, key: usize, chunks: Vec<Chunk>)
        ensures
            final(self)@ == old(self)@.push(RequestModel::Put(key as nat, records(chunks@))),
    {
        self.enqueue(StoreRequest::Put { key, chunks });
    }

    /// Asks the store for the page named by `handle`.
    pub fn get_from_db(&mut self, handle: FetchHandle)
        ensures
            final(self)@ == old(self)@.push(RequestModel::Get(handle.key as nat, handle.epoch as nat)),
    {
        self.enqueue(StoreRequest::Get { handle });
    }

    /// Asks the store to wipe everything it holds.
    pub fn clear(&mut self)
        ensures
            final(self)@ == old(self)@.push(RequestModel::Clear),
    {
        self.enqueue(StoreRequest::Clear);
    }

    /// Hands out the queued requests, oldest first, and empties the queue.
    pub fn take_requests(&mut self) -> (r: Vec<StoreRequest>)
        ensures
            request_models(r@) == old(self)@,
            final(self)@ == Seq::<RequestModel>::empty(),
    {
        let mut r: Vec<StoreRequest> = Vec::new();
        core::mem::swap(&mut r, &mut self.requests);
        assert(final(self)@ =~= Seq::<RequestModel>::empty());
        r
    }
}

} // verus!

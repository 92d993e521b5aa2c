use vstd::prelude::*;

verus! {

/// The smallest addressable unit of captured samples: one byte per sample,
/// numbered by a single counter that starts at 1.
pub struct Chunk {
    pub id: usize,
    pub data: Vec<u8>,
}

impl Chunk {
    pub fn new(id: usize, data: Vec<u8>) -> (r: Chunk)
        ensures
            r.id == id,
            r.data@ == data@,
    {
        Chunk { id, data }
    }

    /// An independent copy of this chunk.
    pub fn duplicate(&self) -> (r: Chunk)
        ensures
            r.id == self.id,
            r.data@ == self.data@,
    {
        let data = self.data.clone();
        assert(data@ =~= self.data@);
        Chunk { id: self.id, data }
    }
}

} // verus!

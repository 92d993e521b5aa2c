//! A fixed ring of byte blocks, read as one flat sequence of samples.
use vstd::prelude::*;

verus! {

/// The number of blocks in the ring.
pub const BUF_SIZE: usize = 20;

/// `BUF_SIZE` blocks of samples; reading starts at `head`, and each block
/// is read as `size` samples.
pub struct RingBuffer {
    head: usize,
    size: usize,
    buf: Vec<Vec<u8>>,
}

impl RingBuffer {
    pub closed spec fn head(&self) -> nat {
        self.head as nat
    }

    pub closed spec fn size(&self) -> nat {
        self.size as nat
    }

    /// The blocks, by position in the ring.
    pub closed spec fn blocks(&self) -> Seq<Seq<u8>> {
        self.buf@.map_values(|b: Vec<u8>| b@)
    }

    pub closed spec fn wf(&self) -> bool {
        &&& self.buf@.len() == BUF_SIZE
        &&& self.head < BUF_SIZE
    }

    /// The position that `push` writes to: the head, except that a head
    /// at 0 writes to the last position.
    pub open spec fn write_slot(head: nat) -> int {
        if head == 0 {
            BUF_SIZE - 1
        } else {
            head as int
        }
    }

    /// The position of the block that sample `ind` is read from.
    pub open spec fn block_of(&self, ind: nat) -> int {
        ((self.head() + ind / self.size()) % BUF_SIZE as nat) as int
    }

    /// Reading sample `ind` does not run past the end of its block.
    pub open spec fn readable(&self, ind: nat) -> bool {
        let b = self.blocks()[self.block_of(ind)];
        b.len() == 0 || ind % self.size() < b.len()
    }

    /// Writes `data` into the ring and moves the head on by one.
    pub fn push(&mut self, data: Vec<u8>)
        requires
            old(self).wf(),
        ensures
            final(self).wf(),
            final(self).size() == old(self).size(),
            final(self).head() == (old(self).head() + 1) % (BUF_SIZE as nat),
            final(self).blocks() == old(self).blocks().update(
                Self::write_slot(old(self).head()),
                data@,
            ),
    {
        let ind = if self.head == 0 {
            BUF_SIZE - 1
        } else {
            self.head
        };
        let ghost before = self.buf@;
        self.buf.set(ind, data);
        proof {
            assert(self.blocks() =~= before.map_values(|b: Vec<u8>| b@).update(ind as int, data@));
        }
        self.head = (self.head + 1) % BUF_SIZE;
    }

    /// The number of samples that the ring holds when read.
    pub fn len(&self) -> (r: usize)
        requires
            BUF_SIZE * self.size() <= usize::MAX,
        ensures
            r == BUF_SIZE * self.size(),
    {
        BUF_SIZE * self.size
    }

    /// Sets how many samples each block is read as.
    pub fn set_size(&mut self, size: usize)
        requires
            old(self).wf(),
        ensures
            final(self).wf(),
            final(self).size() == size,
            final(self).head() == old(self).head(),
            final(self).blocks() == old(self).blocks(),
    {
        self.size = size;
    }

    /// Sample `ind`: byte `ind % size` of the block it falls in, or
    /// silence where that block is empty.
    pub fn get(&mut self, ind: usize) -> (r: u8)
        requires
            old(self).wf(),
            old(self).size() > 0,
            old(self).readable(ind as nat),
        ensures
            *final(self) == *old(self),
            r == if old(self).blocks()[old(self).block_of(ind as nat)].len() == 0 {
                128u8
            } else {
                old(self).blocks()[old(self).block_of(ind as nat)][(ind as nat % old(self).size()) as int]
            },
    {
        let buf_ind = ind / self.size;
        let sub_ind = ind % self.size;
        let buf_ind = (self.head + buf_ind % BUF_SIZE) % BUF_SIZE;
        proof {
            let (h, q) = (self.head as int, (ind / self.size) as int);
            vstd::arithmetic::div_mod::lemma_add_mod_noop(h, q, BUF_SIZE as int);
            vstd::arithmetic::div_mod::lemma_mod_twice(q, BUF_SIZE as int);
            vstd::arithmetic::div_mod::lemma_small_mod(h as nat, BUF_SIZE as nat);
            vstd::arithmetic::div_mod::lemma_add_mod_noop(h, q % BUF_SIZE as int, BUF_SIZE as int);
            assert(buf_ind as int == self.block_of(ind as nat));
            assert(self.blocks()[buf_ind as int] == self.buf@[buf_ind as int]@);
        }
        let selected_buf = &self.buf[buf_ind];
        if selected_buf.len() == 0 {
            return 128;
        }
        self.buf[buf_ind][sub_ind]
    }
}

impl Default for RingBuffer {
    /// A ring of empty blocks, with the head at 0 and blocks read as no
    /// samples.
    fn default() -> (r: RingBuffer)
        ensures
            r.wf(),
            r.head() == 0,
            r.size() == 0,
            r.blocks() == Seq::new(BUF_SIZE as nat, |_i: int| Seq::<u8>::empty()),
    {
        let mut buf: Vec<Vec<u8>> = Vec::new();
        let mut i: usize = 0;
        while i < BUF_SIZE
            invariant
                i <= BUF_SIZE,
                buf@.len() == i,
                forall|j: int| 0 <= j < i ==> (#[trigger] buf@[j])@ == Seq::<u8>::empty(),
            decreases BUF_SIZE - i,
        {
            buf.push(Vec::new());
            i = i + 1;
        }
        let r = RingBuffer { head: 0, size: 0, buf };
        assert(r.blocks() =~= Seq::new(BUF_SIZE as nat, |_i: int| Seq::<u8>::empty()));
        r
    }
}

} // verus!

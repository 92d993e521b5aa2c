//! The mathematical model of the paged chunk window.
//!
//! Chunk ids start at 1. Page number `p` covers the ids
//! `p * max_size + 1 ..= (p + 1) * max_size`, and its key in the store is the
//! id of its first chunk. The window holds the pages from `front` up to the
//! open page, the one that receives the next chunk.
use vstd::prelude::*;

use crate::store::RequestModel;

verus! {

/// The byte that stands for silence, and for every sample that is missing.
pub const PAD: u8 = 128;

/// `n` bytes of padding.
pub open spec fn pad(n: nat) -> Seq<u8> {
    Seq::new(n, |_i: int| PAD)
}

/// Chunk bytes numbered from `key` on, as the store records them.
pub open spec fn numbered(chunks: Seq<Seq<u8>>, key: nat) -> Seq<(nat, Seq<u8>)> {
    Seq::new(chunks.len(), |j: int| ((key + j) as nat, chunks[j]))
}

/// How many slots the view `start ..= end` has: one for each id but 0.
/// Ids below 0 stand for the time before recording began.
pub open spec fn slot_count(start: int, end: int) -> int {
    if end < start {
        0
    } else if start <= 0 && 0 <= end {
        end - start
    } else {
        end - start + 1
    }
}

/// A page's content: `None` while its fetch is pending, else its chunks'
/// bytes in id order (none at all for a page that the store did not have).
pub type PageModel = Option<Seq<Seq<u8>>>;

pub struct BufferModel {
    pub chunk_size: nat,
    pub max_size: nat,
    /// The highest chunk id pushed so far.
    pub max_id: nat,
    /// The page number of the first resident page.
    pub front: nat,
    /// The resident pages, from page `front` to the open page.
    pub pages: Seq<PageModel>,
    /// Bumped by each `clear`, so that late answers from before it are ignored.
    pub epoch: nat,
    /// The store requests not handed out yet, oldest first.
    pub log: Seq<RequestModel>,
}

/// A buffer that nothing has been pushed to.
pub open spec fn empty_model(chunk_size: nat, max_size: nat) -> BufferModel {
    BufferModel {
        chunk_size,
        max_size,
        max_id: 0,
        front: 0,
        pages: seq![Some(Seq::<Seq<u8>>::empty())],
        epoch: 0,
        log: Seq::empty(),
    }
}

impl BufferModel {
    /// The number of the page that receives the next chunk.
    pub open spec fn open_page(self) -> int {
        (self.max_id as int) / (self.max_size as int)
    }

    /// The id of the first chunk of page `p`.
    pub open spec fn key_of(self, p: int) -> int {
        p * self.max_size + 1
    }

    /// The page number of chunk `id` (for `id >= 1`).
    pub open spec fn page_of(self, id: int) -> int {
        (id - 1) / (self.max_size as int)
    }

    pub open spec fn page_fits(self, page: PageModel) -> bool {
        match page {
            None => true,
            Some(cs) => cs.len() <= self.max_size && forall|j: int|
                0 <= j < cs.len() ==> (#[trigger] cs[j]).len() == self.chunk_size,
        }
    }

    pub open spec fn wf(self) -> bool {
        &&& self.chunk_size > 0
        &&& self.max_size > 0
        &&& self.max_id + self.max_size <= usize::MAX
        &&& self.epoch <= u64::MAX
        &&& self.front <= self.open_page()
        &&& self.pages.len() == self.open_page() - self.front + 1
        &&& self.pages.last() is Some
        &&& self.pages.last()->0.len() == self.max_id as int % (self.max_size as int)
        &&& forall|i: int| 0 <= i < self.pages.len() ==> self.page_fits(#[trigger] self.pages[i])
    }

    /// Whether chunk `id` is held by the window.
    pub open spec fn resident(self, id: int) -> bool {
        &&& 1 <= id <= self.max_id
        &&& self.front <= self.page_of(id)
        &&& self.pages[self.page_of(id) - self.front] is Some
        &&& (id - 1) % (self.max_size as int) < self.pages[self.page_of(id) - self.front]->0.len()
    }

    /// The bytes of a resident chunk.
    pub open spec fn chunk_at(self, id: int) -> Seq<u8> {
        self.pages[self.page_of(id) - self.front]->0[(id - 1) % (self.max_size as int)]
    }

    /// What the slot of `id` shows: the chunk's bytes where it is resident,
    /// else padding.
    pub open spec fn slot(self, id: int) -> Seq<u8> {
        if self.resident(id) {
            self.chunk_at(id)
        } else {
            pad(self.chunk_size)
        }
    }

    /// The bytes of the view `start ..= end`: each slot's bytes in id order.
    pub open spec fn bytes(self, start: int, end: int) -> Seq<u8>
        decreases end - start + 1,
    {
        if end < start {
            Seq::empty()
        } else if end == 0 {
            self.bytes(start, end - 1)
        } else {
            self.bytes(start, end - 1) + self.slot(end)
        }
    }

    /// The page that a query starting at `start` leaves at the front: the one
    /// that holds `start`, clamped to the pages that exist.
    pub open spec fn target_front(self, start: int) -> int {
        if start <= 1 {
            0
        } else if start > self.max_id {
            self.open_page()
        } else {
            (start - 1) / (self.max_size as int)
        }
    }

    /// `n` pending pages put before the front, with a fetch asked for each,
    /// nearest first.
    pub open spec fn with_placeholders(self, n: nat) -> BufferModel {
        BufferModel {
            front: (self.front - n) as nat,
            pages: Seq::new(n, |_i: int| None::<Seq<Seq<u8>>>) + self.pages,
            log: self.log + Seq::new(
                n,
                |i: int| RequestModel::Get(self.key_of(self.front - 1 - i) as nat, self.epoch),
            ),
            ..self
        }
    }

    /// The window after making pages resident down to the one that holds
    /// `start`.
    pub open spec fn fetched(self, start: int) -> BufferModel {
        let f = self.target_front(start);
        if f < self.front {
            self.with_placeholders((self.front - f) as nat)
        } else {
            self
        }
    }

    /// The window with the pages before page `f` discarded.
    pub open spec fn dropped_to(self, f: int) -> BufferModel {
        BufferModel {
            front: f as nat,
            pages: self.pages.subrange(f - self.front, self.pages.len() as int),
            ..self
        }
    }

    /// The window after discarding the front pages all of whose ids lie
    /// below `start`; the open page always stays.
    pub open spec fn pruned(self, start: int) -> BufferModel {
        let f = self.target_front(start);
        if f > self.front {
            self.dropped_to(f)
        } else {
            self
        }
    }

    /// The window after a query that starts at `start`.
    pub open spec fn queried(self, start: int) -> BufferModel {
        self.fetched(start).pruned(start)
    }

    /// The window after pushing a chunk with bytes `data`.
    pub open spec fn pushed(self, data: Seq<u8>) -> BufferModel {
        let last = self.pages.len() - 1;
        let open = self.pages[last]->0.push(data);
        if open.len() == self.max_size {
            BufferModel {
                max_id: self.max_id + 1,
                pages: self.pages.update(last, Some(open)).push(Some(Seq::empty())),
                log: self.log.push(
                    RequestModel::Put(
                        self.key_of(self.open_page()) as nat,
                        numbered(open, self.key_of(self.open_page()) as nat),
                    ),
                ),
                ..self
            }
        } else {
            BufferModel { max_id: self.max_id + 1, pages: self.pages.update(last, Some(open)), ..self }
        }
    }

    /// Whether an answer for `key` in `epoch` fills a page: a pending page
    /// with that key is resident and no `clear` came in between.
    pub open spec fn fills(self, key: int, epoch: nat) -> bool {
        &&& epoch == self.epoch
        &&& key >= 1
        &&& (key - 1) % (self.max_size as int) == 0
        &&& self.front <= self.page_of(key) < self.front + self.pages.len()
        &&& self.pages[self.page_of(key) - self.front] is None
    }

    /// The page content taken from records that the store gave for `key`:
    /// the records' bytes when they are well formed (at most a page of them,
    /// numbered from `key` on, each of a chunk's size), else nothing.
    pub open spec fn accepted(self, key: int, recs: Seq<(nat, Seq<u8>)>) -> Seq<Seq<u8>> {
        if recs.len() <= self.max_size && forall|j: int|
            0 <= j < recs.len() ==> (#[trigger] recs[j]).0 == key + j && recs[j].1.len()
                == self.chunk_size {
            recs.map_values(|r: (nat, Seq<u8>)| r.1)
        } else {
            Seq::empty()
        }
    }

    /// The window after the store answered the fetch for `key` in `epoch`.
    pub open spec fn delivered(self, key: int, epoch: nat, recs: Seq<(nat, Seq<u8>)>) -> BufferModel {
        if self.fills(key, epoch) {
            BufferModel {
                pages: self.pages.update(self.page_of(key) - self.front, Some(self.accepted(key, recs))),
                ..self
            }
        } else {
            self
        }
    }

    /// The window after `clear`: empty, in a new epoch, with the store asked
    /// to wipe itself after what was already queued.
    pub open spec fn cleared(self) -> BufferModel {
        BufferModel {
            max_id: 0,
            front: 0,
            pages: seq![Some(Seq::<Seq<u8>>::empty())],
            epoch: if self.epoch < u64::MAX { (self.epoch + 1) as nat } else { 0 },
            log: self.log.push(RequestModel::Clear),
            ..self
        }
    }
}

/// Dropping one more page from the front of a window cut at page `f` gives
/// the window cut at page `f + 1`; it stays well formed.
pub proof fn lemma_drop_one(m: BufferModel, f: int)
    requires
        m.wf(),
        m.front <= f < m.open_page(),
        m.dropped_to(f).wf(),
    ensures
        m.dropped_to(f).pages.subrange(1, m.dropped_to(f).pages.len() as int) == m.dropped_to(f + 1).pages,
        m.dropped_to(f + 1).wf(),
{
    let a = m.dropped_to(f);
    let b = m.dropped_to(f + 1);
    assert(a.pages.subrange(1, a.pages.len() as int) =~= b.pages);
    assert forall|i: int| 0 <= i < b.pages.len() implies b.page_fits(#[trigger] b.pages[i]) by {
        assert(b.pages[i] == a.pages[i + 1]);
    }
}

} // verus!

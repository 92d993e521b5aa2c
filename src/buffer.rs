//! The window manager: resident pages, paging to and from the store, and
//! range queries.
use vstd::prelude::*;
use vstd::arithmetic::div_mod::{lemma_div_is_ordered, lemma_fundamental_div_mod};
use std::collections::VecDeque;

use crate::chunk::Chunk;
use crate::store::{records, request_models, Data, FetchHandle, RequestModel, StoreRequest};
use crate::laws::lemma_next_id;
use crate::window::{lemma_drop_one, numbered, pad, BufferModel, PAD};
use crate::RangeError;

verus! {

/// Bytes per chunk in a buffer made by `Buffer::new`.
pub const CHUNK_SIZE: usize = 1024;

/// Chunks per page in a buffer made by `Buffer::new`.
pub const MAX_SIZE: usize = 10;

/// A resident page.
pub enum Page {
    /// Placed by a query; waits for the store's answer.
    Pending,
    /// Holds its chunks, in id order.
    Ready(Vec<Chunk>),
}

impl Page {
    pub open spec fn model(&self) -> Option<Seq<Seq<u8>>> {
        match self {
            Page::Pending => None,
            Page::Ready(cs) => Some(cs@.map_values(|c: Chunk| c.data@)),
        }
    }

    /// The chunks of a ready page are numbered from `key` on.
    pub open spec fn numbered_from(&self, key: int) -> bool {
        match self {
            Page::Pending => true,
            Page::Ready(cs) => forall|j: int| 0 <= j < cs.len() ==> (#[trigger] cs@[j]).id == key + j,
        }
    }
}

/// The content of each page of `ps`.
pub open spec fn page_models(ps: Seq<Page>) -> Seq<Option<Seq<Seq<u8>>>> {
    ps.map_values(|p: Page| p.model())
}

proof fn lemma_models_push_front(p: Page, ps: Seq<Page>)
    ensures
        page_models(seq![p] + ps) == seq![p.model()] + page_models(ps),
{
    assert(page_models(seq![p] + ps) =~= seq![p.model()] + page_models(ps));
}

proof fn lemma_models_drop_front(ps: Seq<Page>)
    requires
        ps.len() > 0,
    ensures
        page_models(ps.subrange(1, ps.len() as int)) == page_models(ps).subrange(1, ps.len() as int),
{
    assert(page_models(ps.subrange(1, ps.len() as int)) =~= page_models(ps).subrange(1, ps.len() as int));
}

proof fn lemma_models_update(ps: Seq<Page>, i: int, p: Page)
    requires
        0 <= i < ps.len(),
    ensures
        page_models(ps.update(i, p)) == page_models(ps).update(i, p.model()),
{
    assert(page_models(ps.update(i, p)) =~= page_models(ps).update(i, p.model()));
}

/// A sliding window of pages over a growing sequence of chunks.
pub struct Buffer {
    pages: VecDeque<Page>,
    front: usize,
    db: Data,
    max_id: usize,
    chunk_size: usize,
    max_size: usize,
    epoch: u64,
}

impl vstd::view::View for Buffer {
    type V = BufferModel;

    closed spec fn view(&self) -> BufferModel {
        BufferModel {
            chunk_size: self.chunk_size as nat,
            max_size: self.max_size as nat,
            max_id: self.max_id as nat,
            front: self.front as nat,
            pages: page_models(self.pages@),
            epoch: self.epoch as nat,
            log: self.db@,
        }
    }
}

/// The first id of the open page is at most one past the last id.
proof fn lemma_open_key(x: int, m: int)
    requires
        x >= 0,
        m > 0,
    ensures
        (x / m) * m <= x,
        x / m >= 0,
{
    lemma_fundamental_div_mod(x, m);
    assert((x / m) * m <= x) by (nonlinear_arith)
        requires
            x == m * (x / m) + x % m,
            x % m >= 0,
    ;
    assert(x / m >= 0) by (nonlinear_arith)
        requires
            x >= 0,
            m > 0,
    ;
}

/// Copies of `cs`, chunk by chunk.
fn copy_chunks(cs: &Vec<Chunk>) -> (r: Vec<Chunk>)
    ensures
        r@.len() == cs@.len(),
        forall|j: int| 0 <= j < cs@.len() ==> (#[trigger] r@[j]).id == cs@[j].id && r@[j].data@ == cs@[j].data@,
{
    let mut r: Vec<Chunk> = Vec::new();
    let mut j: usize = 0;
    while j < cs.len()
        invariant
            j <= cs@.len(),
            r@.len() == j,
            forall|k: int| 0 <= k < j ==> (#[trigger] r@[k]).id == cs@[k].id && r@[k].data@ == cs@[k].data@,
        decreases cs@.len() - j,
    {
        r.push(cs[j].duplicate());
        j = j + 1;
    }
    r
}

/// Appends `n` bytes of padding to `out`.
fn append_padding(out: &mut Vec<u8>, n: usize)
    ensures
        final(out)@ == old(out)@ + pad(n as nat),
{
    let ghost start = out@;
    let mut k: usize = 0;
    while k < n
        invariant
            k <= n,
            out@ == start + pad(k as nat),
        decreases n - k,
    {
        out.push(PAD);
        k = k + 1;
        assert(out@ =~= start + pad(k as nat));
    }
}

/// Appends the bytes of `data` to `out`.
fn append_bytes(out: &mut Vec<u8>, data: &Vec<u8>)
    ensures
        final(out)@ == old(out)@ + data@,
{
    let ghost start = out@;
    let mut k: usize = 0;
    while k < data.len()
        invariant
            k <= data@.len(),
            out@ == start + data@.subrange(0, k as int),
        decreases data@.len() - k,
    {
        out.push(data[k]);
        k = k + 1;
        assert(out@ =~= start + data@.subrange(0, k as int));
    }
    assert(data@.subrange(0, data@.len() as int) =~= data@);
}

impl Buffer {
    /// The window is well formed, and the chunks of each ready page carry
    /// the ids that its place gives them.
    pub closed spec fn wf(&self) -> bool {
        &&& self@.wf()
        &&& forall|i: int|
            0 <= i < self.pages@.len() ==> (#[trigger] self.pages@[i]).numbered_from(
                self@.key_of(self.front + i),
            )
    }

    /// An empty buffer with chunks of `CHUNK_SIZE` bytes and pages of
    /// `MAX_SIZE` chunks.
    pub fn new() -> (r: Buffer)
        ensures
            r.wf(),
            r@ == crate::window::empty_model(CHUNK_SIZE as nat, MAX_SIZE as nat),
    {
        Buffer::with_sizes(CHUNK_SIZE, MAX_SIZE)
    }

    /// An empty buffer with chunks of `chunk_size` bytes and pages of
    /// `max_size` chunks.
    pub fn with_sizes(chunk_size: usize, max_size: usize) -> (r: Buffer)
        requires
            chunk_size > 0,
            max_size > 0,
        ensures
            r.wf(),
            r@ == crate::window::empty_model(chunk_size as nat, max_size as nat),
    {
        let mut pages: VecDeque<Page> = VecDeque::new();
        pages.push_back(Page::Ready(Vec::new()));
        let r = Buffer { pages, front: 0, db: Data::new(), max_id: 0, chunk_size, max_size, epoch: 0 };
        proof {
            lemma_open_key(0, max_size as int);
            assert(r.pages@.len() == 1);
            assert(r@.pages[0]->0 =~= Seq::<Seq<u8>>::empty());
            assert(r@.pages =~= seq![Some(Seq::<Seq<u8>>::empty())]);
        }
        r
    }

    /// The highest chunk id pushed so far.
    pub fn max_id(&self) -> (r: usize)
        ensures
            r == self@.max_id,
    {
        self.max_id
    }

    /// Bytes per chunk.
    pub fn chunk_size(&self) -> (r: usize)
        ensures
            r == self@.chunk_size,
    {
        self.chunk_size
    }

    /// Chunks per page.
    pub fn max_size(&self) -> (r: usize)
        ensures
            r == self@.max_size,
    {
        self.max_size
    }

    /// The page number that a query starting at `start` leaves at the front.
    fn target_front(&self, start: isize) -> (f: usize)
        requires
            self.wf(),
        ensures
            f as int == self@.target_front(start as int),
            f <= self@.open_page(),
    {
        if start <= 1 {
            0
        } else {
            let s = start as usize;
            if s > self.max_id {
                self.max_id / self.max_size
            } else {
                proof {
                    lemma_div_is_ordered(s as int - 1, self.max_id as int, self.max_size as int);
                }
                (s - 1) / self.max_size
            }
        }
    }

    /// Makes the pages down to the one that holds `start` resident: walks
    /// back from the front one page at a time, placing a pending page and
    /// asking the store for it. The window always reaches up to the open
    /// page, so nothing is ever missing after it, and ids beyond the last
    /// one pushed do not exist yet: they are never fetched.
    fn fetch_data(&mut self, start: isize)
        requires
            old(self).wf(),
        ensures
            final(self).wf(),
            final(self)@ == old(self)@.fetched(start as int),
    {
        let ghost m = self@;
        let f = self.target_front(start);
        if f >= self.front {
            return;
        }
        while self.front > f
            invariant
                self.wf(),
                f <= self.front <= m.front,
                f == m.target_front(start as int),
                self@ == m.with_placeholders((m.front - self.front) as nat),
            decreases self.front,
        {
            let ghost before = self@;
            let ghost before_pages = self.pages@;
            let ghost n = (m.front - self.front) as nat;
            proof {
                lemma_open_key(m.max_id as int, m.max_size as int);
                assert((self.front - 1) * m.max_size <= m.open_page() * m.max_size) by (nonlinear_arith)
                    requires
                        self.front - 1 <= m.open_page(),
                        m.max_size > 0,
                ;
            }
            self.front = self.front - 1;
            self.pages.push_front(Page::Pending);
            let key = self.front * self.max_size + 1;
            self.db.get_from_db(FetchHandle { key, epoch: self.epoch });
            proof {
                let g = |i: int| RequestModel::Get(m.key_of(m.front - 1 - i) as nat, m.epoch);
                assert(self.pages@ =~= seq![Page::Pending] + before_pages);
                lemma_models_push_front(Page::Pending, before_pages);
                assert(self@.pages =~= Seq::new(n + 1, |_i: int| None::<Seq<Seq<u8>>>) + m.pages);
                assert(self@.log =~= m.log + Seq::new(n + 1, g));
                assert forall|i: int| 0 <= i < self@.pages.len() implies self@.page_fits(
                    #[trigger] self@.pages[i],
                ) by {
                    if i > 0 {
                        assert(self@.pages[i] == before.pages[i - 1]);
                    }
                }
                assert forall|i: int| 0 <= i < self.pages@.len() implies (
                #[trigger] self.pages@[i]).numbered_from(self@.key_of(self.front + i)) by {
                    if i > 0 {
                        assert(self.pages@[i] == before_pages[i - 1]);
                    }
                }
            }
        }
    }

    /// Discards front pages while all their ids lie below `start`. The open
    /// page always stays, and so does every chunk with an id at or after
    /// `start`.
    fn prune(&mut self, start: isize)
        requires
            old(self).wf(),
        ensures
            final(self).wf(),
            final(self)@ == old(self)@.pruned(start as int),
    {
        let ghost m = self@;
        let f = self.target_front(start);
        if f <= self.front {
            return;
        }
        proof {
            assert(m.pages.subrange(0, m.pages.len() as int) =~= m.pages);
            assert(m.dropped_to(m.front as int) == m);
        }
        while self.front < f
            invariant
                self.wf(),
                m.wf(),
                m.front <= f <= m.open_page(),
                m.front <= self.front <= f,
                f == m.target_front(start as int),
                self@ == m.dropped_to(self.front as int),
            decreases f - self.front,
        {
            let ghost before_pages = self.pages@;
            let ghost k = self.front as int;
            let _ = self.pages.pop_front();
            self.front = self.front + 1;
            proof {
                assert(self.pages@ =~= before_pages.subrange(1, before_pages.len() as int));
                lemma_models_drop_front(before_pages);
                lemma_drop_one(m, k);
                assert(self@ == m.dropped_to(self.front as int));
                assert forall|i: int| 0 <= i < self.pages@.len() implies (
                #[trigger] self.pages@[i]).numbered_from(self@.key_of(self.front + i)) by {
                    assert(self.pages@[i] == before_pages[i + 1]);
                }
            }
        }
    }

    /// Appends the bytes of the slot of `id` to `out`.
    fn append_slot(&self, out: &mut Vec<u8>, id: isize)
        requires
            self.wf(),
        ensures
            final(out)@ == old(out)@ + self@.slot(id as int),
    {
        if id >= 1 {
            let u = id as usize;
            if u <= self.max_id {
                proof {
                    lemma_div_is_ordered(u as int - 1, self.max_id as int, self.max_size as int);
                }
                let p = (u - 1) / self.max_size;
                if p >= self.front {
                    let idx = p - self.front;
                    match &self.pages[idx] {
                        Page::Ready(cs) => {
                            let j = (u - 1) % self.max_size;
                            if j < cs.len() {
                                proof {
                                    assert(self@.pages[idx as int] == self.pages@[idx as int].model());
                                    assert(self@.resident(id as int));
                                }
                                append_bytes(out, &cs[j].data);
                                return;
                            }
                        },
                        Page::Pending => {},
                    }
                }
            }
        }
        append_padding(out, self.chunk_size);
    }

    /// The bytes of the view `view.start ..= view.end`, after making the
    /// pages it needs resident and discarding those before it.
    ///
    /// Each id of the view but 0 has a slot of `chunk_size` bytes: a
    /// resident chunk gives its bytes; an id at or below 0, one beyond the
    /// last pushed, or one whose page is still pending or was not found
    /// gives padding. So the length depends on the view and the chunk size
    /// alone. A view whose end does not lie after its start is refused.
    pub fn get_data(&mut self, view: &crate::view::View) -> (r: Result<Vec<u8>, RangeError>)
        requires
            old(self).wf(),
        ensures
            final(self).wf(),
            match r {
                Ok(bytes) => {
                    &&& view.start < view.end
                    &&& final(self)@ == old(self)@.queried(view.start as int)
                    &&& bytes@ == final(self)@.bytes(view.start as int, view.end as int)
                },
                Err(e) => {
                    &&& view.end <= view.start
                    &&& e == RangeError::InvalidRange
                    &&& final(self)@ == old(self)@
                },
            },
    {
        if view.end <= view.start {
            return Err(RangeError::InvalidRange);
        }
        self.fetch_data(view.start);
        self.prune(view.start);
        let mut out: Vec<u8> = Vec::new();
        let mut i: isize = view.start;
        while i < view.end
            invariant
                self.wf(),
                view.start <= i <= view.end,
                out@ == self@.bytes(view.start as int, i - 1),
            decreases view.end - i,
        {
            if i != 0 {
                self.append_slot(&mut out, i);
            }
            i = i + 1;
        }
        if i != 0 {
            self.append_slot(&mut out, i);
        }
        Ok(out)
    }

    /// The chunks that the store gave for the page with first id `key`, if
    /// they are well formed: at most a page of them, numbered from `key` on,
    /// each of `chunk_size` bytes. Otherwise none.
    fn accept(&self, key: usize, chunks: Vec<Chunk>) -> (r: Vec<Chunk>)
        requires
            self.wf(),
            key as int - 1 + self@.max_size <= usize::MAX,
        ensures
            r@.map_values(|c: Chunk| c.data@) == self@.accepted(key as int, records(chunks@)),
            forall|j: int| 0 <= j < r@.len() ==> (#[trigger] r@[j]).id == key + j,
            r@.len() <= self@.max_size,
    {
        let ghost recs = records(chunks@);
        if chunks.len() > self.max_size {
            proof {
                assert(Seq::<Chunk>::empty().map_values(|c: Chunk| c.data@) =~= Seq::<Seq<u8>>::empty());
            }
            return Vec::new();
        }
        let mut j: usize = 0;
        while j < chunks.len()
            invariant
                j <= chunks@.len() <= self@.max_size,
                key as int - 1 + self@.max_size <= usize::MAX,
                recs == records(chunks@),
                forall|k: int| 0 <= k < j ==> (#[trigger] chunks@[k]).id == key + k && chunks@[k].data@.len() == self@.chunk_size,
            decreases chunks@.len() - j,
        {
            if chunks[j].id != key + j || chunks[j].data.len() != self.chunk_size {
                proof {
                    assert(!(recs[j as int].0 == key + j && recs[j as int].1.len() == self@.chunk_size));
                    assert(Seq::<Chunk>::empty().map_values(|c: Chunk| c.data@) =~= Seq::<Seq<u8>>::empty());
                }
                return Vec::new();
            }
            j = j + 1;
        }
        proof {
            assert(forall|k: int| 0 <= k < recs.len() ==> (#[trigger] recs[k]).0 == key + k && recs[k].1.len() == self@.chunk_size);
            assert(chunks@.map_values(|c: Chunk| c.data@) =~= recs.map_values(|r: (nat, Seq<u8>)| r.1));
        }
        chunks
    }

    /// Takes the store's answer to the fetch named by `handle`. When that
    /// fetch's pending page is still resident and no `clear` came since, the
    /// page becomes ready with the chunks (none, where they are not well
    /// formed) and `true` is returned. Otherwise, for instance when the page
    /// was discarded meanwhile, nothing changes.
    pub fn deliver(&mut self, handle: FetchHandle, chunks: Vec<Chunk>) -> (filled: bool)
        requires
            old(self).wf(),
        ensures
            final(self).wf(),
            filled == old(self)@.fills(handle.key as int, handle.epoch as nat),
            final(self)@ == old(self)@.delivered(handle.key as int, handle.epoch as nat, records(chunks@)),
    {
        let ghost m = self@;
        if handle.epoch != self.epoch || handle.key == 0 {
            return false;
        }
        let k = handle.key - 1;
        if k % self.max_size != 0 {
            return false;
        }
        let p = k / self.max_size;
        if p < self.front || p - self.front >= self.pages.len() {
            return false;
        }
        let idx = p - self.front;
        let pending = match &self.pages[idx] {
            Page::Pending => true,
            Page::Ready(_) => false,
        };
        proof {
            assert(m.pages[idx as int] == self.pages@[idx as int].model());
        }
        if !pending {
            return false;
        }
        proof {
            lemma_fundamental_div_mod(k as int, m.max_size as int);
            assert(k as int == p * m.max_size) by (nonlinear_arith)
                requires
                    k as int == m.max_size * (k as int / m.max_size as int) + k as int % m.max_size as int,
                    k as int % m.max_size as int == 0,
                    p == k as int / m.max_size as int,
            ;
            lemma_open_key(m.max_id as int, m.max_size as int);
            assert(p * m.max_size + m.max_size <= m.open_page() * m.max_size + m.max_size) by (nonlinear_arith)
                requires
                    p <= m.open_page(),
                    m.max_size > 0,
            ;
        }
        let page = self.accept(handle.key, chunks);
        let ghost old_pages = self.pages@;
        let _ = self.pages.remove(idx);
        self.pages.insert(idx, Page::Ready(page));
        proof {
            assert(self.pages@ =~= old_pages.update(idx as int, Page::Ready(page)));
            lemma_models_update(old_pages, idx as int, Page::Ready(page));
            assert(self@ == m.delivered(handle.key as int, handle.epoch as nat, records(chunks@)));
            assert forall|i: int| 0 <= i < self@.pages.len() implies self@.page_fits(#[trigger] self@.pages[i]) by {
                if i != idx {
                    assert(self@.pages[i] == m.pages[i]);
                }
            }
            assert forall|i: int| 0 <= i < self.pages@.len() implies (
            #[trigger] self.pages@[i]).numbered_from(self@.key_of(self.front + i)) by {
                if i != idx {
                    assert(self.pages@[i] == old_pages[i]);
                }
            }
        }
        true
    }

    /// Forgets everything: the buffer is empty again, answers to fetches
    /// made before are ignored from now on, and the store is asked to wipe
    /// itself once the requests queued before have run.
    pub fn clear(&mut self)
        requires
            old(self).wf(),
        ensures
            final(self).wf(),
            final(self)@ == old(self)@.cleared(),
    {
        self.pages.clear();
        self.pages.push_back(Page::Ready(Vec::new()));
        self.front = 0;
        self.max_id = 0;
        self.epoch = if self.epoch < u64::MAX {
            self.epoch + 1
        } else {
            0
        };
        self.db.clear();
        proof {
            lemma_open_key(0, self.max_size as int);
            assert(self.pages@.len() == 1);
            assert(self@.pages[0]->0 =~= Seq::<Seq<u8>>::empty());
            assert(self@.pages =~= seq![Some(Seq::<Seq<u8>>::empty())]);
        }
    }

    /// Hands out the store requests queued so far, oldest first.
    pub fn take_requests(&mut self) -> (r: Vec<StoreRequest>)
        requires
            old(self).wf(),
        ensures
            final(self).wf(),
            request_models(r@) == old(self)@.log,
            final(self)@ == (BufferModel { log: Seq::empty(), ..old(self)@ }),
    {
        self.db.take_requests()
    }

    /// Appends a chunk with bytes `data` under the next id, which it returns.
    /// When this fills the open page, the page is closed, the store is asked
    /// to keep it under its first id, and a new empty page is opened.
    pub fn push(&mut self, data: Vec<u8>) -> (id: usize)
        requires
            old(self).wf(),
            data@.len() == old(self)@.chunk_size,
            old(self)@.max_id + 1 + old(self)@.max_size <= usize::MAX,
        ensures
            final(self).wf(),
            id == old(self)@.max_id + 1,
            final(self)@ == old(self)@.pushed(data@),
    {
        let ghost m = self@;
        proof {
            lemma_open_key(self.max_id as int, self.max_size as int);
            lemma_next_id(self.max_id as int, self.max_size as int);
        }
        let id = self.max_id + 1;
        let open_key = (self.max_id / self.max_size) * self.max_size + 1;
        let ghost data_v = data@;
        let ghost old_pages = self.pages@;
        let ghost last_i = old_pages.len() - 1;
        let ghost key = m.key_of(m.open_page());
        let chunk = Chunk::new(id, data);
        let last = self.pages.pop_back();
        proof {
            assert(self.pages@ =~= old_pages.subrange(0, last_i));
            assert(m.pages[last_i] == old_pages[last_i].model());
            assert(old_pages[last_i].numbered_from(m.key_of(m.front + last_i)));
            assert(m.front + last_i == m.open_page());
            lemma_fundamental_div_mod(m.max_id as int, m.max_size as int);
            assert(key + m.max_id as int % m.max_size as int == m.max_id + 1) by (nonlinear_arith)
                requires
                    m.max_id as int == m.max_size as int * (m.max_id as int / m.max_size as int) + m.max_id as int % m.max_size as int,
                    key == (m.max_id as int / m.max_size as int) * m.max_size as int + 1,
            ;
        }
        match last {
            Some(Page::Ready(mut cs)) => {
                let ghost cs0 = cs@;
                cs.push(chunk);
                let ghost open = m.pages[last_i]->0.push(data_v);
                proof {
                    assert(cs0.map_values(|c: Chunk| c.data@) == m.pages[last_i]->0);
                    assert(cs@.map_values(|c: Chunk| c.data@) =~= open);
                    assert(Page::Ready(cs).numbered_from(key));
                    assert forall|j: int| 0 <= j < open.len() implies (#[trigger] open[j]).len() == m.chunk_size by {
                        if j < open.len() - 1 {
                            assert(m.page_fits(m.pages[last_i]));
                        }
                    }
                }
                if cs.len() == self.max_size {
                    let copy = copy_chunks(&cs);
                    proof {
                        assert(records(copy@) =~= numbered(open, key as nat));
                    }
                    self.db.put(open_key, copy);
                    self.pages.push_back(Page::Ready(cs));
                    self.pages.push_back(Page::Ready(Vec::new()));
                    proof {
                        let mp = m.pages.update(last_i, Some(open)).push(Some(Seq::empty()));
                        assert(self.pages@.map_values(|p: Page| p.model()) =~= mp) by {
                            assert(self.pages@[last_i + 1].model()->0 =~= Seq::<Seq<u8>>::empty());
                        }
                    }
                } else {
                    self.pages.push_back(Page::Ready(cs));
                    proof {
                        let mp = m.pages.update(last_i, Some(open));
                        assert(self.pages@.map_values(|p: Page| p.model()) =~= mp);
                    }
                }
            },
            _ => {
                proof {
                    assert(m.pages[m.pages.len() - 1] is Some);
                }
            },
        }
        self.max_id = id;
        id
    }
}

} // verus!

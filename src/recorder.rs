//! What the display shows: a view of chunk ids that follows the newest
//! chunk while recording, and a cursor that the user moves while paused.
use vstd::prelude::*;

use crate::buffer::{Buffer, CHUNK_SIZE, MAX_SIZE};
use crate::RangeError;

verus! {

/// Chunks shown at once by a recorder made with `Recorder::new`.
pub const CHUNK_NUM: usize = 10;

/// The recording state behind the display: the chunk buffer, whether
/// capture is paused, and the cursor that a paused display is scrolled to.
pub struct Recorder {
    buf: Buffer,
    cursor_pos: usize,
    chunk_num: usize,
    paused: bool,
}

impl Recorder {
    pub closed spec fn buffer(&self) -> Buffer {
        self.buf
    }

    pub closed spec fn cursor(&self) -> nat {
        self.cursor_pos as nat
    }

    pub closed spec fn window_size(&self) -> nat {
        self.chunk_num as nat
    }

    pub closed spec fn paused(&self) -> bool {
        self.paused
    }

    /// The buffer is well formed and its ids, the cursor and the window size
    /// fit the view's integers.
    pub closed spec fn wf(&self) -> bool {
        &&& self.buf.wf()
        &&& self.cursor_pos <= self.buf@.max_id
        &&& self.buf@.max_id <= isize::MAX
        &&& self.chunk_num <= isize::MAX
    }

    /// The view that the display shows: the `window_size` chunks up to the
    /// cursor while paused, up to the newest chunk while recording.
    pub open spec fn view_spec(&self) -> crate::view::View {
        let last = if self.paused() {
            self.cursor()
        } else {
            self.buffer()@.max_id
        };
        crate::view::View { start: (last - self.window_size()) as isize, end: last as isize }
    }

    /// A paused recorder over an empty buffer, showing `CHUNK_NUM` chunks.
    pub fn new() -> (r: Recorder)
        ensures
            r.wf(),
            r.buffer()@ == crate::window::empty_model(CHUNK_SIZE as nat, MAX_SIZE as nat),
            r.cursor() == 0,
            r.window_size() == CHUNK_NUM,
            r.paused(),
    {
        Recorder { buf: Buffer::new(), cursor_pos: 0, chunk_num: CHUNK_NUM, paused: true }
    }

    pub fn is_paused(&self) -> (r: bool)
        ensures
            r == self.paused(),
    {
        self.paused
    }

    /// The highest chunk id pushed so far.
    pub fn max_id(&self) -> (r: usize)
        requires
            self.wf(),
        ensures
            r == self.buffer()@.max_id,
    {
        self.buf.max_id()
    }

    /// Pauses a recording recorder, or resumes a paused one.
    pub fn toggle_pause(&mut self)
        requires
            old(self).wf(),
        ensures
            final(self).wf(),
            final(self).paused() == !old(self).paused(),
            final(self).buffer() == old(self).buffer(),
            final(self).cursor() == old(self).cursor(),
            final(self).window_size() == old(self).window_size(),
    {
        self.paused = !self.paused;
    }

    /// While paused, moves the cursor one chunk later, up to the newest one.
    pub fn scroll_forward(&mut self)
        requires
            old(self).wf(),
        ensures
            final(self).wf(),
            final(self).cursor() == if old(self).paused() && old(self).cursor() < old(self).buffer()@.max_id {
                old(self).cursor() + 1
            } else {
                old(self).cursor()
            },
            final(self).paused() == old(self).paused(),
            final(self).buffer() == old(self).buffer(),
            final(self).window_size() == old(self).window_size(),
    {
        if self.paused && self.cursor_pos < self.buf.max_id() {
            self.cursor_pos = self.cursor_pos + 1;
        }
    }

    /// While paused, moves the cursor one chunk earlier, down to 0.
    pub fn scroll_back(&mut self)
        requires
            old(self).wf(),
        ensures
            final(self).wf(),
            final(self).cursor() == if old(self).paused() && old(self).cursor() > 0 {
                (old(self).cursor() - 1) as nat
            } else {
                old(self).cursor()
            },
            final(self).paused() == old(self).paused(),
            final(self).buffer() == old(self).buffer(),
            final(self).window_size() == old(self).window_size(),
    {
        if self.paused && self.cursor_pos > 0 {
            self.cursor_pos = self.cursor_pos - 1;
        }
    }

    /// Records a block of samples as the next chunk and moves the cursor to
    /// it.
    pub fn update(&mut self, data: Vec<u8>) -> (id: usize)
        requires
            old(self).wf(),
            data@.len() == old(self).buffer()@.chunk_size,
            old(self).buffer()@.max_id + 1 + old(self).buffer()@.max_size <= isize::MAX,
        ensures
            final(self).wf(),
            id == old(self).buffer()@.max_id + 1,
            final(self).buffer()@ == old(self).buffer()@.pushed(data@),
            final(self).cursor() == id,
            final(self).paused() == old(self).paused(),
            final(self).window_size() == old(self).window_size(),
    {
        let id = self.buf.push(data);
        self.cursor_pos = id;
        id
    }

    /// Empties the buffer (see `Buffer::clear`) and moves the cursor to 0.
    pub fn clear(&mut self)
        requires
            old(self).wf(),
        ensures
            final(self).wf(),
            final(self).buffer()@ == old(self).buffer()@.cleared(),
            final(self).cursor() == 0,
            final(self).paused() == old(self).paused(),
            final(self).window_size() == old(self).window_size(),
    {
        self.buf.clear();
        self.cursor_pos = 0;
    }

    /// The view that the display shows.
    pub fn view(&self) -> (r: crate::view::View)
        requires
            self.wf(),
        ensures
            r == self.view_spec(),
    {
        let last = if self.paused {
            self.cursor_pos
        } else {
            self.buf.max_id()
        };
        crate::view::View { start: last as isize - self.chunk_num as isize, end: last as isize }
    }

    /// The bytes of the current view (see `Buffer::get_data`).
    pub fn flush_data(&mut self) -> (r: Result<Vec<u8>, RangeError>)
        requires
            old(self).wf(),
        ensures
            final(self).wf(),
            final(self).paused() == old(self).paused(),
            final(self).cursor() == old(self).cursor(),
            final(self).window_size() == old(self).window_size(),
            match r {
                Ok(bytes) => {
                    &&& old(self).window_size() > 0
                    &&& final(self).buffer()@ == old(self).buffer()@.queried(old(self).view_spec().start as int)
                    &&& bytes@ == final(self).buffer()@.bytes(
                        old(self).view_spec().start as int,
                        old(self).view_spec().end as int,
                    )
                },
                Err(e) => {
                    &&& old(self).window_size() == 0
                    &&& e == RangeError::InvalidRange
                    &&& final(self).buffer()@ == old(self).buffer()@
                },
            },
    {
        let view = self.view();
        self.buf.get_data(&view)
    }

    /// Takes the answer to a store fetch (see `Buffer::deliver`).
    pub fn deliver(&mut self, handle: crate::store::FetchHandle, chunks: Vec<crate::chunk::Chunk>) -> (filled: bool)
        requires
            old(self).wf(),
        ensures
            final(self).wf(),
            filled == old(self).buffer()@.fills(handle.key as int, handle.epoch as nat),
            final(self).buffer()@ == old(self).buffer()@.delivered(
                handle.key as int,
                handle.epoch as nat,
                crate::store::records(chunks@),
            ),
            final(self).paused() == old(self).paused(),
            final(self).cursor() == old(self).cursor(),
            final(self).window_size() == old(self).window_size(),
    {
        self.buf.deliver(handle, chunks)
    }

    /// Hands out the store requests queued so far (see
    /// `Buffer::take_requests`).
    pub fn take_requests(&mut self) -> (r: Vec<crate::store::StoreRequest>)
        requires
            old(self).wf(),
        ensures
            final(self).wf(),
            crate::store::request_models(r@) == old(self).buffer()@.log,
            final(self).buffer()@ == (crate::window::BufferModel { log: Seq::empty(), ..old(self).buffer()@ }),
            final(self).paused() == old(self).paused(),
            final(self).cursor() == old(self).cursor(),
            final(self).window_size() == old(self).window_size(),
    {
        self.buf.take_requests()
    }
}

} // verus!

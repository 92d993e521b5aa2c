//! What holds of the window over every input: the shape of a query's
//! output, what a repeated query does, what pushing does.
use vstd::prelude::*;
use vstd::arithmetic::div_mod::{lemma_div_is_ordered, lemma_fundamental_div_mod};

use crate::store::RequestModel;
use crate::window::{empty_model, numbered, pad, slot_count, BufferModel, PAD};

verus! {

/// The page of an id that was pushed is resident or before the window.
proof fn lemma_page_in_range(m: BufferModel, id: int)
    requires
        m.wf(),
        1 <= id <= m.max_id,
    ensures
        0 <= m.page_of(id) <= m.open_page(),
        0 <= (id - 1) % (m.max_size as int) < m.max_size,
{
    lemma_div_is_ordered(id - 1, m.max_id as int, m.max_size as int);
    lemma_fundamental_div_mod(id - 1, m.max_size as int);
    vstd::arithmetic::div_mod::lemma_div_pos_is_pos(id - 1, m.max_size as int);
}

/// Every slot is a chunk's worth of bytes.
proof fn lemma_slot_len(m: BufferModel, id: int)
    requires
        m.wf(),
    ensures
        m.slot(id).len() == m.chunk_size,
{
    if m.resident(id) {
        lemma_page_in_range(m, id);
        let i = m.page_of(id) - m.front;
        assert(m.page_fits(m.pages[i]));
    }
}

/// A view splits into two consecutive views.
proof fn lemma_bytes_split(m: BufferModel, s: int, mid: int, e: int)
    requires
        s - 1 <= mid <= e,
    ensures
        m.bytes(s, e) == m.bytes(s, mid) + m.bytes(mid + 1, e),
    decreases e - mid,
{
    if mid == e {
        assert(m.bytes(mid + 1, e) == Seq::<u8>::empty());
        assert(m.bytes(s, e) =~= m.bytes(s, mid) + m.bytes(mid + 1, e));
    } else {
        lemma_bytes_split(m, s, mid, e - 1);
        if e == 0 {
            assert(m.bytes(s, e) =~= m.bytes(s, mid) + m.bytes(mid + 1, e));
        } else {
            assert(m.bytes(s, e) =~= m.bytes(s, mid) + m.bytes(mid + 1, e));
        }
    }
}

/// A view none of whose ids is resident is all padding.
proof fn lemma_bytes_all_pad(m: BufferModel, s: int, e: int)
    requires
        m.wf(),
        forall|id: int| s <= id <= e ==> !m.resident(id),
    ensures
        m.bytes(s, e) == pad((slot_count(s, e) * m.chunk_size) as nat),
    decreases e - s + 1,
{
    if e < s {
        assert(slot_count(s, e) == 0);
        assert(0 * (m.chunk_size as int) == 0) by (nonlinear_arith);
        assert(m.bytes(s, e) =~= pad((slot_count(s, e) * m.chunk_size) as nat));
    } else {
        lemma_bytes_all_pad(m, s, e - 1);
        let k = slot_count(s, e - 1);
        assert(k >= 0);
        if e == 0 {
            assert(slot_count(s, e) == k);
        } else {
            assert(slot_count(s, e) == k + 1);
            assert((k + 1) * m.chunk_size == k * m.chunk_size + m.chunk_size) by (nonlinear_arith);
            assert(k * m.chunk_size >= 0) by (nonlinear_arith)
                requires
                    k >= 0,
            ;
            assert(m.bytes(s, e) =~= pad((slot_count(s, e) * m.chunk_size) as nat));
        }
    }
}

/// The output of every view is a chunk's worth of bytes for each of its
/// slots, whatever the window holds.
pub proof fn lemma_bytes_len(m: BufferModel, start: int, end: int)
    requires
        m.wf(),
    ensures
        m.bytes(start, end).len() == slot_count(start, end) * m.chunk_size,
    decreases end - start + 1,
{
    if end >= start {
        lemma_bytes_len(m, start, end - 1);
        if end != 0 {
            lemma_slot_len(m, end);
        }
        assert((slot_count(start, end - 1) + 1) * m.chunk_size == slot_count(start, end - 1)
            * m.chunk_size + m.chunk_size) by (nonlinear_arith);
    }
}

/// A view of ids from 1 on has `(end - start + 1) * chunk_size` bytes.
pub proof fn lemma_view_len_from_one(m: BufferModel, start: int, end: int)
    requires
        m.wf(),
        1 <= start < end,
    ensures
        m.bytes(start, end).len() == (end - start + 1) * m.chunk_size,
{
    lemma_bytes_len(m, start, end);
}

/// A view that starts at or below 0 begins with `-start` slots of padding.
pub proof fn lemma_leading_padding(m: BufferModel, start: int, end: int)
    requires
        m.wf(),
        start <= 0,
    ensures
        forall|i: int|
            0 <= i < m.bytes(start, end).len() && i < -start * m.chunk_size ==> #[trigger] m.bytes(
                start,
                end,
            )[i] == PAD,
{
    let mid = if end < 0 { end } else { 0 };
    if end >= start {
        lemma_bytes_split(m, start, mid, end);
        lemma_bytes_all_pad(m, start, mid);
        if end >= 0 {
            assert(slot_count(start, mid) == -start);
        }
    } else {
        assert(m.bytes(start, end).len() == 0);
    }
}

/// A view that ends after the last id pushed ends with `end - max_id` slots
/// of padding.
pub proof fn lemma_trailing_padding(m: BufferModel, start: int, end: int)
    requires
        m.wf(),
        end > m.max_id,
    ensures
        forall|i: int|
            0 <= i < m.bytes(start, end).len() && i >= m.bytes(start, end).len() - (end - m.max_id)
                * m.chunk_size ==> #[trigger] m.bytes(start, end)[i] == PAD,
{
    let mid = if start - 1 > m.max_id { start - 1 } else { m.max_id as int };
    if end >= start {
        lemma_bytes_split(m, start, mid, end);
        lemma_bytes_all_pad(m, mid + 1, end);
        lemma_bytes_len(m, start, mid);
        if mid == m.max_id {
            assert(slot_count(mid + 1, end) == end - m.max_id);
        } else {
            lemma_bytes_all_pad(m, start, end);
        }
    } else {
        assert(m.bytes(start, end).len() == 0);
    }
}

/// After a query, repeating it with the same start asks the store for
/// nothing and leaves the window as it is, so it gives the same bytes. Store
/// answers that arrive in between fill pending pages, and the next repeat
/// leaves the window as they left it; once no page is pending, answers
/// change nothing, and every repeat gives the same bytes.
pub proof fn lemma_query_settles(
    m: BufferModel,
    start: int,
    key: int,
    epoch: nat,
    recs: Seq<(nat, Seq<u8>)>,
)
    requires
        m.wf(),
    ensures
        m.queried(start).queried(start) == m.queried(start),
        m.queried(start).delivered(key, epoch, recs).queried(start) == m.queried(start).delivered(
            key,
            epoch,
            recs,
        ),
        (forall|i: int| 0 <= i < m.queried(start).pages.len() ==> (#[trigger] m.queried(start).pages[i]) is Some)
            ==> m.queried(start).delivered(key, epoch, recs) == m.queried(start),
{
    let q = m.queried(start);
    assert(q.front == m.target_front(start));
    if q.fills(key, epoch) {
        assert(q.pages[q.page_of(key) - q.front] is None);
    }
}

/// A query never discards a chunk whose id is at or after its start.
pub proof fn lemma_query_keeps_later_chunks(m: BufferModel, start: int, id: int)
    requires
        m.wf(),
        id >= start,
        m.resident(id),
    ensures
        m.queried(start).resident(id),
        m.queried(start).chunk_at(id) == m.chunk_at(id),
{
    let f = m.target_front(start);
    lemma_page_in_range(m, id);
    if start > 1 {
        lemma_div_is_ordered(start - 1, id - 1, m.max_size as int);
    }
    assert(f <= m.page_of(id));
    let a = m.fetched(start);
    let i = m.page_of(id) - m.front;
    assert(a.pages[a.page_of(id) - a.front] == m.pages[i]);
    let q = a.pruned(start);
    if f > a.front {
        assert(q.pages[q.page_of(id) - q.front] == a.pages[a.page_of(id) - a.front]);
    }
}

/// The buffer after pushing `blocks` one after the other.
pub open spec fn pushed_all(m: BufferModel, blocks: Seq<Seq<u8>>) -> BufferModel
    decreases blocks.len(),
{
    if blocks.len() == 0 {
        m
    } else {
        pushed_all(m, blocks.drop_last()).pushed(blocks.last())
    }
}

/// `x + 1` stays on the page of `x` unless `x` ends one.
pub proof fn lemma_next_id(x: int, m: int)
    requires
        x >= 0,
        m > 0,
    ensures
        x % m + 1 < m ==> (x + 1) / m == x / m && (x + 1) % m == x % m + 1,
        x % m + 1 == m ==> (x + 1) / m == x / m + 1 && (x + 1) % m == 0,
        x % m + 1 <= m,
{
    vstd::arithmetic::div_mod::lemma_fundamental_div_mod(x, m);
    assert(x % m < m && x % m >= 0);
    if x % m + 1 < m {
        assert(x + 1 == (x / m) * m + (x % m + 1)) by (nonlinear_arith)
            requires
                x == m * (x / m) + x % m,
        ;
        vstd::arithmetic::div_mod::lemma_fundamental_div_mod_converse(x + 1, m, x / m, x % m + 1);
    } else {
        assert(x + 1 == (x / m + 1) * m + 0) by (nonlinear_arith)
            requires
                x == m * (x / m) + x % m,
                x % m + 1 == m,
        ;
        vstd::arithmetic::div_mod::lemma_fundamental_div_mod_converse(x + 1, m, x / m + 1, 0);
    }
}

/// Pushing keeps the window well formed, keeps every resident chunk, and
/// makes the new chunk resident under the next id.
proof fn lemma_pushed(m: BufferModel, data: Seq<u8>)
    requires
        m.wf(),
        data.len() == m.chunk_size,
        m.max_id + 1 + m.max_size <= usize::MAX,
    ensures
        m.pushed(data).wf(),
        m.pushed(data).front == m.front,
        m.pushed(data).max_id == m.max_id + 1,
        m.pushed(data).resident(m.max_id + 1int),
        m.pushed(data).chunk_at(m.max_id + 1int) == data,
        forall|id: int| #[trigger] m.resident(id) ==> m.pushed(data).resident(id) && m.pushed(
            data,
        ).chunk_at(id) == m.chunk_at(id),
{
    let p = m.pushed(data);
    let last = m.pages.len() - 1;
    let open = m.pages[last]->0.push(data);
    lemma_next_id(m.max_id as int, m.max_size as int);
    assert(m.page_fits(m.pages[last]));
    assert(p.page_fits(p.pages[last])) by {
        assert(p.pages[last] == Some(open));
        assert forall|j: int| 0 <= j < open.len() implies (#[trigger] open[j]).len() == m.chunk_size by {
            if j < open.len() - 1 {
                assert(open[j] == m.pages[last]->0[j]);
            }
        }
    }
    assert forall|i: int| 0 <= i < p.pages.len() implies p.page_fits(#[trigger] p.pages[i]) by {
        if i < last {
            assert(p.pages[i] == m.pages[i]);
        }
    }
    assert forall|id: int| #[trigger] m.resident(id) implies p.resident(id) && p.chunk_at(id) == m.chunk_at(id) by {
        lemma_page_in_range(m, id);
        let i = m.page_of(id) - m.front;
        if i < last {
            assert(p.pages[i] == m.pages[i]);
        } else {
            assert(p.pages[i] == Some(open));
        }
    }
}

/// After pushing blocks one by one into an empty buffer, the last id is the
/// number of blocks, and the chunk with id `n` holds the `n`-th block.
pub proof fn lemma_push_numbering(chunk_size: nat, max_size: nat, blocks: Seq<Seq<u8>>)
    requires
        chunk_size > 0,
        max_size > 0,
        blocks.len() + max_size <= usize::MAX,
        forall|i: int| 0 <= i < blocks.len() ==> (#[trigger] blocks[i]).len() == chunk_size,
    ensures
        pushed_all(empty_model(chunk_size, max_size), blocks).wf(),
        pushed_all(empty_model(chunk_size, max_size), blocks).chunk_size == chunk_size,
        pushed_all(empty_model(chunk_size, max_size), blocks).max_size == max_size,
        pushed_all(empty_model(chunk_size, max_size), blocks).max_id == blocks.len(),
        forall|n: int|
            1 <= n <= blocks.len() ==> #[trigger] pushed_all(empty_model(chunk_size, max_size), blocks).resident(n)
                && pushed_all(empty_model(chunk_size, max_size), blocks).chunk_at(n) == blocks[n - 1],
    decreases blocks.len(),
{
    let e = empty_model(chunk_size, max_size);
    if blocks.len() == 0 {
        assert(e.wf()) by {
            assert(0int / max_size as int == 0);
            assert(0int % max_size as int == 0);
        }
    } else {
        let init = blocks.drop_last();
        lemma_push_numbering(chunk_size, max_size, init);
        let a = pushed_all(e, init);
        assert(blocks[blocks.len() - 1].len() == chunk_size);
        lemma_pushed(a, blocks.last());
        assert(pushed_all(e, blocks) == a.pushed(blocks.last()));
        assert forall|n: int| 1 <= n <= blocks.len() implies #[trigger] pushed_all(e, blocks).resident(n)
            && pushed_all(e, blocks).chunk_at(n) == blocks[n - 1] by {
            if n == blocks.len() {
                assert(n == a.max_id + 1);
            } else {
                assert(a.resident(n));
                assert(init[n - 1] == blocks[n - 1]);
            }
        }
    }
}

/// The open page while the first page fills: no page closed yet.
proof fn lemma_first_page_filling(chunk_size: nat, max_size: nat, blocks: Seq<Seq<u8>>)
    requires
        chunk_size > 0,
        max_size > 0,
        blocks.len() < max_size,
        max_size + max_size <= usize::MAX,
    ensures
        pushed_all(empty_model(chunk_size, max_size), blocks) == (BufferModel {
            max_id: blocks.len(),
            pages: seq![Some(blocks)],
            ..empty_model(chunk_size, max_size)
        }),
    decreases blocks.len(),
{
    let e = empty_model(chunk_size, max_size);
    if blocks.len() == 0 {
        assert(blocks =~= Seq::<Seq<u8>>::empty());
    } else {
        let init = blocks.drop_last();
        lemma_first_page_filling(chunk_size, max_size, init);
        let a = pushed_all(e, init);
        assert(a.pages[0]->0.push(blocks.last()) =~= blocks);
        assert(a.pages.update(0, Some(blocks)) =~= seq![Some(blocks)]);
    }
}

/// After exactly a page's worth of pushes into an empty buffer, the first
/// page is closed and full, the open page after it is empty, and the store
/// has been asked to keep the first page under key 1.
pub proof fn lemma_first_page_closes(chunk_size: nat, max_size: nat, blocks: Seq<Seq<u8>>)
    requires
        chunk_size > 0,
        max_size > 0,
        blocks.len() == max_size,
        max_size + max_size <= usize::MAX,
    ensures
        pushed_all(empty_model(chunk_size, max_size), blocks).max_id == max_size,
        pushed_all(empty_model(chunk_size, max_size), blocks).pages == seq![
            Some(blocks),
            Some(Seq::<Seq<u8>>::empty()),
        ],
        pushed_all(empty_model(chunk_size, max_size), blocks).log == seq![
            RequestModel::Put(1, numbered(blocks, 1)),
        ],
{
    let e = empty_model(chunk_size, max_size);
    let init = blocks.drop_last();
    lemma_first_page_filling(chunk_size, max_size, init);
    let a = pushed_all(e, init);
    assert(a.open_page() == 0) by {
        vstd::arithmetic::div_mod::lemma_fundamental_div_mod_converse(
            (max_size - 1) as int,
            max_size as int,
            0,
            (max_size - 1) as int,
        );
    }
    assert(a.pages[0]->0.push(blocks.last()) =~= blocks);
    assert(a.key_of(0) == 1);
    let r = pushed_all(e, blocks);
    assert(r.pages =~= seq![Some(blocks), Some(Seq::<Seq<u8>>::empty())]);
    assert(r.log =~= seq![RequestModel::Put(1, numbered(blocks, 1))]);
}

} // verus!

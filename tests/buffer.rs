use audio_scrollback::buffer::{CHUNK_SIZE, MAX_SIZE};
use audio_scrollback::{Buffer, Chunk, FetchHandle, RangeError, StoreRequest, View};

fn filled(n: usize, chunk_size: usize, max_size: usize) -> Buffer {
    let mut b = Buffer::with_sizes(chunk_size, max_size);
    for i in 1..=n {
        let id = b.push(vec![i as u8; chunk_size]);
        assert_eq!(id, i);
    }
    b
}

fn get_handle(r: &StoreRequest) -> FetchHandle {
    match r {
        StoreRequest::Get { handle } => *handle,
        _ => panic!("expected a fetch request"),
    }
}

#[test]
fn view_before_recording_is_padded_then_real() {
    let mut b = filled(25, 4, 10);
    let out = b.get_data(&View { start: -2, end: 5 }).unwrap();
    assert_eq!(out.len(), 28);
    assert_eq!(&out[..8], &[128u8; 8][..]);
    for i in 1..=5usize {
        assert_eq!(&out[8 + (i - 1) * 4..8 + i * 4], &[i as u8; 4][..]);
    }
}

#[test]
fn view_length_from_resident_ids() {
    let mut b = filled(25, 4, 10);
    let out = b.get_data(&View { start: 3, end: 17 }).unwrap();
    assert_eq!(out.len(), (17 - 3 + 1) * 4);
    for id in 3..=17usize {
        assert_eq!(out[(id - 3) * 4], id as u8);
    }
}

#[test]
fn view_length_does_not_depend_on_contents() {
    let mut empty = Buffer::with_sizes(4, 10);
    let mut full = filled(25, 4, 10);
    for (s, e) in [(-5isize, -1isize), (-3, 3), (1, 2), (20, 40), (0, 1)] {
        let a = empty.get_data(&View { start: s, end: e }).unwrap();
        let b = full.get_data(&View { start: s, end: e }).unwrap();
        assert_eq!(a.len(), b.len());
    }
    assert_eq!(empty.get_data(&View { start: -5, end: -1 }).unwrap().len(), 5 * 4);
    assert_eq!(empty.get_data(&View { start: -3, end: 3 }).unwrap().len(), 6 * 4);
}

#[test]
fn leading_slots_are_padding() {
    let mut b = filled(25, 4, 10);
    let out = b.get_data(&View { start: -4, end: 2 }).unwrap();
    assert_eq!(out.len(), 6 * 4);
    assert!(out[..16].iter().all(|&x| x == 128));
    assert_eq!(&out[16..], &[1, 1, 1, 1, 2, 2, 2, 2][..]);
}

#[test]
fn trailing_slots_are_padding() {
    let mut b = filled(25, 4, 10);
    let out = b.get_data(&View { start: 23, end: 30 }).unwrap();
    assert_eq!(out.len(), 8 * 4);
    assert_eq!(&out[..12], &[23, 23, 23, 23, 24, 24, 24, 24, 25, 25, 25, 25][..]);
    assert!(out[12..].iter().all(|&x| x == 128));
}

#[test]
fn empty_view_is_refused() {
    let mut b = filled(5, 4, 10);
    assert_eq!(b.get_data(&View { start: 3, end: 3 }), Err(RangeError::InvalidRange));
    assert_eq!(b.get_data(&View { start: 4, end: 2 }), Err(RangeError::InvalidRange));
    assert!(b.take_requests().is_empty());
}

#[test]
fn pushes_are_numbered_from_one() {
    let mut b = Buffer::with_sizes(2, 3);
    for n in 1..=7usize {
        assert_eq!(b.push(vec![n as u8, 0]), n);
        assert_eq!(b.max_id(), n);
    }
    let out = b.get_data(&View { start: 1, end: 7 }).unwrap();
    assert_eq!(out, vec![1, 0, 2, 0, 3, 0, 4, 0, 5, 0, 6, 0, 7, 0]);
}

#[test]
fn full_page_is_closed_and_stored_under_key_one() {
    let mut b = Buffer::with_sizes(4, 10);
    for i in 1..=9usize {
        b.push(vec![i as u8; 4]);
        assert!(b.take_requests().is_empty());
    }
    b.push(vec![10; 4]);
    let reqs = b.take_requests();
    assert_eq!(reqs.len(), 1);
    match &reqs[0] {
        StoreRequest::Put { key, chunks } => {
            assert_eq!(*key, 1);
            assert_eq!(chunks.len(), 10);
            for (j, c) in chunks.iter().enumerate() {
                assert_eq!(c.id, j + 1);
                assert_eq!(c.data, vec![(j + 1) as u8; 4]);
            }
        }
        _ => panic!("expected a write request"),
    }
    // The open page is empty: the next id is 11, and nothing after 10 shows.
    let out = b.get_data(&View { start: 10, end: 11 }).unwrap();
    assert_eq!(out, vec![10, 10, 10, 10, 128, 128, 128, 128]);
    assert_eq!(b.push(vec![11; 4]), 11);
}

#[test]
fn second_page_is_stored_under_its_first_id() {
    let mut b = filled(20, 1, 10);
    let reqs = b.take_requests();
    let keys: Vec<usize> = reqs
        .iter()
        .map(|r| match r {
            StoreRequest::Put { key, .. } => *key,
            _ => panic!("expected a write request"),
        })
        .collect();
    assert_eq!(keys, vec![1, 11]);
}

#[test]
fn repeated_query_settles_after_fetch() {
    let mut b = filled(25, 4, 10);
    let stored = b.take_requests();
    // Move the window past the first page, which is then discarded.
    b.get_data(&View { start: 15, end: 20 }).unwrap();
    assert!(b.take_requests().is_empty());
    // Looking back needs the first page again: it is fetched.
    let first = b.get_data(&View { start: 3, end: 6 }).unwrap();
    assert_eq!(first, vec![128; 16]);
    let reqs = b.take_requests();
    assert_eq!(reqs.len(), 1);
    let handle = get_handle(&reqs[0]);
    assert_eq!(handle.key, 1);
    // Until the store answers, repeating gives the same bytes and asks nothing.
    assert_eq!(b.get_data(&View { start: 3, end: 6 }).unwrap(), first);
    assert!(b.take_requests().is_empty());
    let page = match &stored[0] {
        StoreRequest::Put { chunks, .. } => chunks.iter().map(|c| c.duplicate()).collect::<Vec<Chunk>>(),
        _ => panic!("expected a write request"),
    };
    assert!(b.deliver(handle, page));
    let second = b.get_data(&View { start: 3, end: 6 }).unwrap();
    assert_eq!(second, vec![3, 3, 3, 3, 4, 4, 4, 4, 5, 5, 5, 5, 6, 6, 6, 6]);
    assert_eq!(b.get_data(&View { start: 3, end: 6 }).unwrap(), second);
    assert!(b.take_requests().is_empty());
    // A second answer for the same page changes nothing.
    assert!(!b.deliver(handle, Vec::new()));
    assert_eq!(b.get_data(&View { start: 3, end: 6 }).unwrap(), second);
}

#[test]
fn absent_page_is_a_gap() {
    let mut b = filled(25, 4, 10);
    b.take_requests();
    b.get_data(&View { start: 15, end: 20 }).unwrap();
    b.get_data(&View { start: 3, end: 6 }).unwrap();
    let handle = get_handle(&b.take_requests()[0]);
    assert!(b.deliver(handle, Vec::new()));
    assert_eq!(b.get_data(&View { start: 3, end: 6 }).unwrap(), vec![128; 16]);
    assert!(b.take_requests().is_empty());
}

#[test]
fn malformed_answer_is_a_gap() {
    let mut b = filled(25, 4, 10);
    b.take_requests();
    b.get_data(&View { start: 15, end: 20 }).unwrap();
    b.get_data(&View { start: 3, end: 6 }).unwrap();
    let handle = get_handle(&b.take_requests()[0]);
    let wrong = vec![Chunk::new(2, vec![2; 4])];
    assert!(b.deliver(handle, wrong));
    assert_eq!(b.get_data(&View { start: 1, end: 2 }).unwrap(), vec![128; 8]);
}

#[test]
fn pruning_keeps_later_chunks() {
    let mut b = filled(35, 1, 10);
    b.take_requests();
    let out = b.get_data(&View { start: 21, end: 35 }).unwrap();
    assert_eq!(out, (21..=35u8).collect::<Vec<u8>>());
    assert!(b.take_requests().is_empty());
    let again = b.get_data(&View { start: 19, end: 35 }).unwrap();
    assert_eq!(&again[2..], &out[..]);
    assert_eq!(&again[..2], &[128, 128][..]);
    let reqs = b.take_requests();
    assert_eq!(reqs.len(), 1);
    assert_eq!(get_handle(&reqs[0]).key, 11);
}

#[test]
fn late_answer_after_prune_is_ignored() {
    let mut b = filled(35, 1, 10);
    b.take_requests();
    b.get_data(&View { start: 25, end: 30 }).unwrap();
    b.get_data(&View { start: 5, end: 30 }).unwrap();
    let reqs = b.take_requests();
    assert_eq!(reqs.len(), 2);
    assert_eq!(get_handle(&reqs[0]).key, 11);
    assert_eq!(get_handle(&reqs[1]).key, 1);
    b.get_data(&View { start: 31, end: 35 }).unwrap();
    let page: Vec<Chunk> = (11..=20).map(|i| Chunk::new(i, vec![i as u8])).collect();
    assert!(!b.deliver(get_handle(&reqs[0]), page));
    assert_eq!(b.get_data(&View { start: 31, end: 35 }).unwrap(), vec![31, 32, 33, 34, 35]);
}

#[test]
fn future_ids_are_never_fetched() {
    let mut b = filled(5, 2, 10);
    let out = b.get_data(&View { start: 4, end: 100 }).unwrap();
    assert_eq!(out.len(), 97 * 2);
    assert_eq!(&out[..4], &[4, 4, 5, 5][..]);
    assert!(b.take_requests().is_empty());
}

#[test]
fn clear_forgets_and_wipes_the_store() {
    let mut b = filled(25, 4, 10);
    b.take_requests();
    b.get_data(&View { start: 15, end: 20 }).unwrap();
    b.get_data(&View { start: 1, end: 5 }).unwrap();
    let old = get_handle(&b.take_requests()[0]);
    b.clear();
    assert_eq!(b.max_id(), 0);
    let reqs = b.take_requests();
    assert_eq!(reqs.len(), 1);
    assert!(matches!(reqs[0], StoreRequest::Clear));
    assert_eq!(b.get_data(&View { start: 1, end: 3 }).unwrap(), vec![128; 12]);
    let page: Vec<Chunk> = (1..=10).map(|i| Chunk::new(i, vec![i as u8; 4])).collect();
    assert!(!b.deliver(old, page));
    assert_eq!(b.push(vec![7; 4]), 1);
    assert_eq!(b.get_data(&View { start: 1, end: 2 }).unwrap(), vec![7, 7, 7, 7, 128, 128, 128, 128]);
}

#[test]
fn default_sizes() {
    let mut b = Buffer::new();
    assert_eq!(b.chunk_size(), CHUNK_SIZE);
    assert_eq!(b.max_size(), MAX_SIZE);
    assert_eq!(b.get_data(&View { start: -1, end: 1 }).unwrap().len(), 2 * CHUNK_SIZE);
}

#[test]
fn chunk_new_keeps_fields() {
    let c = Chunk::new(7, vec![1, 2, 3]);
    assert_eq!(c.id, 7);
    assert_eq!(c.data, vec![1, 2, 3]);
    let d = c.duplicate();
    assert_eq!(d.id, 7);
    assert_eq!(d.data, vec![1, 2, 3]);
}

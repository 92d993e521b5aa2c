use audio_scrollback::buffer::CHUNK_SIZE;
use audio_scrollback::recorder::CHUNK_NUM;
use audio_scrollback::{Recorder, StoreRequest, View};

#[test]
fn live_view_follows_newest_chunk() {
    let mut r = Recorder::new();
    assert!(r.is_paused());
    r.toggle_pause();
    assert!(!r.is_paused());
    for i in 1..=3usize {
        assert_eq!(r.update(vec![i as u8; CHUNK_SIZE]), i);
    }
    assert_eq!(r.view(), View { start: 3 - CHUNK_NUM as isize, end: 3 });
    let out = r.flush_data().unwrap();
    assert_eq!(out.len(), (CHUNK_NUM - 3 + 3) * CHUNK_SIZE);
    assert_eq!(out[out.len() - 1], 3);
    assert_eq!(out[0], 128);
}

#[test]
fn paused_cursor_scrolls_within_recorded_ids() {
    let mut r = Recorder::new();
    r.toggle_pause();
    for i in 1..=4usize {
        r.update(vec![i as u8; CHUNK_SIZE]);
    }
    r.toggle_pause();
    r.scroll_forward();
    assert_eq!(r.view().end, 4);
    r.scroll_back();
    r.scroll_back();
    assert_eq!(r.view().end, 2);
    for _ in 0..5 {
        r.scroll_back();
    }
    assert_eq!(r.view(), View { start: -(CHUNK_NUM as isize), end: 0 });
    r.toggle_pause();
    r.scroll_back();
    assert_eq!(r.view().end, 4);
}

#[test]
fn clear_resets_cursor_and_store() {
    let mut r = Recorder::new();
    r.update(vec![9; CHUNK_SIZE]);
    r.clear();
    assert_eq!(r.max_id(), 0);
    assert_eq!(r.view().end, 0);
    let reqs = r.take_requests();
    assert!(matches!(reqs.last(), Some(StoreRequest::Clear)));
}

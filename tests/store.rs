use audio_scrollback::{Chunk, Data, FetchHandle, StoreRequest};

#[test]
fn requests_come_out_in_order() {
    let mut d = Data::new();
    d.put(1, vec![Chunk::new(1, vec![5])]);
    d.get_from_db(FetchHandle { key: 11, epoch: 3 });
    d.clear();
    let reqs = d.take_requests();
    assert_eq!(reqs.len(), 3);
    match &reqs[0] {
        StoreRequest::Put { key, chunks } => {
            assert_eq!(*key, 1);
            assert_eq!(chunks[0].data, vec![5]);
        }
        _ => panic!("expected a write request"),
    }
    match &reqs[1] {
        StoreRequest::Get { handle } => assert_eq!(*handle, FetchHandle { key: 11, epoch: 3 }),
        _ => panic!("expected a fetch request"),
    }
    assert!(matches!(reqs[2], StoreRequest::Clear));
    assert!(d.take_requests().is_empty());
}

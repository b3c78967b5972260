use body_views::{
    bytes_equal, read_whole_body, read_whole_request_body, read_whole_response_body,
    replace_whole_body, same_chunks, BodyBuffers, BodyView, Direction, StreamBodyState,
};

fn three_chunks(s: &mut BodyBuffers, d: Direction, v: BodyView, text: &[u8]) {
    let ids = vec![
        s.add_block(text.to_vec()),
        s.add_block(text.to_vec()),
        s.add_block(text.to_vec()),
    ];
    assert!(s.set_view(d, v, Some(ids)));
}

#[test]
fn test_body_callbacks_filter_on_bodies() {
    let mut s = BodyBuffers::new(u64::MAX);
    three_chunks(&mut s, Direction::Request, BodyView::Received, b"nice");
    three_chunks(&mut s, Direction::Request, BodyView::Buffered, b"nice");

    let mut request = StreamBodyState::new(Direction::Request);
    request.on_body(&s, true);
    assert!(replace_whole_body(&mut s, Direction::Request, b"replaced"));
    assert_eq!(
        std::str::from_utf8(request.whole_body().unwrap()).unwrap(),
        "nicenicenicenicenicenice"
    );

    three_chunks(&mut s, Direction::Response, BodyView::Received, b"cool");
    three_chunks(&mut s, Direction::Response, BodyView::Buffered, b"cool");

    let mut response = StreamBodyState::new(Direction::Response);
    response.on_body(&s, true);
    assert!(replace_whole_body(&mut s, Direction::Response, b"replaced"));
    assert_eq!(
        std::str::from_utf8(response.whole_body().unwrap()).unwrap(),
        "coolcoolcoolcoolcoolcool"
    );
}

#[test]
fn disjoint_identical_chunks_give_all_six() {
    let mut s = BodyBuffers::new(u64::MAX);
    three_chunks(&mut s, Direction::Request, BodyView::Received, b"nice");
    three_chunks(&mut s, Direction::Request, BodyView::Buffered, b"nice");
    let body = read_whole_request_body(&s);
    assert_eq!(body.len(), 24);
    assert_eq!(body, b"nicenicenicenicenicenice");
}

#[test]
fn read_after_replace_gives_new_body() {
    let mut s = BodyBuffers::new(u64::MAX);
    let a = s.add_block(b"hello ".to_vec());
    let b = s.add_block(b"world".to_vec());
    assert!(s.set_view(Direction::Request, BodyView::Buffered, Some(vec![a])));
    assert!(s.set_view(Direction::Request, BodyView::Received, Some(vec![b])));
    assert!(replace_whole_body(&mut s, Direction::Request, b"HELLO WORLD"));
    assert_eq!(read_whole_request_body(&s), b"HELLO WORLD");
    let received = s.get_view(Direction::Request, BodyView::Received).unwrap();
    let buffered = s.get_view(Direction::Request, BodyView::Buffered).unwrap();
    assert_eq!(received.len(), 1);
    assert!(same_chunks(&received, &buffered));
    assert_eq!(s.chunk_bytes(received[0]), b"HELLO WORLD");
}

#[test]
fn replace_of_aliased_views() {
    let mut s = BodyBuffers::new(u64::MAX);
    let a = s.add_block(b"hello world".to_vec());
    assert!(s.set_view(Direction::Response, BodyView::Received, Some(vec![a])));
    assert!(s.set_view(Direction::Response, BodyView::Buffered, Some(vec![a])));
    assert!(replace_whole_body(&mut s, Direction::Response, b"bye"));
    assert_eq!(read_whole_response_body(&s), b"bye");
}

#[test]
fn replace_creates_absent_views() {
    let mut s = BodyBuffers::new(u64::MAX);
    assert!(replace_whole_body(&mut s, Direction::Request, b"new"));
    assert!(s.get_view(Direction::Request, BodyView::Received).is_some());
    assert!(s.get_view(Direction::Request, BodyView::Buffered).is_some());
    assert_eq!(read_whole_request_body(&s), b"new");
}

#[test]
fn replace_with_empty_body() {
    let mut s = BodyBuffers::new(u64::MAX);
    let a = s.add_block(b"old".to_vec());
    assert!(s.set_view(Direction::Request, BodyView::Received, Some(vec![a])));
    assert!(replace_whole_body(&mut s, Direction::Request, b""));
    assert!(read_whole_request_body(&s).is_empty());
}

#[test]
fn replace_leaves_other_direction() {
    let mut s = BodyBuffers::new(u64::MAX);
    let a = s.add_block(b"resp".to_vec());
    assert!(s.set_view(Direction::Response, BodyView::Received, Some(vec![a])));
    assert!(replace_whole_body(&mut s, Direction::Request, b"req"));
    assert_eq!(read_whole_response_body(&s), b"resp");
}

#[test]
fn replace_over_limit_fails_and_drains() {
    let mut s = BodyBuffers::new(4);
    let a = s.add_block(b"abc".to_vec());
    assert!(s.set_view(Direction::Request, BodyView::Received, Some(vec![a])));
    assert!(!replace_whole_body(&mut s, Direction::Request, b"too long"));
    assert!(read_whole_request_body(&s).is_empty());
    assert!(replace_whole_body(&mut s, Direction::Request, b"four"));
    assert_eq!(read_whole_request_body(&s), b"four");
}

#[test]
fn buffer_limit_get_and_set() {
    let mut s = BodyBuffers::new(1024);
    assert_eq!(s.buffer_limit(), 1024);
    s.set_buffer_limit(2048);
    assert_eq!(s.buffer_limit(), 2048);
}

#[test]
fn append_refused_over_limit() {
    let mut s = BodyBuffers::new(5);
    assert!(s.append_view(Direction::Request, BodyView::Buffered, b"abc"));
    assert!(!s.append_view(Direction::Request, BodyView::Buffered, b"def"));
    assert!(s.append_view(Direction::Request, BodyView::Buffered, b"de"));
    assert_eq!(read_whole_request_body(&s), b"abcde");
}

#[test]
fn append_shares_block_with_other_view() {
    let mut s = BodyBuffers::new(u64::MAX);
    assert!(s.append_view(Direction::Request, BodyView::Received, b"abc"));
    assert!(s.append_view(Direction::Request, BodyView::Buffered, b"abc"));
    let r = s.get_view(Direction::Request, BodyView::Received).unwrap();
    let b = s.get_view(Direction::Request, BodyView::Buffered).unwrap();
    assert!(same_chunks(&r, &b));
    assert!(s.append_view(Direction::Request, BodyView::Buffered, b"xyz"));
    assert_eq!(read_whole_request_body(&s), b"abcxyzabc");
}

#[test]
fn drain_reports_whether_chunks_were_removed() {
    let mut s = BodyBuffers::new(u64::MAX);
    assert!(!s.drain_view(Direction::Request, BodyView::Received));
    assert!(s.get_view(Direction::Request, BodyView::Received).is_none());
    assert!(s.append_view(Direction::Request, BodyView::Received, b"x"));
    assert!(s.drain_view(Direction::Request, BodyView::Received));
    assert_eq!(s.get_view(Direction::Request, BodyView::Received), Some(vec![]));
    assert!(!s.drain_view(Direction::Request, BodyView::Received));
}

#[test]
fn set_view_refuses_unknown_identity() {
    let mut a = BodyBuffers::new(u64::MAX);
    let mut b = BodyBuffers::new(u64::MAX);
    b.add_block(b"one".to_vec());
    let id = b.add_block(b"two".to_vec());
    assert!(!a.set_view(Direction::Request, BodyView::Received, Some(vec![id])));
    assert!(a.get_view(Direction::Request, BodyView::Received).is_none());
}

#[test]
fn comparator_is_order_sensitive() {
    let mut s = BodyBuffers::new(u64::MAX);
    let a = s.add_block(b"a".to_vec());
    let b = s.add_block(b"b".to_vec());
    assert!(same_chunks(&[a, b], &[a, b]));
    assert!(!same_chunks(&[a, b], &[b, a]));
    assert!(!same_chunks(&[a], &[a, b]));
    assert!(same_chunks(&[], &[]));
}

#[test]
fn bytes_equal_compares_contents() {
    assert!(bytes_equal(b"abc", b"abc"));
    assert!(!bytes_equal(b"abc", b"abd"));
    assert!(!bytes_equal(b"ab", b"abc"));
}

#[test]
fn stream_state_collects_until_end() {
    let mut s = BodyBuffers::new(u64::MAX);
    let mut state = StreamBodyState::new(Direction::Request);
    assert!(s.append_view(Direction::Request, BodyView::Received, b"part1"));
    state.on_body(&s, false);
    assert!(!state.is_finalized());
    assert!(state.whole_body().is_none());
    assert!(s.drain_view(Direction::Request, BodyView::Received));
    assert!(s.append_view(Direction::Request, BodyView::Received, b"part2"));
    let id = s.add_block(b"part1".to_vec());
    assert!(s.set_view(Direction::Request, BodyView::Buffered, Some(vec![id])));
    state.on_body(&s, true);
    assert!(state.is_finalized());
    assert_eq!(state.received_bytes(), b"part1part2");
    assert_eq!(state.whole_body().unwrap(), b"part1part2");
    assert_eq!(state.direction(), Direction::Request);

    // Finalized is terminal.
    assert!(s.append_view(Direction::Request, BodyView::Received, b"late"));
    state.on_body(&s, true);
    state.on_trailers(&s);
    assert_eq!(state.received_bytes(), b"part1part2");
    assert_eq!(state.whole_body().unwrap(), b"part1part2");
}

#[test]
fn stream_state_finalized_by_trailers() {
    let mut s = BodyBuffers::new(u64::MAX);
    let mut state = StreamBodyState::new(Direction::Response);
    assert!(s.append_view(Direction::Response, BodyView::Received, b"data"));
    state.on_body(&s, false);
    state.on_trailers(&s);
    assert!(state.is_finalized());
    assert_eq!(state.whole_body().unwrap(), b"data");
    assert_eq!(read_whole_body(&s, Direction::Response), b"data");
}

use moq::control::RequestIds;
use moq::scheduler::{stream_priority, Decision, GroupWindow, Slot};
use moq::subscribe::SubscribeOk;
use moq::subscriber::{classify_stream, take_chunk, StreamError, Subscriptions};

#[test]
fn three_groups_in_order() {
    let mut w = GroupWindow::new();
    assert_eq!(w.on_group(2, 1), Decision::Serve { priority: stream_priority(2, 1), cancel: None });
    assert_eq!(w.on_group(2, 2), Decision::Serve { priority: stream_priority(2, 2), cancel: None });
    assert_eq!(
        w.on_group(2, 3),
        Decision::Serve { priority: stream_priority(2, 3), cancel: Some(1) }
    );
    w.on_finished(Slot::Old);
    w.on_finished(Slot::New);
    assert_eq!(w.on_group(2, 4), Decision::Serve { priority: stream_priority(2, 4), cancel: None });
}

#[test]
fn late_group_is_dropped() {
    let mut w = GroupWindow::new();
    assert!(matches!(w.on_group(0, 3), Decision::Serve { cancel: None, .. }));
    assert_eq!(w.on_group(0, 1), Decision::Skip);
    assert!(matches!(w.on_group(0, 5), Decision::Serve { cancel: None, .. }));
    assert!(matches!(w.on_group(0, 4), Decision::Serve { cancel: Some(3), .. }));
    assert_eq!(w.on_group(0, 2), Decision::Skip);
    assert!(matches!(w.on_group(0, 6), Decision::Serve { cancel: Some(4), .. }));
}

#[test]
fn priorities() {
    assert_eq!(stream_priority(0, 0), 0);
    assert_eq!(stream_priority(2, 0), 0x0200_0000);
    assert_eq!(stream_priority(2, 5), 0x0200_0005);
    assert_eq!(stream_priority(1, 0x100_0000), 0x0100_0000);
    assert_eq!(stream_priority(128, 7), 0x8000_0007u32 as i32);
    assert!(stream_priority(2, 9) > stream_priority(2, 8));
    assert!(stream_priority(3, 0) > stream_priority(2, 0xFF_FFFF));
}

#[test]
fn request_ids_by_side() {
    let mut client = RequestIds::new(true);
    let mut server = RequestIds::new(false);
    assert_eq!((client.next(), client.next(), client.next()), (0, 2, 4));
    assert_eq!((server.next(), server.next()), (1, 3));
}

#[test]
fn aliases() {
    let mut s = Subscriptions::new();
    s.start(4);
    assert_eq!(s.resolve(4), Ok(4));
    s.recv_subscribe_ok(&SubscribeOk { request_id: 4, track_alias: 9 });
    assert_eq!(s.resolve(9), Ok(4));
    assert_eq!(s.resolve(5), Err(StreamError::NotFound));
    assert!(s.finish(4));
    assert_eq!(s.resolve(9), Err(StreamError::NotFound));
    assert!(!s.finish(4));
}

#[test]
fn stream_kinds_and_chunks() {
    assert_eq!(classify_stream(0x05), Err(StreamError::Unsupported));
    assert_eq!(classify_stream(0x10), Ok(()));
    assert_eq!(classify_stream(0x1d), Ok(()));
    assert_eq!(classify_stream(0x1e), Err(StreamError::UnexpectedStream));
    assert_eq!(take_chunk(10, Some(4)), Ok(6));
    assert_eq!(take_chunk(3, Some(4)), Err(StreamError::WrongSize));
    assert_eq!(take_chunk(3, None), Err(StreamError::WrongSize));
}

#[test]
fn unused_track_sends_unsubscribe() {
    let mut s = Subscriptions::new();
    s.start(6);
    s.recv_subscribe_ok(&SubscribeOk { request_id: 6, track_alias: 11 });
    let msg = s.track_unused(6).unwrap();
    assert_eq!(msg.request_id, 6);
    assert_eq!(s.resolve(11), Err(StreamError::NotFound));
    assert!(s.track_unused(6).is_none());
}

use moq::control::{decode_control, read_frame, ControlError, ControlMessage, RequestIds};
use moq::group::{decode_objects, encode_group, GroupFlags, GroupHeader};
use moq::model::{FrameWrite, TrackWindow, WindowError};
use moq::path::Path;
use moq::publish_namespace::PublishNamespace;
use moq::publisher::{announce, subscribe_reply, subscription_end};
use moq::scheduler::{Decision, GroupWindow};
use moq::setup::{ClientSetup, ServerSetup};
use moq::parameters::Parameters;
use moq::subscribe::{FilterType, Subscribe, Unsubscribe};
use moq::subscriber::publish_namespace_reply;
use moq::group::GroupOrder;

fn framed(msg: &ControlMessage) -> Vec<u8> {
    msg.encode_frame().unwrap()
}

fn read_one(bytes: &[u8]) -> ControlMessage {
    let (id, start, end) = read_frame(bytes, 0).unwrap();
    assert_eq!(end, bytes.len());
    decode_control(id, &bytes[start..end]).unwrap()
}

#[test]
fn publisher_session_scenario() {
    // Handshake.
    let client = ClientSetup { versions: vec![0xff00000e], parameters: Parameters::new() };
    let mut w = Vec::new();
    client.encode(&mut w);
    let (hello, _) = ClientSetup::decode(&w, 0).unwrap();
    let server = ServerSetup { version: hello.versions[0], parameters: Parameters::new() };
    let mut w = Vec::new();
    server.encode(&mut w);
    assert_eq!(ServerSetup::decode(&w, 0).unwrap().0.version, 0xff00000e);

    // The client announces its broadcast.
    let mut ids = RequestIds::new(true);
    match read_one(&framed(&announce(&mut ids, Path::new("room/alice"), true))) {
        ControlMessage::PublishNamespace(m) => {
            assert_eq!(m.request_id, 0);
            assert_eq!(m.track_namespace.as_str(), "room/alice");
        }
        _ => panic!("expected an announcement"),
    }

    // The peer subscribes; the broadcast is there.
    let subscribe = Subscribe {
        request_id: 2,
        track_namespace: Path::new("room/alice"),
        track_name: "video0".into(),
        subscriber_priority: 0,
        group_order: GroupOrder::Descending,
        filter_type: FilterType::LargestObject,
    };
    let received = match read_one(&framed(&ControlMessage::Subscribe(subscribe))) {
        ControlMessage::Subscribe(m) => m,
        _ => panic!("expected a subscribe"),
    };
    match read_one(&framed(&subscribe_reply(&received, true))) {
        ControlMessage::SubscribeOk(m) => assert_eq!(m.request_id, 2),
        _ => panic!("expected SubscribeOk"),
    }

    // Groups are served with increasing group ids.
    let mut window = GroupWindow::new();
    let mut opened = Vec::new();
    for sequence in 0..4u64 {
        if let Decision::Serve { .. } = window.on_group(2, sequence) {
            let header = GroupHeader { track_alias: 2, group_id: sequence, flags: GroupFlags::default() };
            let mut stream = Vec::new();
            encode_group(&header, &vec![vec![sequence as u8; 3]], &mut stream);
            let (decoded, p) = GroupHeader::decode(&stream, 0).unwrap();
            let frames = decode_objects(decoded.flags, &stream, p).unwrap();
            assert_eq!(frames, vec![vec![sequence as u8; 3]]);
            opened.push(decoded.group_id);
        }
    }
    assert_eq!(opened, vec![0, 1, 2, 3]);

    // The peer unsubscribes; the subscription ends.
    match read_one(&framed(&ControlMessage::Unsubscribe(Unsubscribe { request_id: 2 }))) {
        ControlMessage::Unsubscribe(m) => assert_eq!(m.request_id, 2),
        _ => panic!("expected Unsubscribe"),
    }
    match subscription_end(2, None) {
        ControlMessage::PublishDone(m) => {
            assert_eq!(m.status_code, 200);
            assert_eq!(m.reason_phrase, "OK");
        }
        _ => panic!("expected PublishDone"),
    }
}

#[test]
fn missing_broadcast_is_not_found() {
    let subscribe = Subscribe {
        request_id: 4,
        track_namespace: Path::new("nobody"),
        track_name: "video0".into(),
        subscriber_priority: 0,
        group_order: GroupOrder::Descending,
        filter_type: FilterType::NextGroup,
    };
    match subscribe_reply(&subscribe, false) {
        ControlMessage::SubscribeError(m) => {
            assert_eq!(m.error_code, 404);
            assert_eq!(m.reason_phrase, "Broadcast not found");
        }
        _ => panic!("expected SubscribeError"),
    }
    match subscription_end(4, Some("reset".to_string())) {
        ControlMessage::SubscribeError(m) => assert_eq!((m.error_code, m.reason_phrase.as_str()), (500, "reset")),
        _ => panic!("expected SubscribeError"),
    }
}

#[test]
fn withdrawn_broadcast() {
    let mut ids = RequestIds::new(false);
    match announce(&mut ids, Path::new("a/b"), false) {
        ControlMessage::PublishNamespaceDone(m) => assert_eq!(m.track_namespace.as_str(), "a/b"),
        _ => panic!("expected PublishNamespaceDone"),
    }
    assert_eq!(ids.next(), 1);
}

#[test]
fn announced_namespaces() {
    let msg = PublishNamespace { request_id: 5, track_namespace: Path::new("x") };
    match publish_namespace_reply(&msg, true, false).unwrap() {
        ControlMessage::PublishNamespaceOk(m) => assert_eq!(m.request_id, 5),
        _ => panic!("expected PublishNamespaceOk"),
    }
    assert_eq!(publish_namespace_reply(&msg, true, true).unwrap_err(), ControlError::Duplicate);
    match publish_namespace_reply(&msg, false, false).unwrap() {
        ControlMessage::PublishNamespaceError(m) => assert_eq!(m.reason_phrase, "Publish only"),
        _ => panic!("expected PublishNamespaceError"),
    }
}

#[test]
fn track_window_keeps_two_groups() {
    let mut t = TrackWindow::new();
    assert_eq!(t.next_sequence(), Some(0));
    assert_eq!(t.create_group(1), Ok(None));
    assert_eq!(t.create_group(2), Ok(None));
    assert_eq!(t.create_group(3), Ok(Some(1)));
    assert_eq!(t.create_group(1), Err(WindowError::Old));
    assert_eq!(t.create_group(3), Err(WindowError::Duplicate));
    assert_eq!(t.next_sequence(), Some(4));
    assert_eq!(t.create_group(2), Err(WindowError::Duplicate));
}

#[test]
fn origin_directory() {
    let mut origin = moq::origin::Origin::new(Path::new("foo/"));
    assert_eq!(origin.publish_broadcast(Path::new("alice"), 7), Ok(()));
    assert_eq!(origin.publish_broadcast(Path::new("bob"), 8), Ok(()));
    assert_eq!(
        origin.publish_broadcast(Path::new("alice"), 9),
        Err(moq::origin::OriginError::Duplicate)
    );
    assert_eq!(origin.consume_broadcast(&Path::new("bob")), Some(8));
    assert_eq!(origin.consume_broadcast(&Path::new("carol")), None);
    let live: Vec<String> = origin.announced().iter().map(|p| p.as_str().to_string()).collect();
    assert_eq!(live, vec!["alice".to_string(), "bob".to_string()]);
    assert_eq!(origin.absolute(&Path::new("alice")).as_str(), "foo/alice");
    assert_eq!(origin.unpublish_broadcast(&Path::new("alice")), Some(7));
    assert_eq!(origin.unpublish_broadcast(&Path::new("alice")), None);
    assert_eq!(origin.announced().len(), 1);
}

#[test]
fn keyframes_open_groups() {
    let mut t = TrackWindow::new();
    assert_eq!(t.write(false), Ok(FrameWrite::Skip));
    assert_eq!(t.write(true), Ok(FrameWrite::NewGroup { sequence: 0, dropped: None }));
    assert_eq!(t.write(false), Ok(FrameWrite::Append(0)));
    assert_eq!(t.write(true), Ok(FrameWrite::NewGroup { sequence: 1, dropped: None }));
    assert_eq!(t.write(true), Ok(FrameWrite::NewGroup { sequence: 2, dropped: Some(0) }));
    assert_eq!(t.write(false), Ok(FrameWrite::Append(2)));
}

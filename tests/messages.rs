use moq::coding::DecodeError;
use moq::control::{decode_control, frame, read_frame, ControlError, ControlMessage};
use moq::fetch::Fetch;
use moq::group::GroupOrder;
use moq::path::Path;
use moq::publish_namespace::{
    PublishNamespace, PublishNamespaceCancel, PublishNamespaceDone, PublishNamespaceError,
};
use moq::subscribe::{FilterType, Subscribe, SubscribeError, SubscribeOk, Unsubscribe};

fn encode_subscribe(msg: &Subscribe) -> Vec<u8> {
    let mut buf = Vec::new();
    msg.encode(&mut buf);
    buf
}

#[test]
fn test_announce_round_trip() {
    let msg = PublishNamespace {
        request_id: 1,
        track_namespace: Path::new("test/broadcast"),
    };
    let mut encoded = Vec::new();
    msg.encode(&mut encoded);
    let (decoded, _) = PublishNamespace::decode(&encoded, 0).unwrap();
    assert_eq!(decoded.track_namespace.as_str(), "test/broadcast");
}

#[test]
fn test_announce_error() {
    let msg = PublishNamespaceError {
        request_id: 1,
        error_code: 404,
        reason_phrase: "Unauthorized".into(),
    };
    let mut encoded = Vec::new();
    msg.encode(&mut encoded);
    let (decoded, _) = PublishNamespaceError::decode(&encoded, 0).unwrap();
    assert_eq!(decoded.error_code, 404);
    assert_eq!(decoded.reason_phrase, "Unauthorized");
}

#[test]
fn test_unannounce() {
    let msg = PublishNamespaceDone {
        track_namespace: Path::new("old/stream"),
    };
    let mut encoded = Vec::new();
    msg.encode(&mut encoded);
    let (decoded, _) = PublishNamespaceDone::decode(&encoded, 0).unwrap();
    assert_eq!(decoded.track_namespace.as_str(), "old/stream");
}

#[test]
fn test_announce_cancel() {
    let msg = PublishNamespaceCancel {
        track_namespace: Path::new("canceled"),
        error_code: 1,
        reason_phrase: "Shutdown".into(),
    };
    let mut encoded = Vec::new();
    msg.encode(&mut encoded);
    let (decoded, _) = PublishNamespaceCancel::decode(&encoded, 0).unwrap();
    assert_eq!(decoded.track_namespace.as_str(), "canceled");
    assert_eq!(decoded.error_code, 1);
    assert_eq!(decoded.reason_phrase, "Shutdown");
}

#[test]
fn test_announce_rejects_parameters() {
    let invalid_bytes = vec![
        0x01, // namespace length
        0x04, 0x74, 0x65, 0x73, 0x74, // "test"
        0x01, // INVALID: num_params = 1
    ];
    let result = PublishNamespace::decode(&invalid_bytes, 0);
    assert!(result.is_err());
}

#[test]
fn announce_with_a_parameter_is_unsupported() {
    let bytes = vec![0x01, 0x01, 0x04, 0x74, 0x65, 0x73, 0x74, 0x01, 0x02, 0x00];
    assert_eq!(PublishNamespace::decode(&bytes, 0).unwrap_err(), DecodeError::Unsupported);
}

#[test]
fn test_subscribe_round_trip() {
    let msg = Subscribe {
        request_id: 1,
        track_namespace: Path::new("test"),
        track_name: "video".into(),
        subscriber_priority: 128,
        group_order: GroupOrder::Descending,
        filter_type: FilterType::LargestObject,
    };
    let encoded = encode_subscribe(&msg);
    let (decoded, _) = Subscribe::decode(&encoded, 0).unwrap();
    assert_eq!(decoded.request_id, 1);
    assert_eq!(decoded.track_namespace.as_str(), "test");
    assert_eq!(decoded.track_name, "video");
    assert_eq!(decoded.subscriber_priority, 128);
}

#[test]
fn test_subscribe_nested_namespace() {
    let msg = Subscribe {
        request_id: 100,
        track_namespace: Path::new("conference/room123"),
        track_name: "audio".into(),
        subscriber_priority: 255,
        group_order: GroupOrder::Descending,
        filter_type: FilterType::LargestObject,
    };
    let encoded = encode_subscribe(&msg);
    let (decoded, _) = Subscribe::decode(&encoded, 0).unwrap();
    assert_eq!(decoded.track_namespace.as_str(), "conference/room123");
}

#[test]
fn nested_namespace_goes_out_as_two_segments() {
    let msg = Subscribe {
        request_id: 2,
        track_namespace: Path::new("room/alice"),
        track_name: "video0".into(),
        subscriber_priority: 0,
        group_order: GroupOrder::Descending,
        filter_type: FilterType::LargestObject,
    };
    let encoded = encode_subscribe(&msg);
    let mut expected = vec![0x02, 0x02, 0x04];
    expected.extend_from_slice(b"room");
    expected.push(0x05);
    expected.extend_from_slice(b"alice");
    expected.push(0x06);
    expected.extend_from_slice(b"video0");
    expected.extend_from_slice(&[0x00, 0x02, 0x01, 0x02, 0x00]);
    assert_eq!(encoded, expected);
}

#[test]
fn subscribe_with_parameters_still_decodes() {
    let mut bytes = vec![0x07, 0x01, 0x01, b'a', 0x01, b'b', 0x10, 0x02, 0x01, 0x01];
    bytes.extend_from_slice(&[0x02, 0x05, 0x01, 0xaa, 0x06, 0x00]);
    let (decoded, end) = Subscribe::decode(&bytes, 0).unwrap();
    assert_eq!(decoded.request_id, 7);
    assert_eq!(decoded.track_namespace.as_str(), "a");
    assert_eq!(end, bytes.len());
}

#[test]
fn subscribe_without_forwarding_is_unsupported() {
    let bytes = vec![0x07, 0x00, 0x00, 0x10, 0x02, 0x00, 0x02, 0x00];
    assert_eq!(Subscribe::decode(&bytes, 0).unwrap_err(), DecodeError::Unsupported);
}

#[test]
fn test_subscribe_ok() {
    let msg = SubscribeOk {
        request_id: 42,
        track_alias: 42,
    };
    let mut encoded = Vec::new();
    msg.encode(&mut encoded);
    let (decoded, _) = SubscribeOk::decode(&encoded, 0).unwrap();
    assert_eq!(decoded.request_id, 42);
}

#[test]
fn test_subscribe_error() {
    let msg = SubscribeError {
        request_id: 123,
        error_code: 500,
        reason_phrase: "Not found".into(),
    };
    let mut encoded = Vec::new();
    msg.encode(&mut encoded);
    let (decoded, _) = SubscribeError::decode(&encoded, 0).unwrap();
    assert_eq!(decoded.request_id, 123);
    assert_eq!(decoded.error_code, 500);
    assert_eq!(decoded.reason_phrase, "Not found");
}

#[test]
fn subscribe_error_keeps_a_non_ascii_reason() {
    let msg = SubscribeError {
        request_id: 9,
        error_code: 403,
        reason_phrase: "accès refusé ✋".into(),
    };
    let mut encoded = Vec::new();
    msg.encode(&mut encoded);
    let (decoded, end) = SubscribeError::decode(&encoded, 0).unwrap();
    assert_eq!(decoded.reason_phrase, "accès refusé ✋");
    assert_eq!(end, encoded.len());
}

#[test]
fn invalid_utf8_reason_is_refused() {
    let bytes = vec![0x01, 0x02, 0x02, 0xc3, 0x28];
    assert_eq!(SubscribeError::decode(&bytes, 0).unwrap_err(), DecodeError::InvalidString);
}

#[test]
fn test_unsubscribe() {
    let msg = Unsubscribe { request_id: 999 };
    let mut encoded = Vec::new();
    msg.encode(&mut encoded);
    let (decoded, _) = Unsubscribe::decode(&encoded, 0).unwrap();
    assert_eq!(decoded.request_id, 999);
}

#[test]
fn test_subscribe_rejects_invalid_filter_type() {
    let invalid_bytes = vec![
        0x01, // subscribe_id
        0x02, // track_alias
        0x01, // namespace length
        0x04, 0x74, 0x65, 0x73, 0x74, // "test"
        0x05, 0x76, 0x69, 0x64, 0x65, 0x6f, // "video"
        0x80, // subscriber_priority
        0x02, // group_order
        0x99, // INVALID filter_type
        0x00, // num_params
    ];
    let result = Subscribe::decode(&invalid_bytes, 0);
    assert!(result.is_err());
}

#[test]
fn test_subscribe_ok_rejects_non_zero_expires() {
    let invalid_bytes = vec![
        0x01, // subscribe_id
        0x05, // INVALID: expires = 5
        0x02, // group_order
        0x00, // content_exists
        0x00, // num_params
    ];
    let result = SubscribeOk::decode(&invalid_bytes, 0);
    assert!(result.is_err());
}

#[test]
fn invalid_filter_type_is_an_invalid_value() {
    let bytes = vec![0x01, 0x00, 0x00, 0x80, 0x02, 0x01, 0x05, 0x00];
    assert_eq!(Subscribe::decode(&bytes, 0).unwrap_err(), DecodeError::InvalidValue);
}

#[test]
fn control_frame_round_trip() {
    let msg = ControlMessage::Unsubscribe(Unsubscribe { request_id: 2 });
    let framed = msg.encode_frame().unwrap();
    assert_eq!(framed, vec![0x0a, 0x00, 0x01, 0x02]);
    assert_eq!(msg.encoded_size(), 1);
    let (id, start, end) = read_frame(&framed, 0).unwrap();
    assert_eq!((id, start, end), (0x0a, 3, 4));
    match decode_control(id, &framed[start..end]).unwrap() {
        ControlMessage::Unsubscribe(m) => assert_eq!(m.request_id, 2),
        _ => panic!("wrong message"),
    }
}

#[test]
fn encoded_size_matches_the_frame() {
    let msg = ControlMessage::SubscribeError(SubscribeError {
        request_id: 3,
        error_code: 404,
        reason_phrase: "Broadcast not found".into(),
    });
    let framed = msg.encode_frame().unwrap();
    let size = msg.encoded_size();
    assert_eq!(framed.len(), 1 + 2 + size);
    assert_eq!(u16::from_be_bytes([framed[1], framed[2]]) as usize, size);
}

#[test]
fn short_frame_waits_for_more() {
    assert_eq!(read_frame(&[0x0a, 0x00, 0x02, 0x01], 0).unwrap_err(), DecodeError::Short);
}

#[test]
fn trailing_bytes_are_the_wrong_size() {
    assert_eq!(decode_control(0x0a, &[0x02, 0x00]).unwrap_err(), ControlError::WrongSize);
}

#[test]
fn fetch_and_unknown_messages_are_refused() {
    assert_eq!(decode_control(Fetch::ID, &[]).unwrap_err(), ControlError::Unsupported);
    assert_eq!(decode_control(0x3f, &[]).unwrap_err(), ControlError::UnexpectedMessage);
    assert_eq!(
        decode_control(0x0a, &[]).unwrap_err(),
        ControlError::Decode(DecodeError::Short)
    );
}

#[test]
fn oversized_body_is_refused() {
    let body = vec![0u8; 70000];
    assert_eq!(frame(3, &body).unwrap_err(), ControlError::TooLarge);
}

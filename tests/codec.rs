use scalesocket::metrics::RoomStats;
use scalesocket::bridge::{delivers, Bridge};
use scalesocket::message::{
    deserialize, parse_binary_header, serialize, write_binary_frame, Address, DecodeError,
    EncodeError, Message, Type,
};
use scalesocket::supervisor::{child_input, route_output, Output};
use scalesocket::types::{Caching, Frame, Framing, Header};

fn frame_bytes(id: u32, kind: u32, length: u32, payload: &[u8]) -> Vec<u8> {
    let mut v = [id.to_le_bytes(), kind.to_le_bytes(), length.to_le_bytes()].concat();
    v.extend_from_slice(payload);
    v
}

#[test]
fn test_parse_id() {
    let payload = [
        (123 as u32).to_le_bytes(),
        (0 as u32).to_le_bytes(),
        (0 as u32).to_le_bytes(),
    ]
    .concat();
    let (result, _, _, _) = parse_binary_header(&payload);
    assert_eq!(result, Header::to(123));
}

#[test]
fn test_parse_id_0_is_broadcast() {
    let payload = [
        (0 as u32).to_le_bytes(),
        (0 as u32).to_le_bytes(),
        (0 as u32).to_le_bytes(),
    ]
    .concat();
    let (result, _, _, _) = parse_binary_header(&payload);
    assert_eq!(result, Header::broadcast());
}

#[test]
fn test_parse_type() {
    let payload = [
        (0 as u32).to_le_bytes(),
        (2 as u32).to_le_bytes(),
        (0 as u32).to_le_bytes(),
    ]
    .concat();
    let (_, result, _, _) = parse_binary_header(&payload);
    assert_eq!(result, Some(Type::Binary));
}

#[test]
fn test_parse_length() {
    let payload = [
        (0 as u32).to_le_bytes(),
        (0 as u32).to_le_bytes(),
        (123 as u32).to_le_bytes(),
    ]
    .concat();
    let (_, _, result, _) = parse_binary_header(&payload);
    assert_eq!(result, 123);
}

#[test]
fn binary_frame_round_trip() {
    let payload = b"hello".to_vec();
    let frame = write_binary_frame(7, Type::Text, &payload);
    assert_eq!(frame, frame_bytes(7, 1, 5, b"hello"));
    let (header, kind, length, rest) = parse_binary_header(&frame);
    assert_eq!(header, Header::to(7));
    assert_eq!(kind, Some(Type::Text));
    assert_eq!(length, 5);
    assert_eq!(rest, &payload[..]);
}

#[test]
fn binary_frame_round_trip_broadcast_empty() {
    let frame = write_binary_frame(0, Type::Binary, &[]);
    assert_eq!(frame.len(), 12);
    let (header, kind, length, rest) = parse_binary_header(&frame);
    assert_eq!(header, Header::broadcast());
    assert_eq!(kind, Some(Type::Binary));
    assert_eq!(length, 0);
    assert!(rest.is_empty());
}

#[test]
fn deserialize_binary_frame_routes() {
    let msg = frame_bytes(2, 1, 3, b"abc");
    let (header, payload) = deserialize(&msg, Some(Frame::GWSocket), Header::broadcast()).unwrap();
    assert_eq!(header, Header::to(2));
    assert_eq!(payload, b"abc");
}

#[test]
fn deserialize_errors() {
    assert_eq!(
        deserialize(&[1, 2, 3], Some(Frame::GWSocket), Header::broadcast()),
        Err(DecodeError::Truncated)
    );
    let chunked = frame_bytes(1, 1, 10, b"abc");
    assert_eq!(
        deserialize(&chunked, Some(Frame::GWSocket), Header::broadcast()),
        Err(DecodeError::LengthMismatch)
    );
    let unknown = frame_bytes(1, 3, 3, b"abc");
    assert_eq!(
        deserialize(&unknown, Some(Frame::GWSocket), Header::broadcast()),
        Err(DecodeError::UnknownType)
    );
}

#[test]
fn deserialize_unframed_and_json() {
    let msg = b"{\"_to\": 4}".to_vec();
    let (header, payload) = deserialize(&msg, None, Header::to(9)).unwrap();
    assert_eq!(header, Header::broadcast());
    assert_eq!(payload, &msg[..]);
    let (header, payload) = deserialize(&msg, Some(Frame::JSON), Header::to(4)).unwrap();
    assert_eq!(header, Header::to(4));
    assert_eq!(payload, &msg[..]);
}

#[test]
fn serialize_stamps_from() {
    let out = serialize(Message::text("{\"x\":1}".to_string()), 5, Some(Frame::JSON)).unwrap();
    let text = match out {
        Message::Text(t) => t,
        Message::Binary(_) => panic!("expected text"),
    };
    let value: serde_json::Value = serde_json::from_str(&text).unwrap();
    let expected: serde_json::Value = serde_json::from_str("{\"x\":1,\"_from\":5}").unwrap();
    assert_eq!(value, expected);
}

#[test]
fn serialize_from_of_empty_object() {
    let out = serialize(Message::text("{}".to_string()), 1, Some(Frame::JSON)).unwrap();
    assert_eq!(out, Message::text("{\"_from\":1}".to_string()));
}

#[test]
fn serialize_from_beside_to() {
    let out = serialize(Message::text("{\"_to\":1}".to_string()), 1, Some(Frame::JSON)).unwrap();
    assert_eq!(out, Message::text("{\"_from\":1,\"_to\":1}".to_string()));
}

#[test]
fn serialize_errors() {
    assert_eq!(
        serialize(Message::text("[1, 2]".to_string()), 1, Some(Frame::JSON)),
        Err(EncodeError::NotJsonObject)
    );
    assert_eq!(
        serialize(Message::text("not json".to_string()), 1, Some(Frame::JSON)),
        Err(EncodeError::NotJsonObject)
    );
    assert_eq!(
        serialize(Message::text("{}".to_string()), 1, Some(Frame::GWSocket)),
        Err(EncodeError::Unsupported)
    );
    assert_eq!(
        serialize(Message::text("as is".to_string()), 1, None),
        Ok(Message::text("as is".to_string()))
    );
}

#[test]
fn addressed_message_reaches_only_its_client() {
    let to_two = Header::to(2);
    assert!(delivers(&to_two, 2));
    assert!(!delivers(&to_two, 1));
    assert!(!delivers(&to_two, 3));
    assert!(delivers(&Header::broadcast(), 1));
    assert!(delivers(&Header::broadcast(), 7));
}

#[test]
fn address_helpers() {
    let m = Message::text("a".to_string());
    assert_eq!(m.clone().to(3), (Header::to(3), m.clone()));
    assert_eq!(m.clone().broadcast(), (Header::broadcast(), m.clone()));
    let h = Header { to: Some(1), is_meta: true, is_cache: false };
    assert_eq!(m.clone().header(h), (h, m));
}

#[test]
fn json_to_routing_end_to_end() {
    let framing = Framing::Symmetric(Frame::JSON);
    let msg = b"{\"_to\":3,\"y\":2}".to_vec();
    let out = route_output(&framing, &Caching::Disabled, false, &msg, Header::to(3));
    let (header, message) = match out {
        Output::Publish { header, message, cache } => {
            assert!(!cache);
            (header, message)
        }
        other => panic!("unexpected {:?}", other),
    };
    assert_eq!(message, Message::text("{\"_to\":3,\"y\":2}".to_string()));
    let mut three = Bridge::attach(3, vec![]).0;
    let mut four = Bridge::attach(4, vec![]).0;
    assert_eq!(three.forward(&header, message.clone()), Some(message.clone()));
    assert_eq!(four.forward(&header, message), None);
}

#[test]
fn route_output_metadata() {
    let framing = Framing::Asymmetric(None, Some(Frame::JSON));
    let meta = Header { to: None, is_meta: true, is_cache: false };
    let msg = b"{\"_meta\": true, \"foo\": \"bar\"}".to_vec();
    match route_output(&framing, &Caching::All, false, &msg, meta) {
        Output::Metadata(v) => assert_eq!(v, msg),
        other => panic!("unexpected {:?}", other),
    }
    assert!(matches!(
        route_output(&framing, &Caching::All, true, &msg, meta),
        Output::BinaryMetadata
    ));
}

#[test]
fn route_output_caching_policy() {
    let framing = Framing::Symmetric(Frame::JSON);
    let tagged = Header { to: None, is_meta: false, is_cache: true };
    let msg = b"{\"_cache\": true}".to_vec();
    assert!(matches!(
        route_output(&framing, &Caching::Tagged, false, &msg, tagged),
        Output::Publish { cache: true, .. }
    ));
    assert!(matches!(
        route_output(&framing, &Caching::Tagged, false, &msg, Header::broadcast()),
        Output::Publish { cache: false, .. }
    ));
    assert!(matches!(
        route_output(&Framing::Unframed, &Caching::All, false, b"x", Header::broadcast()),
        Output::Publish { cache: true, .. }
    ));
}

#[test]
fn route_output_binary_frames() {
    let framing = Framing::Symmetric(Frame::GWSocket);
    let msg = frame_bytes(2, 1, 3, b"abc");
    match route_output(&framing, &Caching::Disabled, false, &msg, Header::broadcast()) {
        Output::Publish { header, message, .. } => {
            assert_eq!(header, Header::to(2));
            assert_eq!(message, Message::text("abc".to_string()));
        }
        other => panic!("unexpected {:?}", other),
    }
    let chunked = frame_bytes(2, 1, 9, b"abc");
    assert!(matches!(
        route_output(&framing, &Caching::Disabled, false, &chunked, Header::broadcast()),
        Output::Abort(DecodeError::LengthMismatch)
    ));
    let unknown = frame_bytes(2, 5, 3, b"abc");
    assert!(matches!(
        route_output(&framing, &Caching::Disabled, false, &unknown, Header::broadcast()),
        Output::Dropped(DecodeError::UnknownType)
    ));
}

#[test]
fn route_output_text_and_binary_payloads() {
    match route_output(&Framing::Unframed, &Caching::Disabled, true, &[10], Header::broadcast()) {
        Output::Publish { message, .. } => assert_eq!(message, Message::binary(vec![10])),
        other => panic!("unexpected {:?}", other),
    }
    match route_output(&Framing::Unframed, &Caching::Disabled, false, &[0xff, 0xfe], Header::broadcast()) {
        Output::Publish { message, .. } => assert_eq!(message, Message::text(String::new())),
        other => panic!("unexpected {:?}", other),
    }
    match route_output(&Framing::Unframed, &Caching::Disabled, false, "héllo".as_bytes(), Header::broadcast()) {
        Output::Publish { message, .. } => assert_eq!(message, Message::text("héllo".to_string())),
        other => panic!("unexpected {:?}", other),
    }
}

#[test]
fn child_input_appends_newline_in_text_mode() {
    assert_eq!(child_input(&Message::text("foo".to_string()), false), b"foo\n".to_vec());
    assert_eq!(child_input(&Message::binary(vec![1, 2]), true), vec![1, 2]);
}

#[test]
fn framing_directions() {
    let f = Framing::Asymmetric(Some(Frame::JSON), None);
    assert_eq!(f.socket_to_process(), Some(Frame::JSON));
    assert_eq!(f.process_to_socket(), None);
    let s = Framing::Symmetric(Frame::GWSocket);
    assert_eq!(s.socket_to_process(), Some(Frame::GWSocket));
    assert_eq!(s.process_to_socket(), Some(Frame::GWSocket));
    assert_eq!(Framing::Unframed.process_to_socket(), None);
    assert_eq!(
        Framing::from_options(Some(Frame::JSON), None, Some(Frame::GWSocket)),
        Framing::Asymmetric(None, Some(Frame::GWSocket))
    );
    assert_eq!(Framing::from_options(Some(Frame::JSON), None, None), Framing::Symmetric(Frame::JSON));
    assert_eq!(Framing::from_options(None, None, None), Framing::Unframed);
}

#[test]
fn caching_matches() {
    let tagged = Header { to: None, is_meta: false, is_cache: true };
    assert!(Caching::All.matches(&Header::broadcast()));
    assert!(Caching::Tagged.matches(&tagged));
    assert!(!Caching::Tagged.matches(&Header::broadcast()));
    assert!(!Caching::Disabled.matches(&tagged));
}

#[test]
fn room_statistics() {
    let mut stats = RoomStats::new(true);
    assert_eq!(stats.inc_ws_connections("foo"), 0);
    assert_eq!(stats.inc_ws_connections("bar"), 0);
    assert_eq!(stats.inc_ws_connections("foo"), 1);
    assert_eq!(stats.get_room_connections("foo"), 2);
    let mut rooms = stats.rooms();
    rooms.sort();
    assert_eq!(rooms, vec!["bar".to_string(), "foo".to_string()]);
    assert_eq!(stats.dec_ws_connections("bar"), 1);
    assert_eq!(stats.rooms(), vec!["foo".to_string()]);
    stats.clear("foo");
    assert_eq!(stats.get_room_connections("foo"), 0);
    assert!(stats.rooms().is_empty());
    assert_eq!(stats.dec_ws_connections("foo"), 0);
    assert_eq!(stats.get_room_connections("foo"), -1);
    assert!(RoomStats::new(false).rooms().is_empty());
    let mut untracked = RoomStats::new(false);
    untracked.inc_ws_connections("x");
    assert!(untracked.rooms().is_empty());
}

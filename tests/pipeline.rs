use scalesocket::bridge::Bridge;
use scalesocket::envvars::CGIEnv;
use scalesocket::message::{serialize, Address, Message};
use scalesocket::rooms::is_reserved_room;
use scalesocket::supervisor::{child_input, route_output, Output};
use scalesocket::types::{Caching, Frame, Framing, Header};

fn published(out: Output) -> (Header, Message) {
    match out {
        Output::Publish { header, message, .. } => (header, message),
        other => panic!("unexpected {:?}", other),
    }
}

#[test]
fn test_handle_process_output_lines() {
    let out = route_output(&Framing::Unframed, &Caching::Disabled, false, b"foo", Header::broadcast());
    assert_eq!(published(out), Message::text("foo".to_string()).broadcast());
}

#[test]
fn test_handle_process_output_binary() {
    let out = route_output(&Framing::Unframed, &Caching::Disabled, true, &[10], Header::broadcast());
    assert_eq!(published(out), Message::binary(vec![10]).broadcast());
}

#[test]
fn test_handle_process_output_framed_json() {
    let framing = Framing::Symmetric(Frame::JSON);
    let msg = br#"{"_to": 0}"#;
    let out = route_output(&framing, &Caching::Disabled, false, msg, Header::to(0));
    assert_eq!(published(out), Message::text(r#"{"_to": 0}"#.to_string()).to(0));
}

#[test]
fn test_handle_process_output_server_framed_json() {
    let framing = Framing::Asymmetric(None, Some(Frame::JSON));
    let msg = br#"{"_to": 0}"#;
    let out = route_output(&framing, &Caching::Disabled, false, msg, Header::to(0));
    assert_eq!(published(out), Message::text(r#"{"_to": 0}"#.to_string()).to(0));
}

#[test]
fn test_handle_process_output_framed_binary() {
    let framing = Framing::Symmetric(Frame::GWSocket);
    let mut msg = vec![2, 0, 0, 0, 1, 0, 0, 0, 3, 0, 0, 0];
    msg.extend_from_slice(b"abc");
    let out = route_output(&framing, &Caching::Disabled, false, &msg, Header::broadcast());
    assert_eq!(published(out), Message::text("abc".to_string()).to(2));
}

#[test]
fn test_handle_process_output_metadata_json() {
    let framing = Framing::Asymmetric(None, Some(Frame::JSON));
    let msg = br#"{"_meta": true, "foo": "bar"}"#;
    let header = Header { to: None, is_meta: true, is_cache: false };
    match route_output(&framing, &Caching::Disabled, false, msg, header) {
        Output::Metadata(payload) => {
            let value: serde_json::Value = serde_json::from_slice(&payload).unwrap();
            assert_eq!(value["foo"], serde_json::Value::from("bar"));
            assert_eq!(value["_meta"], serde_json::Value::from(true));
        }
        other => panic!("unexpected {:?}", other),
    }
}

#[test]
fn test_handle_process_input() {
    let framing = Framing::Unframed;
    let written = child_input(&Message::text("foo\n".to_string()), false);
    assert_eq!(written, b"foo\n\n".to_vec());
    // head prints the first line back
    let out = route_output(&framing, &Caching::Disabled, false, b"foo", Header::broadcast());
    assert_eq!(published(out), Message::text("foo".to_string()).broadcast());
}

#[test]
fn test_handle_process_input_framed_json() {
    let framing = Framing::Symmetric(Frame::JSON);
    let written = child_input(&Message::text("{'id': 1, 'msg': 'foo'}\n".to_string()), false);
    assert_eq!(written, b"{'id': 1, 'msg': 'foo'}\n\n".to_vec());
    // the echoed line is not JSON, so its header is a broadcast
    let line = b"{'id': 1, 'msg': 'foo'}";
    let out = route_output(&framing, &Caching::Disabled, false, line, Header::broadcast());
    assert_eq!(published(out), Message::text("{'id': 1, 'msg': 'foo'}".to_string()).broadcast());
}

#[test]
fn test_handle_process_input_client_framed_json() {
    let framing = Framing::Asymmetric(Some(Frame::JSON), None);
    let written = child_input(&Message::text("{'msg': 'foo'}\n".to_string()), false);
    assert_eq!(written, b"{'msg': 'foo'}\n\n".to_vec());
    let line = b"{'msg': 'foo'}";
    let out = route_output(&framing, &Caching::Disabled, false, line, Header::to(5));
    assert_eq!(published(out), Message::text("{'msg': 'foo'}".to_string()).broadcast());
}

#[test]
fn client_message_that_is_no_object_is_dropped() {
    let framing = Framing::Symmetric(Frame::JSON);
    let msg = Message::text("{'id': 1, 'msg': 'foo'}".to_string());
    assert!(serialize(msg, 1, framing.socket_to_process()).is_err());
}

#[test]
fn stdio_e2e_framed_from() {
    let framing = Framing::Symmetric(Frame::JSON);
    let to_child = serialize(Message::text("{}".to_string()), 1, framing.socket_to_process()).unwrap();
    assert_eq!(to_child, Message::text(r#"{"_from":1}"#.to_string()));
    assert_eq!(child_input(&to_child, false), b"{\"_from\":1}\n".to_vec());
}

#[test]
fn stdio_e2e_framed_to() {
    let framing = Framing::Symmetric(Frame::JSON);
    let to_child = serialize(Message::text(r#"{"_to":1}"#.to_string()), 1, framing.socket_to_process()).unwrap();
    assert_eq!(to_child, Message::text(r#"{"_from":1,"_to":1}"#.to_string()));
    // the child echoes the line, addressed to connection 1
    let out = route_output(&framing, &Caching::Disabled, false, to_child.as_bytes(), Header::to(1));
    let (header, message) = published(out);
    let mut client = Bridge::attach(1, vec![]).0;
    assert_eq!(client.forward(&header, message), Some(Message::text(r#"{"_from":1,"_to":1}"#.to_string())));
}

#[test]
fn socket_rejects_invalid_room() {
    assert!(!is_reserved_room("ok"));
    assert!(is_reserved_room("api"));
    assert!(is_reserved_room("metrics"));
    assert!(is_reserved_room("health"));
}

#[test]
fn test_spawn_passes_cgi_env() {
    let env = scalesocket::envvars::child_env(&vec![], &vec![], &CGIEnv::default(), None);
    let lines: Vec<String> = env.iter().map(|(k, v)| format!("{}={}", k, v)).collect();
    assert_eq!(lines, vec!["QUERY_STRING=", "REMOTE_ADDR=", "ROOM="]);
}

use vstd::prelude::*;
use vstd::bytes::{spec_u32_from_le_bytes, spec_u32_to_le_bytes, u32_from_le_bytes, u32_to_le_bytes};
use vstd::utf8::{decode_utf8, encode_utf8, valid_utf8};
use vstd::string::StringSliceAdditionalSpecFns;

use serde_json::Value;

use crate::envvars::decimal;
use crate::types::{ConnID, Frame, Header};

verus! {

/// A WebSocket payload as the broker carries it.
#[derive(Debug, Clone, PartialEq, Eq)]
pub enum Message {
    Text(String),
    Binary(Vec<u8>),
}

impl Message {
    /// A text message.
    pub fn text(s: String) -> (r: Message)
        ensures
            r == Message::Text(s),
    {
        Message::Text(s)
    }

    /// A binary message.
    pub fn binary(b: Vec<u8>) -> (r: Message)
        ensures
            r == Message::Binary(b),
    {
        Message::Binary(b)
    }

    /// The bytes on the wire: UTF-8 for text.
    pub open spec fn spec_bytes(self) -> Seq<u8> {
        match self {
            Message::Text(s) => encode_utf8(s@),
            Message::Binary(b) => b@,
        }
    }

    /// The payload bytes of the message.
    pub fn as_bytes(&self) -> (r: &[u8])
        ensures
            r@ == self.spec_bytes(),
    {
        match self {
            Message::Text(s) => s.as_str().as_bytes(),
            Message::Binary(b) => b.as_slice(),
        }
    }
}

/// Routing helpers: attach a header to a payload.
pub trait Address<T>: Sized {
    fn header(self, header: Header) -> (r: (Header, T))
        ensures
            r.0 == header;

    fn to(self, to: ConnID) -> (r: (Header, T))
        ensures
            r.0 == (Header { to: Some(to), is_meta: false, is_cache: false });

    fn broadcast(self) -> (r: (Header, T))
        ensures
            r.0 == (Header { to: None, is_meta: false, is_cache: false });
}

impl Address<Message> for Message {
    fn header(self, header: Header) -> (r: (Header, Message))
        ensures
            r == (header, self),
    {
        (header, self)
    }

    fn to(self, to: ConnID) -> (r: (Header, Message))
        ensures
            r == (Header { to: Some(to), is_meta: false, is_cache: false }, self),
    {
        (Header::to(to), self)
    }

    fn broadcast(self) -> (r: (Header, Message))
        ensures
            r == (Header { to: None, is_meta: false, is_cache: false }, self),
    {
        (Header::broadcast(), self)
    }
}

/// Kind of payload announced by a binary header.
#[derive(Debug, Clone, Copy, PartialEq, Eq, Structural)]
pub enum Type {
    Text,
    Binary,
}

impl Type {
    pub open spec fn spec_from_u32(n: u32) -> Option<Type> {
        if n == 1 {
            Some(Type::Text)
        } else if n == 2 {
            Some(Type::Binary)
        } else {
            None
        }
    }

    pub open spec fn spec_code(self) -> u32 {
        match self {
            Type::Text => 1,
            Type::Binary => 2,
        }
    }

    /// The type that a header code stands for: 1 is text, 2 is binary.
    pub fn from_u32(n: u32) -> (r: Option<Type>)
        ensures
            r == Type::spec_from_u32(n),
    {
        if n == 1 {
            Some(Type::Text)
        } else if n == 2 {
            Some(Type::Binary)
        } else {
            None
        }
    }

    /// The header code of the type.
    pub fn code(&self) -> (r: u32)
        ensures
            r == self.spec_code(),
    {
        match self {
            Type::Text => 1,
            Type::Binary => 2,
        }
    }
}

/// Length of the binary header: routing id, type and payload length.
pub const BINARY_HEADER_LEN: usize = 12;

/// Header that a routing id gives: 0 broadcasts.
pub open spec fn header_for_id(id: u32) -> Header {
    if id == 0 {
        Header { to: None, is_meta: false, is_cache: false }
    } else {
        Header { to: Some(id), is_meta: false, is_cache: false }
    }
}

/// The routing id of a binary frame.
pub open spec fn frame_id(data: Seq<u8>) -> u32 {
    spec_u32_from_le_bytes(data.subrange(0, 4))
}

/// The type code of a binary frame.
pub open spec fn frame_type_code(data: Seq<u8>) -> u32 {
    spec_u32_from_le_bytes(data.subrange(4, 8))
}

/// The payload length that a binary frame announces.
pub open spec fn frame_length(data: Seq<u8>) -> u32 {
    spec_u32_from_le_bytes(data.subrange(8, 12))
}

/// What follows the header of a binary frame.
pub open spec fn frame_payload(data: Seq<u8>) -> Seq<u8> {
    data.subrange(12, data.len() as int)
}

/// The bytes of a binary frame: three little-endian u32 and the payload.
pub open spec fn binary_frame(id: u32, code: u32, payload: Seq<u8>) -> Seq<u8> {
    spec_u32_to_le_bytes(id) + spec_u32_to_le_bytes(code) + spec_u32_to_le_bytes(
        payload.len() as u32,
    ) + payload
}

/// Parse the fixed 12-byte header of three little-endian u32 values: the
/// routing id, the message type and the payload length.
pub fn parse_binary_header(data: &[u8]) -> (r: (Header, Option<Type>, u32, &[u8]))
    requires
        data@.len() >= 12,
    ensures
        r.0 == header_for_id(frame_id(data@)),
        r.1 == Type::spec_from_u32(frame_type_code(data@)),
        r.2 == frame_length(data@),
        r.3@ == frame_payload(data@),
{
    let id = u32_from_le_bytes(&data[0..4]);
    let code = u32_from_le_bytes(&data[4..8]);
    let length = u32_from_le_bytes(&data[8..12]);
    let header = if id == 0 {
        Header::broadcast()
    } else {
        Header::to(id)
    };
    (header, Type::from_u32(code), length, &data[12..data.len()])
}

/// Build a binary frame carrying `payload` with routing id `id`.
pub fn write_binary_frame(id: u32, kind: Type, payload: &[u8]) -> (r: Vec<u8>)
    requires
        payload@.len() <= u32::MAX,
    ensures
        r@ == binary_frame(id, kind.spec_code(), payload@),
{
    let mut out = u32_to_le_bytes(id);
    let mut code = u32_to_le_bytes(kind.code());
    let mut length = u32_to_le_bytes(payload.len() as u32);
    out.append(&mut code);
    out.append(&mut length);
    out.extend_from_slice(payload);
    out
}

/// Parsing a binary frame gives back the routing id, the type and the payload
/// it was written with.
pub proof fn lemma_binary_frame_round_trip(id: u32, kind: Type, payload: Seq<u8>)
    requires
        payload.len() <= u32::MAX,
    ensures
        ({
            let data = binary_frame(id, kind.spec_code(), payload);
            &&& data.len() >= 12
            &&& frame_id(data) == id
            &&& Type::spec_from_u32(frame_type_code(data)) == Some(kind)
            &&& frame_length(data) == payload.len()
            &&& frame_payload(data) == payload
            &&& header_for_id(frame_id(data)).to == (if id == 0 { None } else { Some(id) })
        }),
{
    vstd::bytes::lemma_auto_spec_u32_to_from_le_bytes();
    let a = spec_u32_to_le_bytes(id);
    let b = spec_u32_to_le_bytes(kind.spec_code());
    let c = spec_u32_to_le_bytes(payload.len() as u32);
    let data = binary_frame(id, kind.spec_code(), payload);
    assert(data.subrange(0, 4) =~= a);
    assert(data.subrange(4, 8) =~= b);
    assert(data.subrange(8, 12) =~= c);
    assert(frame_payload(data) =~= payload);
}

/// Why a message from a child could not be decoded.
#[derive(Debug, Clone, Copy, PartialEq, Eq, Structural)]
pub enum DecodeError {
    /// Shorter than a binary header.
    Truncated,
    /// The announced length differs from the payload: chunked payloads are
    /// not supported.
    LengthMismatch,
    /// The type code is neither text nor binary.
    UnknownType,
}

/// Outcome of decoding `msg` under `frame`, with `json_header` the header
/// that the JSON fields of `msg` give.
pub open spec fn spec_deserialize(msg: Seq<u8>, frame: Option<Frame>, json_header: Header) -> Result<
    (Header, Seq<u8>),
    DecodeError,
> {
    match frame {
        None => Ok((header_for_id(0), msg)),
        Some(Frame::JSON) => Ok((json_header, msg)),
        Some(Frame::GWSocket) => if msg.len() < 12 {
            Err(DecodeError::Truncated)
        } else if frame_length(msg) != msg.len() - 12 {
            Err(DecodeError::LengthMismatch)
        } else if Type::spec_from_u32(frame_type_code(msg)) is None {
            Err(DecodeError::UnknownType)
        } else {
            Ok((header_for_id(frame_id(msg)), frame_payload(msg)))
        },
    }
}

/// Decode a message coming from a child into its header and payload.
///
/// Under binary framing, a frame shorter than its 12-byte header or whose
/// length field differs from its payload is `Truncated` or `LengthMismatch`:
/// chunked payloads are not supported, and these are the frames on which a
/// room's supervisor aborts (`supervisor::route_output` answers `Abort`).
///
/// Under JSON framing the payload passes unchanged and the header is
/// `json_header`, which the caller reads from the JSON fields `_to`, `_meta`
/// and `_cache` of `msg` (a broadcast header where they do not parse).
pub fn deserialize<'a>(msg: &'a [u8], frame: Option<Frame>, json_header: Header) -> (r: Result<
    (Header, &'a [u8]),
    DecodeError,
>)
    ensures
        match (r, spec_deserialize(msg@, frame, json_header)) {
            (Ok((h, p)), Ok((sh, sp))) => h == sh && p@ == sp,
            (Err(e), Err(se)) => e == se,
            _ => false,
        },
{
    match frame {
        None => Ok((Header::broadcast(), msg)),
        Some(Frame::JSON) => Ok((json_header, msg)),
        Some(Frame::GWSocket) => {
            if msg.len() < BINARY_HEADER_LEN {
                return Err(DecodeError::Truncated);
            }
            let (header, kind, length, payload) = parse_binary_header(msg);
            if length as usize != payload.len() {
                return Err(DecodeError::LengthMismatch);
            }
            if kind.is_none() {
                return Err(DecodeError::UnknownType);
            }
            Ok((header, payload))
        },
    }
}

/// Relies on std::str::from_utf8: `Ok` exactly for valid UTF-8, holding the
/// decoded characters.
#[verifier::external_body]
fn utf8_decode(b: &[u8]) -> (r: Option<String>)
    ensures
        r is Some <==> valid_utf8(b@),
        r matches Some(s) ==> s@ == decode_utf8(b@),
{
    std::str::from_utf8(b).ok().map(|s| s.to_string())
}

/// The text of a payload: its UTF-8 decoding, or empty where it is not
/// valid UTF-8.
pub open spec fn text_of(b: Seq<u8>) -> Seq<char> {
    if valid_utf8(b) {
        decode_utf8(b)
    } else {
        Seq::empty()
    }
}

/// Turn a payload from a child into a message: binary as it is, text decoded
/// (empty where the bytes are not UTF-8).
pub fn payload_message(b: &[u8], is_binary: bool) -> (r: Message)
    ensures
        is_binary ==> (r matches Message::Binary(v) && v@ == b@),
        !is_binary ==> (r matches Message::Text(s) && s@ == text_of(b@)),
{
    if is_binary {
        Message::Binary(vstd::slice::slice_to_vec(b))
    } else {
        match utf8_decode(b) {
            Some(s) => Message::Text(s),
            None => Message::Text(String::new()),
        }
    }
}

#[verifier::external_type_specification]
#[verifier::external_body]
pub struct ExValue(Value);

#[verifier::external_type_specification]
#[verifier::external_body]
#[verifier::reject_recursive_types(K)]
#[verifier::reject_recursive_types(V)]
pub struct ExJsonMap<K, V>(serde_json::Map<K, V>);

/// What serde_json::from_slice reads from `b` as a JSON object: each field's
/// name with its value as serde_json prints it; `None` where `b` is not the
/// text of a JSON object.
pub uninterp spec fn json_object_of(b: Seq<u8>) -> Option<Map<Seq<char>, Seq<char>>>;

/// What a serde_json map holds: each field's name with its value as
/// serde_json prints it.
pub uninterp spec fn json_fields(m: serde_json::Map<String, Value>) -> Map<Seq<char>, Seq<char>>;

/// The text serde_json::to_string gives for an object with these fields
/// (fields in key order, as its map keeps them).
pub uninterp spec fn json_object_print(fields: Map<Seq<char>, Seq<char>>) -> Seq<char>;

/// Whether serde_json reads `b` as a JSON object.
pub open spec fn json_object_text(b: Seq<u8>) -> bool {
    json_object_of(b) is Some
}

/// The text of the JSON object `b` with field `_from` set to `conn`.
pub open spec fn stamped(b: Seq<u8>, conn: ConnID) -> Seq<char> {
    json_object_print(json_object_of(b)->0.insert("_from"@, decimal(conn as nat)))
}

/// Relies on serde_json::from_slice into a `Map`: it succeeds exactly on the
/// text of a JSON object, and the map holds its fields.
#[verifier::external_body]
fn json_object(b: &[u8]) -> (r: Option<serde_json::Map<String, Value>>)
    ensures
        r is Some <==> json_object_of(b@) is Some,
        r matches Some(m) ==> json_fields(m) == json_object_of(b@)->0,
{
    serde_json::from_slice::<serde_json::Map<String, Value>>(b).ok()
}

/// Relies on serde_json::Map::insert: field `key` now holds the number
/// `value`, which serde_json prints in decimal; the other fields stay.
#[verifier::external_body]
fn json_insert_number(m: &mut serde_json::Map<String, Value>, key: &str, value: u32)
    ensures
        json_fields(*final(m)) == json_fields(*old(m)).insert(key@, decimal(value as nat)),
{
    m.insert(key.to_string(), Value::from(value));
}

/// Relies on serde_json::to_string: the JSON text of the object, which
/// depends on its fields alone (a map of string keys always serializes).
#[verifier::external_body]
fn json_text(m: &serde_json::Map<String, Value>) -> (r: String)
    ensures
        r@ == json_object_print(json_fields(*m)),
{
    serde_json::to_string(m).unwrap_or_default()
}

/// Why a client message could not be passed to the child.
#[derive(Debug, Clone, Copy, PartialEq, Eq, Structural)]
pub enum EncodeError {
    /// The message is not a JSON object.
    NotJsonObject,
    /// Binary framing of client messages is not available.
    Unsupported,
}

/// Serialize a message going from connection `conn` to the child: as it is
/// without framing; under JSON framing, the object with `"_from": conn` added,
/// as text.
pub fn serialize(msg: Message, conn: ConnID, frame: Option<Frame>) -> (r: Result<
    Message,
    EncodeError,
>)
    ensures
        frame is None ==> r == Ok::<Message, EncodeError>(msg),
        frame == Some(Frame::GWSocket) ==> r == Err::<Message, EncodeError>(
            EncodeError::Unsupported,
        ),
        frame == Some(Frame::JSON) && json_object_text(msg.spec_bytes()) ==> (r matches Ok(
            Message::Text(s),
        ) && s@ == stamped(msg.spec_bytes(), conn)),
        frame == Some(Frame::JSON) && !json_object_text(msg.spec_bytes()) ==> r
            == Err::<Message, EncodeError>(EncodeError::NotJsonObject),
{
    match frame {
        None => Ok(msg),
        Some(Frame::GWSocket) => Err(EncodeError::Unsupported),
        Some(Frame::JSON) => match json_object(msg.as_bytes()) {
            Some(mut object) => {
                json_insert_number(&mut object, "_from", conn);
                Ok(Message::Text(json_text(&object)))
            },
            None => Err(EncodeError::NotJsonObject),
        },
    }
}

} // verus!

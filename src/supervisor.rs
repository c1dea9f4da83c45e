use vstd::prelude::*;

use crate::bridge::spec_delivers;
use crate::message::{deserialize, payload_message, spec_deserialize, text_of, DecodeError, Message};
use crate::types::{Caching, ConnID, Frame, Framing, Header};

verus! {

/// What the supervisor does with one message from its child.
#[derive(Debug)]
pub enum Output {
    /// Metadata in binary mode is not supported: warn and drop.
    BinaryMetadata,
    /// Room metadata: the payload, to be read as JSON and stored.
    Metadata(Vec<u8>),
    /// Publish on the room's broadcast, writing to the cache first when
    /// `cache` is set.
    Publish { header: Header, message: Message, cache: bool },
    /// Undecodable message: warn and drop.
    Dropped(DecodeError),
    /// A chunked or truncated binary frame: the supervisor stops.
    Abort(DecodeError),
}

/// Decide what to do with `msg` from the child, given the room's framing,
/// caching and mode, and `json_header`, the header that the JSON fields of
/// `msg` give (read under JSON framing only).
pub fn route_output(
    framing: &Framing,
    caching: &Caching,
    is_binary: bool,
    msg: &[u8],
    json_header: Header,
) -> (r: Output)
    ensures
        match spec_deserialize(msg@, framing.spec_process_to_socket(), json_header) {
            Ok((h, p)) => if h.is_meta && is_binary {
                r is BinaryMetadata
            } else if h.is_meta {
                r matches Output::Metadata(v) && v@ == p
            } else {
                r matches Output::Publish { header, message, cache } && header == h && cache
                    == caching.spec_matches(h) && (is_binary ==> (message matches Message::Binary(
                    b,
                ) && b@ == p)) && (!is_binary ==> (message matches Message::Text(s) && s@
                    == text_of(p)))
            },
            Err(e) => if e == DecodeError::UnknownType {
                r == Output::Dropped(e)
            } else {
                r == Output::Abort(e)
            },
        },
{
    match deserialize(msg, framing.process_to_socket(), json_header) {
        Ok((h, payload)) => {
            if h.is_meta && is_binary {
                Output::BinaryMetadata
            } else if h.is_meta {
                Output::Metadata(vstd::slice::slice_to_vec(payload))
            } else {
                let message = payload_message(payload, is_binary);
                Output::Publish { header: h, message, cache: caching.matches(&h) }
            }
        },
        Err(DecodeError::UnknownType) => Output::Dropped(DecodeError::UnknownType),
        Err(e) => Output::Abort(e),
    }
}

/// A message the child addresses to connection `k` under JSON framing is
/// published with that address, so only connection `k`'s bridge forwards it.
pub proof fn lemma_json_routing(
    framing: Framing,
    is_binary: bool,
    msg: Seq<u8>,
    json_header: Header,
    k: ConnID,
    conn: ConnID,
)
    requires
        framing.spec_process_to_socket() == Some(Frame::JSON),
        json_header.to == Some(k),
        !json_header.is_meta,
    ensures
        spec_deserialize(msg, framing.spec_process_to_socket(), json_header) == Ok::<
            (Header, Seq<u8>),
            DecodeError,
        >((json_header, msg)),
        spec_delivers(json_header, conn) <==> conn == k,
{
}

/// The bytes written to the child's input for a client message: in text mode
/// followed by a newline, in binary mode as they are.
pub fn child_input(msg: &Message, is_binary: bool) -> (r: Vec<u8>)
    ensures
        is_binary ==> r@ == msg.spec_bytes(),
        !is_binary ==> r@ == msg.spec_bytes().push(10u8),
{
    let mut out = vstd::slice::slice_to_vec(msg.as_bytes());
    if !is_binary {
        out.push(10u8);
    }
    out
}

} // verus!

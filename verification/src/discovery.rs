//! The discovery handshake's fixed strings and decisions: a client
//! broadcasts the request datagram over UDP and the server's companion
//! listener answers the response; the sockets live outside the library,
//! which only builds and recognizes the datagrams.

use vstd::prelude::*;
use vstd::string::StrSliceExecFns;
use vstd::utf8::encode_utf8;

use crate::text::{bytes_eq, contains_seq, trim_bytes, trimmed};

verus! {

/// The request datagram a client broadcasts to find a server.
pub open spec fn request_bytes() -> Seq<u8> {
    encode_utf8("DISCOVER_CHAT_SERVER_REQUEST"@)
}

/// The response datagram a server answers with.
pub open spec fn response_bytes() -> Seq<u8> {
    encode_utf8("DISCOVER_CHAT_SERVER_RESPONSE"@)
}

/// Build the request datagram.
pub fn discovery_request() -> (r: Vec<u8>)
    ensures
        r@ == request_bytes(),
{
    "DISCOVER_CHAT_SERVER_REQUEST".as_bytes_vec()
}

/// Build the response datagram.
pub fn discovery_response() -> (r: Vec<u8>)
    ensures
        r@ == response_bytes(),
{
    "DISCOVER_CHAT_SERVER_RESPONSE".as_bytes_vec()
}

/// What the server's discovery listener answers to one datagram: the
/// response exactly when the datagram is the request, else nothing.
pub fn handle_discovery_datagram(buf: &[u8]) -> (r: Option<Vec<u8>>)
    ensures
        r is Some <==> buf@ == request_bytes(),
        r matches Some(v) ==> v@ == response_bytes(),
{
    let req = discovery_request();
    if bytes_eq(buf, req.as_slice()) {
        Some(discovery_response())
    } else {
        None
    }
}

/// Whether a datagram a client received is the server's response,
/// ignoring surrounding ASCII whitespace.
pub fn is_discovery_response(buf: &[u8]) -> (r: bool)
    ensures
        r == (trimmed(buf@) == response_bytes()),
{
    let t = trim_bytes(buf);
    let resp = discovery_response();
    bytes_eq(t, resp.as_slice())
}

} // verus!

//! The server's side of an exchange: where it listens, how much of a
//! message it reads, and what it does first with the bytes that came in.

use crate::handler::{not_found_action, Action, ActionModel, PageNotFoundHandler};
use crate::httprequest::{parse, HttpRequst};
use crate::router::{routed, Router};
use vstd::prelude::*;
use vstd::utf8::{decode_utf8, encode_utf8, encode_utf8_decode_utf8, valid_utf8};

verus! {

/// The most bytes that are read of one inbound message. What a message
/// holds beyond them is not seen.
pub const READ_BUFFER_SIZE: usize = 16384;

/// A server bound to one socket address.
pub struct Server<'a> {
    socket_addr: &'a str,
}

/// The first action for the bytes of one inbound message. Bytes that are
/// UTF-8 are parsed as a request, which is routed; bytes that are not are
/// answered like a request that no handler takes: with the 404 page.
pub open spec fn received(message: Seq<u8>) -> ActionModel {
    if valid_utf8(message) {
        routed(parse(decode_utf8(message)))
    } else {
        not_found_action()
    }
}

/// Trusted: `String::from_utf8` of the standard library. It is taken to
/// succeed exactly on byte sequences that are valid UTF-8, and then to give
/// the text whose UTF-8 encoding is those bytes.
#[verifier::external_body]
fn text_of(bytes: Vec<u8>) -> (r: Option<String>)
    ensures
        r is Some <==> valid_utf8(bytes@),
        r matches Some(text) ==> encode_utf8(text@) == bytes@,
{
    match String::from_utf8(bytes) {
        Ok(text) => Some(text),
        Err(_) => None,
    }
}

impl<'a> Server<'a> {
    /// The address as text.
    pub closed spec fn address(&self) -> Seq<char> {
        self.socket_addr@
    }

    /// A server for the socket address `socket_addr`, such as
    /// `localhost:3000`.
    pub fn new(socket_addr: &'a str) -> (r: Self)
        ensures
            r.address() == socket_addr@,
    {
        Server { socket_addr }
    }

    /// The socket address that the server listens on.
    pub fn socket_addr(&self) -> (r: &'a str)
        ensures
            r@ == self.address(),
    {
        self.socket_addr
    }

    /// The first action for the bytes of one inbound message: see
    /// [`received`].
    pub fn receive(message: Vec<u8>) -> (r: Action)
        ensures
            r@ == received(message@),
    {
        match text_of(message) {
            Some(text) => {
                proof {
                    encode_utf8_decode_utf8(text@);
                }
                Router::route(&HttpRequst::from(text))
            },
            None => PageNotFoundHandler::handle_any(),
        }
    }
}

} // verus!

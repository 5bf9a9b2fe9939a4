use crate::digest::same_bytes;
use crate::peer::wire::push_all;
use crate::text::{decimal, push_decimal, push_text};
use crate::tracker_server::http_status::{status_text, HttpStatus};
use vstd::prelude::*;
use vstd::string::StringSliceAdditionalSpecFns;
use vstd::utf8::encode_utf8;

verus! {

/// Why a request to the tracker is not answered.
#[derive(Debug, PartialEq, Eq, Clone, Copy, Structural)]
pub enum RequestError {
    InvalidEndpointError,
    ParseHttpError,
}

/// Why a request to the tracker is not answered.
#[derive(Debug, PartialEq, Eq, Clone, Copy, Structural)]
pub enum RequestHandlerError {
    InvalidEndpointError,
    ParseHttpError,
    GettingPeerIpError,
    FromUtfError,
}

/// What the tracker is asked for.
#[derive(Debug, PartialEq, Eq, Clone, Copy, Structural)]
pub enum Endpoint {
    /// The announce of a peer.
    Announce,
    /// The statistics of the tracker.
    Stats,
}

/// What a request is answered with: nothing but `404 NOT FOUND` where it
/// is no `GET`; the endpoint that it names where it is one; an error where
/// it names none.
pub fn route(is_get: bool, endpoint: &str) -> (result: Result<Option<Endpoint>, RequestError>)
    ensures
        result == (if !is_get {
            Ok::<Option<Endpoint>, RequestError>(None)
        } else if endpoint.spec_bytes() == "/announce".spec_bytes() {
            Ok(Some(Endpoint::Announce))
        } else if endpoint.spec_bytes() == "/stats".spec_bytes() {
            Ok(Some(Endpoint::Stats))
        } else {
            Err(RequestError::InvalidEndpointError)
        }),
{
    if !is_get {
        Ok(None)
    } else if same_bytes(endpoint.as_bytes(), "/announce".as_bytes()) {
        Ok(Some(Endpoint::Announce))
    } else if same_bytes(endpoint.as_bytes(), "/stats".as_bytes()) {
        Ok(Some(Endpoint::Stats))
    } else {
        Err(RequestError::InvalidEndpointError)
    }
}

/// The head of an answer: the status line and the length of the contents,
/// and the empty line that ends the head.
pub open spec fn response_head(status: HttpStatus, length: nat) -> Seq<char> {
    "HTTP/1.1 "@ + status_text(status) + "\r\nContent-Length: "@ + decimal(length) + "\r\n\r\n"@
}

/// The bytes of an answer with the given contents: the head, then the
/// contents as they are.
pub fn create_response(contents: Vec<u8>, status_line: HttpStatus) -> (response: Vec<u8>)
    ensures
        response@ == encode_utf8(response_head(status_line, contents@.len())) + contents@,
{
    let mut head = String::new();
    push_text(&mut head, "HTTP/1.1 ");
    let status = status_line.to_string();
    push_text(&mut head, status.as_str());
    push_text(&mut head, "\r\nContent-Length: ");
    push_decimal(&mut head, contents.len() as u64);
    push_text(&mut head, "\r\n\r\n");
    assert(head@ =~= response_head(status_line, contents@.len()));
    let mut response: Vec<u8> = Vec::new();
    push_all(&mut response, head.as_str().as_bytes());
    push_all(&mut response, contents.as_slice());
    response
}

} // verus!

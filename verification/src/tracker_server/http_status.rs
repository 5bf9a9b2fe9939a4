use crate::digest::same_bytes;
use crate::text::push_text;
use vstd::prelude::*;
use vstd::string::StringSliceAdditionalSpecFns;

verus! {

/// The status of an answer of the tracker.
#[derive(Debug, PartialEq, Eq, Clone, Copy, Structural)]
pub enum HttpStatus {
    /// `200 OK`.
    Success,
    /// `404 NOT FOUND`.
    NotFound,
}

/// The text of a status on the status line.
pub open spec fn status_text(status: HttpStatus) -> Seq<char> {
    match status {
        HttpStatus::Success => "200 OK"@,
        HttpStatus::NotFound => "404 NOT FOUND"@,
    }
}

impl HttpStatus {
    /// The status that a text names: `200 OK` or `404 NOT FOUND`.
    pub fn from_str(s: &str) -> (result: Result<HttpStatus, ()>)
        ensures
            result == (if s.spec_bytes() == "200 OK".spec_bytes() {
                Ok::<HttpStatus, ()>(HttpStatus::Success)
            } else if s.spec_bytes() == "404 NOT FOUND".spec_bytes() {
                Ok(HttpStatus::NotFound)
            } else {
                Err(())
            }),
    {
        if same_bytes(s.as_bytes(), "200 OK".as_bytes()) {
            Ok(HttpStatus::Success)
        } else if same_bytes(s.as_bytes(), "404 NOT FOUND".as_bytes()) {
            Ok(HttpStatus::NotFound)
        } else {
            Err(())
        }
    }

    /// The text of the status on the status line.
    pub fn to_string(&self) -> (text: String)
        ensures
            text@ == status_text(*self),
    {
        let mut text = String::new();
        match self {
            HttpStatus::Success => push_text(&mut text, "200 OK"),
            HttpStatus::NotFound => push_text(&mut text, "404 NOT FOUND"),
        }
        assert(text@ =~= status_text(*self));
        text
    }
}

} // verus!

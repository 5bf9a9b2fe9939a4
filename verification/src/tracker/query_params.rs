use crate::encoder_decoder::url_encoder::{encode, percent_encoded};
use crate::text::{decimal, push_decimal, push_signed_decimal, push_text, signed_decimal};
use crate::tracker::constants::PEER_ID;
use vstd::prelude::*;

verus! {

/// The parameters of an announce.
#[derive(Debug, PartialEq, Eq, Clone)]
pub struct QueryParams {
    info_hash: String,
    client_port: u32,
    info_length: i64,
}

/// The query string of an announce that starts a download: the info hash
/// percent-encoded, the peer id, the port, nothing uploaded or downloaded,
/// and the whole length left.
pub open spec fn query_string(info_hash: Seq<char>, client_port: u32, info_length: i64) -> Seq<
    char,
> {
    "?info_hash="@ + percent_encoded(info_hash) + "&peer_id="@ + PEER_ID@ + "&port="@ + decimal(
        client_port as nat,
    ) + "&uploaded=0&downloaded=0&left="@ + signed_decimal(info_length as int)
        + "&event=started"@
}

impl QueryParams {
    /// The info hash, in hexadecimal digits.
    pub closed spec fn info_hash(&self) -> Seq<char> {
        self.info_hash@
    }

    /// The port on which the client listens.
    pub closed spec fn client_port(&self) -> u32 {
        self.client_port
    }

    /// The length of the file.
    pub closed spec fn info_length(&self) -> i64 {
        self.info_length
    }

    /// The parameters for an info hash in hexadecimal digits, the port of
    /// the client and the length of the file.
    pub fn new(info_hash: String, client_port: u32, info_length: i64) -> (params: QueryParams)
        ensures
            params.info_hash() == info_hash@,
            params.client_port() == client_port,
            params.info_length() == info_length,
    {
        QueryParams { info_hash, client_port, info_length }
    }

    /// The query string, from the question mark on.
    pub fn build(&self) -> (query: String)
        ensures
            query@ == query_string(self.info_hash(), self.client_port(), self.info_length()),
    {
        let mut query = String::new();
        push_text(&mut query, "?info_hash=");
        let encoded = encode(self.info_hash.as_str());
        push_text(&mut query, encoded.as_str());
        push_text(&mut query, "&peer_id=");
        push_text(&mut query, PEER_ID);
        push_text(&mut query, "&port=");
        push_decimal(&mut query, self.client_port as u64);
        push_text(&mut query, "&uploaded=0&downloaded=0&left=");
        push_signed_decimal(&mut query, self.info_length);
        push_text(&mut query, "&event=started");
        assert(query@ =~= query_string(self.info_hash(), self.client_port(), self.info_length()));
        query
    }
}

} // verus!

use vstd::prelude::*;

verus! {

/// The peer id that the client announces where it has not drawn one.
pub const PEER_ID: &'static str = "-DT0001-000000000000";

} // verus!

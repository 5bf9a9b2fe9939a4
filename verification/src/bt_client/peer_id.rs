//! The id under which the client is known to trackers and peers.

use crate::text::{decimal, push_decimal, push_text};
use rand::Rng;
use vstd::prelude::*;

verus! {

/// Number of digits that follow the name of the client in its peer id.
pub const PEER_ID_DIGITS: usize = 11;

/// `Rng::gen_range` of the `rand` crate over the numbers below a bound
/// that is not zero, with the generator of the current thread. Believed,
/// not proved: the number is below the bound. Which one it is is up to the
/// generator.
#[verifier::external_body]
fn random_below(bound: u32) -> (number: u32)
    requires
        bound > 0,
    ensures
        number < bound,
{
    rand::thread_rng().gen_range(0..bound)
}

/// The numbers written one after the other, in decimal digits.
pub open spec fn numbers_text(numbers: Seq<u32>) -> Seq<char>
    decreases numbers.len(),
{
    if numbers.len() == 0 {
        Seq::empty()
    } else {
        numbers_text(numbers.drop_last()) + decimal(numbers.last() as nat)
    }
}

/// Digits take one character each.
pub proof fn lemma_digits_text_len(digits: Seq<u32>)
    requires
        forall|i: int| 0 <= i < digits.len() ==> #[trigger] digits[i] < 10,
    ensures
        numbers_text(digits).len() == digits.len(),
    decreases digits.len(),
{
    if digits.len() > 0 {
        let front = digits.drop_last();
        assert forall|i: int| 0 <= i < front.len() implies #[trigger] front[i] < 10 by {
            assert(front[i] == digits[i]);
        }
        lemma_digits_text_len(front);
        assert(digits.last() == digits[digits.len() - 1]);
        assert(decimal(digits.last() as nat).len() == 1);
    }
}

/// The peer id for the numbers that were drawn: the name of the client, a
/// colon, and the numbers in decimal digits.
pub fn peer_id_from(numbers: &[u32]) -> (peer_id: String)
    ensures
        peer_id@ == "DTorrent:"@ + numbers_text(numbers@),
{
    let mut peer_id = String::new();
    push_text(&mut peer_id, "DTorrent:");
    let mut at: usize = 0;
    while at < numbers.len()
        invariant
            at <= numbers@.len(),
            peer_id@ == "DTorrent:"@ + numbers_text(numbers@.subrange(0, at as int)),
        decreases numbers@.len() - at,
    {
        push_decimal(&mut peer_id, numbers[at] as u64);
        proof {
            let longer = numbers@.subrange(0, at + 1);
            assert(longer.drop_last() =~= numbers@.subrange(0, at as int));
            assert(longer.last() == numbers@[at as int]);
            assert(peer_id@ =~= "DTorrent:"@ + numbers_text(longer));
        }
        at += 1;
    }
    assert(numbers@.subrange(0, at as int) =~= numbers@);
    peer_id
}

/// Draws a peer id: the name of the client, a colon, and eleven digits
/// drawn at random, which makes twenty characters.
pub fn generate_peer_id() -> (peer_id: String)
    ensures
        peer_id@.len() == 20,
        exists|digits: Seq<u32>|
            {
                &&& digits.len() == PEER_ID_DIGITS
                &&& (forall|i: int| 0 <= i < digits.len() ==> #[trigger] digits[i] < 10)
                &&& peer_id@ == "DTorrent:"@ + numbers_text(digits)
            },
{
    let mut digits: Vec<u32> = Vec::new();
    let mut drawn: usize = 0;
    while drawn < PEER_ID_DIGITS
        invariant
            drawn <= PEER_ID_DIGITS,
            digits@.len() == drawn,
            forall|i: int| 0 <= i < digits@.len() ==> #[trigger] digits@[i] < 10,
        decreases PEER_ID_DIGITS - drawn,
    {
        digits.push(random_below(10));
        drawn += 1;
    }
    proof {
        lemma_digits_text_len(digits@);
        reveal_strlit("DTorrent:");
    }
    peer_id_from(digits.as_slice())
}

} // verus!

use crate::text::push_char;
use vstd::prelude::*;
use vstd::string::StrSliceExecFns;

verus! {

/// Why text could not be percent-encoded.
#[derive(PartialEq, Eq, Debug, Clone, Copy, Structural)]
pub enum UrlEncoderError {
    InvalidUrlEncode,
}

/// Text with a percent sign before every pair of its characters, and
/// before the last one where their number is odd. Empty text stays empty.
pub open spec fn percent_encoded(text: Seq<char>) -> Seq<char>
    decreases text.len(),
{
    if text.len() == 0 {
        Seq::empty()
    } else if text.len() <= 2 {
        seq!['%'] + text
    } else {
        seq!['%'] + text.subrange(0, 2) + percent_encoded(text.subrange(2, text.len() as int))
    }
}

/// Percent-encodes a string of hexadecimal digits: each pair of digits
/// spells one byte, and gets a percent sign before it.
pub fn encode(hex_string: &str) -> (encoded: String)
    ensures
        encoded@ == percent_encoded(hex_string@),
{
    let length = hex_string.unicode_len();
    let mut encoded = String::new();
    let mut at: usize = 0;
    assert(hex_string@.subrange(0, length as int) =~= hex_string@);
    while at < length
        invariant
            length == hex_string@.len(),
            at <= length,
            percent_encoded(hex_string@) == encoded@ + percent_encoded(
                hex_string@.subrange(at as int, length as int),
            ),
        decreases length - at,
    {
        let ghost rest = hex_string@.subrange(at as int, length as int);
        let ghost before = encoded@;
        push_char(&mut encoded, '%');
        push_char(&mut encoded, hex_string.get_char(at));
        if at + 1 < length {
            push_char(&mut encoded, hex_string.get_char(at + 1));
            proof {
                let after = hex_string@.subrange(at + 2, length as int);
                assert(rest.subrange(2, rest.len() as int) =~= after);
                assert(encoded@ =~= before + (seq!['%'] + rest.subrange(0, 2)));
                if rest.len() == 2 {
                    assert(rest.subrange(0, 2) =~= rest);
                    assert(percent_encoded(after) =~= Seq::<char>::empty());
                }
                assert(before + percent_encoded(rest) =~= encoded@ + percent_encoded(after));
            }
            at = at + 2;
        } else {
            proof {
                let after = hex_string@.subrange(at + 1, length as int);
                assert(encoded@ =~= before + (seq!['%'] + rest));
                assert(percent_encoded(after) =~= Seq::<char>::empty());
                assert(before + percent_encoded(rest) =~= encoded@ + percent_encoded(after));
            }
            at = at + 1;
        }
    }
    assert(encoded@ + Seq::<char>::empty() =~= encoded@);
    encoded
}

} // verus!

//! Bencode: numbers, byte strings, lists and dictionaries.

use crate::digest::same_bytes;
use crate::peer::wire::{copy_range, push_all};
use vstd::prelude::*;

verus! {

/// A bencoded value. The entries of a dictionary are kept in increasing
/// order of their keys, each key once.
#[derive(PartialEq, Eq, Debug)]
pub enum Bencode {
    BNumber(i64),
    BString(Vec<u8>),
    BList(Vec<Bencode>),
    BDict(Vec<(Vec<u8>, Bencode)>),
}

/// Why bytes could not be read as a bencoded value.
#[derive(PartialEq, Eq, Debug, Clone, Copy, Structural)]
pub enum BencodeError {
    InvalidBencode,
    InvalidBencodeType,
    InvalidBencodeNumber,
    InvalidBencodeString,
    InvalidBencodeList,
    InvalidBencodeDict,
}

/// A bencoded value as contracts see it.
pub enum Value {
    Number(i64),
    Text(Seq<u8>),
    List(Seq<Value>),
    Dict(Seq<(Seq<u8>, Value)>),
}

impl Bencode {
    /// The value that this is.
    pub open spec fn value(self) -> Value
        decreases self,
    {
        match self {
            Bencode::BNumber(number) => Value::Number(number),
            Bencode::BString(text) => Value::Text(text@),
            Bencode::BList(items) => Value::List(
                Seq::new(
                    items@.len(),
                    |i: int|
                        if 0 <= i < items@.len() {
                            items@[i].value()
                        } else {
                            Value::Number(0)
                        },
                ),
            ),
            Bencode::BDict(entries) => Value::Dict(
                Seq::new(
                    entries@.len(),
                    |i: int|
                        if 0 <= i < entries@.len() {
                            (entries@[i].0@, entries@[i].1.value())
                        } else {
                            (Seq::empty(), Value::Number(0))
                        },
                ),
            ),
        }
    }
}

/// The first position from `from` on that holds `byte`, the length of the
/// data where none does.
pub open spec fn index_of(data: Seq<u8>, byte: u8, from: int) -> int
    decreases data.len() - from,
{
    if from < 0 || from >= data.len() {
        data.len() as int
    } else if data[from] == byte {
        from
    } else {
        index_of(data, byte, from + 1)
    }
}

/// Every byte is a decimal digit.
pub open spec fn all_digits(text: Seq<u8>) -> bool {
    forall|i: int| 0 <= i < text.len() ==> 0x30 <= #[trigger] text[i] <= 0x39
}

/// The number that decimal digits spell.
pub open spec fn digits_value(digits: Seq<u8>) -> int
    decreases digits.len(),
{
    if digits.len() == 0 {
        0
    } else {
        digits_value(digits.drop_last()) * 10 + (digits.last() - 0x30)
    }
}

/// The number that text spells: an optional sign, then at least one digit
/// and nothing but digits, within the range of a 64-bit integer.
pub open spec fn parse_i64(text: Seq<u8>) -> Option<i64> {
    let negative = text.len() > 0 && text[0] == 0x2d;
    let signed = text.len() > 0 && (text[0] == 0x2d || text[0] == 0x2b);
    let digits = if signed {
        text.drop_first()
    } else {
        text
    };
    let value = if negative {
        -digits_value(digits)
    } else {
        digits_value(digits)
    };
    if digits.len() == 0 || !all_digits(digits) || value < i64::MIN || value > i64::MAX {
        None
    } else {
        Some(value as i64)
    }
}

/// One key is before another in the order of dictionaries: byte by byte, a
/// prefix before what it is a prefix of.
pub open spec fn key_before(a: Seq<u8>, b: Seq<u8>) -> bool
    decreases a.len(),
{
    if b.len() == 0 {
        false
    } else if a.len() == 0 {
        true
    } else if a[0] != b[0] {
        a[0] < b[0]
    } else {
        key_before(a.drop_first(), b.drop_first())
    }
}

/// The entries of a dictionary after a key is given a value: the entry
/// takes the place of one with the same key, or its place in the order.
pub open spec fn dict_insert(entries: Seq<(Seq<u8>, Value)>, key: Seq<u8>, value: Value) -> Seq<
    (Seq<u8>, Value),
>
    decreases entries.len(),
{
    if entries.len() == 0 {
        seq![(key, value)]
    } else if entries[0].0 == key {
        seq![(key, value)] + entries.drop_first()
    } else if key_before(key, entries[0].0) {
        seq![(key, value)] + entries
    } else {
        seq![entries[0]] + dict_insert(entries.drop_first(), key, value)
    }
}

/// The entries of the dictionary that pairs make, given one after the
/// other: a later pair replaces an earlier one with the same key.
pub open spec fn dict_of(pairs: Seq<(Seq<u8>, Value)>) -> Seq<(Seq<u8>, Value)>
    decreases pairs.len(),
{
    if pairs.len() == 0 {
        Seq::empty()
    } else {
        dict_insert(dict_of(pairs.drop_last()), pairs.last().0, pairs.last().1)
    }
}

/// The byte string that starts at `at`: decimal digits that give its
/// length, a colon, and that many bytes.
pub open spec fn parse_text(data: Seq<u8>, at: int) -> Result<(Seq<u8>, int), BencodeError> {
    let colon = index_of(data, 0x3a, at);
    let digits = data.subrange(at, colon);
    if colon >= data.len() || digits.len() == 0 || !all_digits(digits) || digits_value(digits)
        > i64::MAX || colon + 1 + digits_value(digits) > data.len() {
        Err(BencodeError::InvalidBencodeString)
    } else {
        Ok(
            (
                data.subrange(colon + 1, colon + 1 + digits_value(digits)),
                colon + 1 + digits_value(digits),
            ),
        )
    }
}

/// The number that starts at `at` with an `i`: the text up to the next `e`.
pub open spec fn parse_number(data: Seq<u8>, at: int) -> Result<(i64, int), BencodeError> {
    let end = index_of(data, 0x65, at + 1);
    if end >= data.len() {
        Err(BencodeError::InvalidBencodeNumber)
    } else {
        match parse_i64(data.subrange(at + 1, end)) {
            Some(number) => Ok((number, end + 1)),
            None => Err(BencodeError::InvalidBencodeNumber),
        }
    }
}

/// The value that starts at `at`, and the position after it. The first
/// byte says what it is: `i` a number, `l` a list, `d` a dictionary, a digit
/// a byte string; anything else, or no byte at all, is `InvalidBencode`.
pub open spec fn parse(data: Seq<u8>, at: int) -> Result<(Value, int), BencodeError>
    decreases data.len() - at, 0int,
{
    if at < 0 || at >= data.len() {
        Err(BencodeError::InvalidBencode)
    } else if data[at] == 0x69 {
        match parse_number(data, at) {
            Ok((number, next)) => Ok((Value::Number(number), next)),
            Err(error) => Err(error),
        }
    } else if data[at] == 0x6c {
        match parse_items(data, at + 1) {
            Ok((items, next)) => Ok((Value::List(items), next)),
            Err(error) => Err(error),
        }
    } else if data[at] == 0x64 {
        match parse_pairs(data, at + 1) {
            Ok((pairs, next)) => Ok((Value::Dict(dict_of(pairs)), next)),
            Err(error) => Err(error),
        }
    } else if 0x30 <= data[at] <= 0x39 {
        match parse_text(data, at) {
            Ok((text, next)) => Ok((Value::Text(text), next)),
            Err(error) => Err(error),
        }
    } else {
        Err(BencodeError::InvalidBencode)
    }
}

/// The items of a list from `at` up to its closing `e`, and the position
/// after that. Data that ends before the `e` is `InvalidBencodeList`.
pub open spec fn parse_items(data: Seq<u8>, at: int) -> Result<(Seq<Value>, int), BencodeError>
    decreases data.len() - at, 1int,
{
    if at < 0 || at >= data.len() {
        Err(BencodeError::InvalidBencodeList)
    } else if data[at] == 0x65 {
        Ok((Seq::empty(), at + 1))
    } else {
        match parse(data, at) {
            Err(error) => Err(error),
            Ok((item, next)) => if next <= at || next > data.len() {
                Err(BencodeError::InvalidBencodeList)
            } else {
                match parse_items(data, next) {
                    Ok((rest, end)) => Ok((seq![item] + rest, end)),
                    Err(error) => Err(error),
                }
            },
        }
    }
}

/// The pairs of a dictionary from `at` up to its closing `e`, in the order
/// in which they stand, and the position after the `e`. A key that is no
/// byte string is `InvalidBencodeDict`, and so is data that ends before the
/// `e`.
pub open spec fn parse_pairs(data: Seq<u8>, at: int) -> Result<
    (Seq<(Seq<u8>, Value)>, int),
    BencodeError,
>
    decreases data.len() - at, 1int,
{
    if at < 0 || at >= data.len() {
        Err(BencodeError::InvalidBencodeDict)
    } else if data[at] == 0x65 {
        Ok((Seq::empty(), at + 1))
    } else {
        match parse(data, at) {
            Err(error) => Err(error),
            Ok((key, after_key)) => if after_key <= at || after_key > data.len() {
                Err(BencodeError::InvalidBencodeDict)
            } else {
                match parse(data, after_key) {
                    Err(error) => Err(error),
                    Ok((value, next)) => if next <= after_key || next > data.len() {
                        Err(BencodeError::InvalidBencodeDict)
                    } else {
                        match key {
                            Value::Text(name) => match parse_pairs(data, next) {
                                Ok((rest, end)) => Ok((seq![(name, value)] + rest, end)),
                                Err(error) => Err(error),
                            },
                            _ => Err(BencodeError::InvalidBencodeDict),
                        }
                    },
                }
            },
        }
    }
}

/// What is parsed from a position on, after items that were parsed before.
pub open spec fn items_after(done: Seq<Value>, rest: Result<(Seq<Value>, int), BencodeError>) -> Result<
    (Seq<Value>, int),
    BencodeError,
> {
    match rest {
        Ok((items, end)) => Ok((done + items, end)),
        Err(error) => Err(error),
    }
}

/// What is parsed from a position on, after pairs that were parsed before.
pub open spec fn pairs_after(
    done: Seq<(Seq<u8>, Value)>,
    rest: Result<(Seq<(Seq<u8>, Value)>, int), BencodeError>,
) -> Result<(Seq<(Seq<u8>, Value)>, int), BencodeError> {
    match rest {
        Ok((pairs, end)) => Ok((done + pairs, end)),
        Err(error) => Err(error),
    }
}

/// The entries of a dictionary as values.
pub open spec fn entries_value(entries: Seq<(Vec<u8>, Bencode)>) -> Seq<(Seq<u8>, Value)> {
    Seq::new(entries.len(), |i: int| (entries[i].0@, entries[i].1.value()))
}

/// The items of a list as values.
pub open spec fn items_value(items: Seq<Bencode>) -> Seq<Value> {
    Seq::new(items.len(), |i: int| items[i].value())
}

/// The value of a list is the list of the values of its items.
pub proof fn lemma_list_value(items: Vec<Bencode>)
    ensures
        Bencode::BList(items).value() == Value::List(items_value(items@)),
{
    assert(Bencode::BList(items).value()->List_0 =~= items_value(items@));
}

/// The value of a dictionary is made of the values of its entries.
pub proof fn lemma_dict_value(entries: Vec<(Vec<u8>, Bencode)>)
    ensures
        Bencode::BDict(entries).value() == Value::Dict(entries_value(entries@)),
{
    assert(Bencode::BDict(entries).value()->Dict_0 =~= entries_value(entries@));
}

proof fn lemma_index_of_bounds(data: Seq<u8>, byte: u8, from: int)
    requires
        0 <= from <= data.len(),
    ensures
        from <= index_of(data, byte, from) <= data.len(),
        index_of(data, byte, from) < data.len() ==> data[index_of(data, byte, from)] == byte,
        forall|i: int| from <= i < index_of(data, byte, from) ==> data[i] != byte,
    decreases data.len() - from,
{
    if from < data.len() && data[from] != byte {
        lemma_index_of_bounds(data, byte, from + 1);
    }
}

/// The digits read so far never spell more than all of them.
pub proof fn lemma_digits_grow(digits: Seq<u8>, upto: int)
    requires
        all_digits(digits),
        0 <= upto <= digits.len(),
    ensures
        0 <= digits_value(digits.subrange(0, upto)) <= digits_value(digits),
    decreases digits.len() - upto,
{
    if upto == digits.len() {
        assert(digits.subrange(0, upto) =~= digits);
        lemma_digits_nonnegative(digits);
    } else {
        lemma_digits_grow(digits, upto + 1);
        let longer = digits.subrange(0, upto + 1);
        assert(longer.drop_last() =~= digits.subrange(0, upto));
        assert(longer.last() == digits[upto]);
        lemma_digits_nonnegative(digits.subrange(0, upto));
    }
}

proof fn lemma_digits_nonnegative(digits: Seq<u8>)
    requires
        all_digits(digits),
    ensures
        digits_value(digits) >= 0,
    decreases digits.len(),
{
    if digits.len() > 0 {
        lemma_digits_nonnegative(digits.drop_last());
    }
}

/// Reads decimal digits as a number of at most `limit`. Anything but
/// digits, no digit at all, or a larger number gives nothing.
pub fn read_digits(text: &[u8], from: usize, to: usize, limit: u64) -> (value: Option<u64>)
    requires
        from <= to <= text@.len(),
    ensures
        ({
            let digits = text@.subrange(from as int, to as int);
            match value {
                Some(number) => digits.len() > 0 && all_digits(digits) && number == digits_value(
                    digits,
                ) && number <= limit,
                None => digits.len() == 0 || !all_digits(digits) || digits_value(digits) > limit,
            }
        }),
{
    let ghost digits = text@.subrange(from as int, to as int);
    if from == to {
        return None;
    }
    let mut value: u64 = 0;
    let mut at: usize = from;
    while at < to
        invariant
            from <= at <= to <= text@.len(),
            digits == text@.subrange(from as int, to as int),
            all_digits(digits.subrange(0, at - from)),
            value == digits_value(digits.subrange(0, at - from)),
            value <= limit,
        decreases to - at,
    {
        let byte: u8 = text[at];
        assert(byte == digits[at - from]);
        if byte < 0x30 || byte > 0x39 {
            return None;
        }
        let digit: u64 = (byte - 0x30) as u64;
        let ghost longer = digits.subrange(0, at - from + 1);
        proof {
            assert(longer.drop_last() =~= digits.subrange(0, at - from));
            assert(longer.last() == byte);
            assert(all_digits(longer)) by {
                assert forall|i: int| 0 <= i < longer.len() implies 0x30 <= #[trigger] longer[i]
                    <= 0x39 by {
                    if i < at - from {
                        assert(digits.subrange(0, at - from)[i] == longer[i]);
                    }
                }
            }
        }
        if digit > limit || value > (limit - digit) / 10 {
            proof {
                assert(digits_value(longer) > limit);
                if all_digits(digits) {
                    lemma_digits_grow(digits, at - from + 1);
                }
            }
            return None;
        }
        value = value * 10 + digit;
        at += 1;
    }
    assert(digits.subrange(0, at - from) =~= digits);
    Some(value)
}

/// The first position from `from` on that holds `byte`.
fn find(data: &[u8], byte: u8, from: usize) -> (at: usize)
    requires
        from <= data@.len(),
    ensures
        at == index_of(data@, byte, from as int),
        from <= at <= data@.len(),
{
    let mut at: usize = from;
    while at < data.len() && data[at] != byte
        invariant
            from <= at <= data@.len(),
            index_of(data@, byte, from as int) == index_of(data@, byte, at as int),
        decreases data@.len() - at,
    {
        at += 1;
    }
    proof {
        lemma_index_of_bounds(data@, byte, from as int);
    }
    at
}

/// The key is before the key of every entry.
pub open spec fn all_after(key: Seq<u8>, entries: Seq<(Seq<u8>, Value)>) -> bool {
    forall|j: int| 0 <= j < entries.len() ==> key_before(key, (#[trigger] entries[j]).0)
}

/// The entries stand in increasing order of their keys, each key once.
pub open spec fn ordered(entries: Seq<(Seq<u8>, Value)>) -> bool
    decreases entries.len(),
{
    entries.len() == 0 || (all_after(entries[0].0, entries.drop_first()) && ordered(
        entries.drop_first(),
    ))
}

/// Every dictionary of the value, however deep, has its entries in
/// increasing order of their keys, each key once.
pub open spec fn well_formed(value: Value) -> bool
    decreases value,
{
    match value {
        Value::Number(_) => true,
        Value::Text(_) => true,
        Value::List(items) => forall|i: int|
            0 <= i < items.len() ==> well_formed(#[trigger] items[i]),
        Value::Dict(entries) => ordered(entries) && forall|i: int|
            0 <= i < entries.len() ==> well_formed((#[trigger] entries[i]).1),
    }
}

/// No key is before itself.
pub proof fn lemma_key_irreflexive(a: Seq<u8>)
    ensures
        !key_before(a, a),
    decreases a.len(),
{
    if a.len() > 0 {
        lemma_key_irreflexive(a.drop_first());
    }
}

/// What is before something that is before a third is before the third.
pub proof fn lemma_key_transitive(a: Seq<u8>, b: Seq<u8>, c: Seq<u8>)
    requires
        key_before(a, b),
        key_before(b, c),
    ensures
        key_before(a, c),
    decreases a.len(),
{
    if a.len() > 0 && b.len() > 0 && c.len() > 0 && a[0] == b[0] && b[0] == c[0] {
        lemma_key_transitive(a.drop_first(), b.drop_first(), c.drop_first());
    }
}

/// Of two different keys one is before the other.
pub proof fn lemma_key_total(a: Seq<u8>, b: Seq<u8>)
    ensures
        a == b || key_before(a, b) || key_before(b, a),
    decreases a.len(),
{
    if a.len() == 0 || b.len() == 0 {
        if a.len() == 0 && b.len() == 0 {
            assert(a =~= b);
        }
    } else if a[0] == b[0] {
        lemma_key_total(a.drop_first(), b.drop_first());
        if a.drop_first() == b.drop_first() {
            assert(a =~= seq![a[0]] + a.drop_first());
            assert(b =~= seq![b[0]] + b.drop_first());
        }
    }
}

/// A key that was before every entry, and is before the key that is given
/// a value, is before every entry afterwards.
pub proof fn lemma_insert_keeps_bound(
    bound: Seq<u8>,
    entries: Seq<(Seq<u8>, Value)>,
    key: Seq<u8>,
    value: Value,
)
    requires
        all_after(bound, entries),
        key_before(bound, key),
    ensures
        all_after(bound, dict_insert(entries, key, value)),
    decreases entries.len(),
{
    let after = dict_insert(entries, key, value);
    if entries.len() == 0 {
    } else if entries[0].0 == key {
        assert forall|j: int| 0 <= j < after.len() implies key_before(
            bound,
            (#[trigger] after[j]).0,
        ) by {
            if j > 0 {
                assert(after[j] == entries[j]);
            }
        }
    } else if key_before(key, entries[0].0) {
        assert forall|j: int| 0 <= j < after.len() implies key_before(
            bound,
            (#[trigger] after[j]).0,
        ) by {
            if j > 0 {
                assert(after[j] == entries[j - 1]);
            }
        }
    } else {
        let rest = entries.drop_first();
        assert forall|j: int| 0 <= j < rest.len() implies key_before(
            bound,
            (#[trigger] rest[j]).0,
        ) by {
            assert(rest[j] == entries[j + 1]);
        }
        lemma_insert_keeps_bound(bound, rest, key, value);
        let inner = dict_insert(rest, key, value);
        assert forall|j: int| 0 <= j < after.len() implies key_before(
            bound,
            (#[trigger] after[j]).0,
        ) by {
            if j == 0 {
                assert(after[0] == entries[0]);
            } else {
                assert(after[j] == inner[j - 1]);
            }
        }
    }
}

/// Giving a key its value keeps the entries in order.
pub proof fn lemma_insert_keeps_order(entries: Seq<(Seq<u8>, Value)>, key: Seq<u8>, value: Value)
    requires
        ordered(entries),
    ensures
        ordered(dict_insert(entries, key, value)),
    decreases entries.len(),
{
    let after = dict_insert(entries, key, value);
    if entries.len() == 0 {
        assert(after.drop_first() =~= Seq::<(Seq<u8>, Value)>::empty());
        assert(ordered(after.drop_first()));
    } else {
        let rest = entries.drop_first();
        if entries[0].0 == key {
            assert(after.drop_first() =~= rest);
            assert(after[0].0 == entries[0].0);
        } else if key_before(key, entries[0].0) {
            assert(after.drop_first() =~= entries);
            assert(after[0].0 == key);
            assert forall|j: int| 0 <= j < entries.len() implies key_before(
                key,
                (#[trigger] entries[j]).0,
            ) by {
                if j > 0 {
                    assert(rest[j - 1] == entries[j]);
                    lemma_key_transitive(key, entries[0].0, entries[j].0);
                }
            }
        } else {
            lemma_key_total(key, entries[0].0);
            lemma_insert_keeps_bound(entries[0].0, rest, key, value);
            lemma_insert_keeps_order(rest, key, value);
            assert(after.drop_first() =~= dict_insert(rest, key, value));
            assert(after[0] == entries[0]);
        }
        assert(ordered(after.drop_first()));
        assert(all_after(after[0].0, after.drop_first()));
    }
}

/// Every entry after a key was given its value is that key with its value,
/// or an entry that was there before.
pub proof fn lemma_insert_members(
    entries: Seq<(Seq<u8>, Value)>,
    key: Seq<u8>,
    value: Value,
    position: int,
)
    requires
        0 <= position < dict_insert(entries, key, value).len(),
    ensures
        dict_insert(entries, key, value)[position] == (key, value) || exists|i: int|
            0 <= i < entries.len() && entries[i] == dict_insert(entries, key, value)[position],
    decreases entries.len(),
{
    let after = dict_insert(entries, key, value);
    if entries.len() == 0 {
    } else if entries[0].0 == key {
        if position > 0 {
            assert(after[position] == entries[position]);
        }
    } else if key_before(key, entries[0].0) {
        if position > 0 {
            assert(after[position] == entries[position - 1]);
        }
    } else {
        let rest = entries.drop_first();
        let inner = dict_insert(rest, key, value);
        if position == 0 {
            assert(after[0] == entries[0]);
        } else {
            assert(after[position] == inner[position - 1]);
            lemma_insert_members(rest, key, value, position - 1);
            if inner[position - 1] != (key, value) {
                let i = choose|i: int| 0 <= i < rest.len() && rest[i] == inner[position - 1];
                assert(entries[i + 1] == rest[i]);
            }
        }
    }
}

/// Giving a key a well-formed value keeps well-formed entries in order and
/// well formed.
pub proof fn lemma_insert_well_formed(
    entries: Seq<(Seq<u8>, Value)>,
    key: Seq<u8>,
    value: Value,
)
    requires
        well_formed(Value::Dict(entries)),
        well_formed(value),
    ensures
        well_formed(Value::Dict(dict_insert(entries, key, value))),
{
    let after = dict_insert(entries, key, value);
    lemma_insert_keeps_order(entries, key, value);
    assert forall|i: int| 0 <= i < after.len() implies well_formed((#[trigger] after[i]).1) by {
        lemma_insert_members(entries, key, value, i);
        if after[i] != (key, value) {
            let j = choose|j: int| 0 <= j < entries.len() && entries[j] == after[i];
            assert(well_formed(entries[j].1));
        }
    }
}

/// Tells whether one key is before another in the order of dictionaries.
pub fn key_less(a: &[u8], b: &[u8]) -> (before: bool)
    ensures
        before == key_before(a@, b@),
{
    let mut at: usize = 0;
    assert(a@.subrange(0, a@.len() as int) =~= a@);
    assert(b@.subrange(0, b@.len() as int) =~= b@);
    loop
        invariant
            at <= a@.len(),
            at <= b@.len(),
            key_before(a@, b@) == key_before(
                a@.subrange(at as int, a@.len() as int),
                b@.subrange(at as int, b@.len() as int),
            ),
        decreases a@.len() - at,
    {
        let ghost rest_a = a@.subrange(at as int, a@.len() as int);
        let ghost rest_b = b@.subrange(at as int, b@.len() as int);
        if at == b.len() {
            return false;
        }
        if at == a.len() {
            return true;
        }
        assert(rest_a[0] == a@[at as int] && rest_b[0] == b@[at as int]);
        if a[at] != b[at] {
            return a[at] < b[at];
        }
        assert(rest_a.drop_first() =~= a@.subrange(at + 1, a@.len() as int));
        assert(rest_b.drop_first() =~= b@.subrange(at + 1, b@.len() as int));
        at += 1;
    }
}

proof fn lemma_insert_skips(
    entries: Seq<(Seq<u8>, Value)>,
    key: Seq<u8>,
    value: Value,
    upto: int,
)
    requires
        0 <= upto <= entries.len(),
        forall|i: int|
            0 <= i < upto ==> (#[trigger] entries[i]).0 != key && !key_before(key, entries[i].0),
    ensures
        dict_insert(entries, key, value) == entries.subrange(0, upto) + dict_insert(
            entries.subrange(upto, entries.len() as int),
            key,
            value,
        ),
    decreases upto,
{
    if upto == 0 {
        assert(entries.subrange(0, entries.len() as int) =~= entries);
        assert(entries.subrange(0, 0) + dict_insert(entries, key, value) =~= dict_insert(
            entries,
            key,
            value,
        ));
    } else {
        let rest = entries.drop_first();
        assert(entries[0].0 != key && !key_before(key, entries[0].0));
        assert forall|i: int| 0 <= i < upto - 1 implies (#[trigger] rest[i]).0 != key
            && !key_before(key, rest[i].0) by {
            assert(rest[i] == entries[i + 1]);
        }
        lemma_insert_skips(rest, key, value, upto - 1);
        assert(rest.subrange(upto - 1, rest.len() as int) =~= entries.subrange(
            upto,
            entries.len() as int,
        ));
        assert(seq![entries[0]] + rest.subrange(0, upto - 1) =~= entries.subrange(0, upto));
        assert(seq![entries[0]] + (rest.subrange(0, upto - 1) + dict_insert(
            rest.subrange(upto - 1, rest.len() as int),
            key,
            value,
        )) =~= entries.subrange(0, upto) + dict_insert(
            entries.subrange(upto, entries.len() as int),
            key,
            value,
        ));
    }
}

/// Gives a key its value in the entries of a dictionary: in the place of an
/// entry with the same key, or in its place in the order of keys.
#[verifier::loop_isolation(false)]
pub fn insert_entry(entries: &mut Vec<(Vec<u8>, Bencode)>, key: Vec<u8>, value: Bencode)
    ensures
        entries_value(final(entries)@) == dict_insert(
            entries_value(old(entries)@),
            key@,
            value.value(),
        ),
        well_formed(Value::Dict(entries_value(old(entries)@))) && well_formed(value.value())
            ==> well_formed(Value::Dict(entries_value(final(entries)@))),
{
    proof {
        if well_formed(Value::Dict(entries_value(entries@))) && well_formed(value.value()) {
            lemma_insert_well_formed(entries_value(entries@), key@, value.value());
        }
    }
    let ghost before = entries_value(entries@);
    let ghost added = (key@, value.value());
    let mut at: usize = 0;
    while at < entries.len()
        invariant
            at <= entries@.len(),
            entries@ == old(entries)@,
            before == entries_value(entries@),
            added == (key@, value.value()),
            forall|i: int|
                0 <= i < at ==> (#[trigger] before[i]).0 != key@ && !key_before(key@, before[i].0),
        decreases entries@.len() - at,
    {
        let same = same_bytes(entries[at].0.as_slice(), key.as_slice());
        let less = key_less(key.as_slice(), entries[at].0.as_slice());
        assert(before[at as int].0 == entries@[at as int].0@);
        let ghost rest = before.subrange(at as int, before.len() as int);
        proof {
            lemma_insert_skips(before, key@, value.value(), at as int);
            assert(rest[0] == before[at as int]);
        }
        if same {
            entries.set(at, (key, value));
            assert(entries_value(entries@) =~= before.subrange(0, at as int) + (seq![added]
                + rest.drop_first()));
            return ;
        }
        if less {
            entries.insert(at, (key, value));
            assert(entries_value(entries@) =~= before.subrange(0, at as int) + (seq![added]
                + rest));
            return ;
        }
        at += 1;
    }
    proof {
        lemma_insert_skips(before, key@, value.value(), at as int);
        assert(before.subrange(at as int, before.len() as int) =~= Seq::<
            (Seq<u8>, Value),
        >::empty());
    }
    entries.push((key, value));
    assert(entries_value(entries@) =~= before.subrange(0, at as int) + seq![added]);
}

impl Bencode {
    /// Reads the bencoded value at the start of the data. What follows the
    /// value is not looked at. Data that ends within the value is an error
    /// of the kind of value that it ends in.
    pub fn decode(data: &[u8]) -> (result: Result<Bencode, BencodeError>)
        ensures
            match parse(data@, 0) {
                Ok((value, _)) => result matches Ok(read) && read.value() == value,
                Err(error) => result == Err::<Bencode, BencodeError>(error),
            },
            result matches Ok(read) ==> well_formed(read.value()),
    {
        match Bencode::do_decode(data, 0) {
            Ok((read, _)) => Ok(read),
            Err(error) => Err(error),
        }
    }

    /// Reads the value that starts at `at`, and says where it ends.
    fn do_decode(data: &[u8], at: usize) -> (result: Result<(Bencode, usize), BencodeError>)
        ensures
            match parse(data@, at as int) {
                Ok((value, next)) => result matches Ok((read, after)) && read.value() == value
                    && after == next && at < after <= data@.len(),
                Err(error) => result == Err::<(Bencode, usize), BencodeError>(error),
            },
            result matches Ok((read, _)) ==> well_formed(read.value()),
        decreases data@.len() - at, 0int,
    {
        if at >= data.len() {
            return Err(BencodeError::InvalidBencode);
        }
        let first: u8 = data[at];
        if first == 0x69 {
            match Bencode::decode_number(data, at) {
                Ok((number, after)) => Ok((Bencode::BNumber(number), after)),
                Err(error) => Err(error),
            }
        } else if first == 0x6c {
            Bencode::decode_list(data, at + 1)
        } else if first == 0x64 {
            Bencode::decode_dict(data, at + 1)
        } else if 0x30 <= first && first <= 0x39 {
            match Bencode::decode_string(data, at) {
                Ok((text, after)) => Ok((Bencode::BString(text), after)),
                Err(error) => Err(error),
            }
        } else {
            Err(BencodeError::InvalidBencode)
        }
    }

    /// Reads the byte string that starts at `at`.
    fn decode_string(data: &[u8], at: usize) -> (result: Result<(Vec<u8>, usize), BencodeError>)
        requires
            at < data@.len(),
        ensures
            match parse_text(data@, at as int) {
                Ok((text, next)) => result matches Ok((read, after)) && read@ == text && after
                    == next && at < after <= data@.len(),
                Err(error) => result == Err::<(Vec<u8>, usize), BencodeError>(error),
            },
    {
        let colon = find(data, 0x3a, at);
        if colon >= data.len() {
            return Err(BencodeError::InvalidBencodeString);
        }
        let length: u64 = match read_digits(data, at, colon, 0x7FFF_FFFF_FFFF_FFFF) {
            Some(length) => length,
            None => { return Err(BencodeError::InvalidBencodeString); },
        };
        if length > (data.len() - colon - 1) as u64 {
            return Err(BencodeError::InvalidBencodeString);
        }
        let end: usize = colon + 1 + length as usize;
        Ok((copy_range(data, colon + 1, end), end))
    }

    /// Reads the number that starts at `at` with an `i`.
    fn decode_number(data: &[u8], at: usize) -> (result: Result<(i64, usize), BencodeError>)
        requires
            at < data@.len(),
        ensures
            match parse_number(data@, at as int) {
                Ok((number, next)) => result == Ok::<(i64, usize), BencodeError>(
                    (number, next as usize),
                ) && at < next <= data@.len(),
                Err(error) => result == Err::<(i64, usize), BencodeError>(error),
            },
    {
        let total: usize = data.len();
        let end = find(data, 0x65, at + 1);
        if end >= total {
            return Err(BencodeError::InvalidBencodeNumber);
        }
        let ghost text = data@.subrange(at + 1, end as int);
        let negative: bool = at + 1 < end && data[at + 1] == 0x2d;
        let signed: bool = at + 1 < end && (data[at + 1] == 0x2d || data[at + 1] == 0x2b);
        let from: usize = if signed {
            at + 2
        } else {
            at + 1
        };
        proof {
            if signed {
                assert(text[0] == data@[at + 1]);
                assert(text.drop_first() =~= data@.subrange(from as int, end as int));
            } else {
                if text.len() > 0 {
                    assert(text[0] == data@[at + 1]);
                }
            }
        }
        let limit: u64 = if negative {
            0x8000_0000_0000_0000
        } else {
            0x7FFF_FFFF_FFFF_FFFF
        };
        let magnitude: u64 = match read_digits(data, from, end, limit) {
            Some(magnitude) => magnitude,
            None => { return Err(BencodeError::InvalidBencodeNumber); },
        };
        let number: i64 = if negative {
            if magnitude == 0x8000_0000_0000_0000 {
                i64::MIN
            } else {
                -(magnitude as i64)
            }
        } else {
            magnitude as i64
        };
        Ok((number, end + 1))
    }

    /// Reads the items of a list from `at`, after its `l`, up to its `e`.
    fn decode_list(data: &[u8], at: usize) -> (result: Result<(Bencode, usize), BencodeError>)
        requires
            0 < at <= data@.len(),
        ensures
            match parse_items(data@, at as int) {
                Ok((items, next)) => result matches Ok((read, after)) && read.value()
                    == Value::List(items) && after == next && at < after <= data@.len(),
                Err(error) => result == Err::<(Bencode, usize), BencodeError>(error),
            },
            result matches Ok((read, _)) ==> well_formed(read.value()),
        decreases data@.len() - at, 1int,
    {
        let mut list: Vec<Bencode> = Vec::new();
        let mut next: usize = at;
        let ghost mut done: Seq<Value> = Seq::empty();
        assert(items_after(done, parse_items(data@, next as int)) == parse_items(
            data@,
            at as int,
        )) by {
            match parse_items(data@, at as int) {
                Ok((items, end)) => {
                    assert(done + items =~= items);
                },
                Err(_) => {},
            }
        }
        loop
            invariant
                at <= next <= data@.len(),
                done == items_value(list@),
                forall|i: int| 0 <= i < done.len() ==> well_formed(#[trigger] done[i]),
                parse_items(data@, at as int) == items_after(
                    done,
                    parse_items(data@, next as int),
                ),
            decreases data@.len() - next,
        {
            if next >= data.len() {
                return Err(BencodeError::InvalidBencodeList);
            }
            if data[next] == 0x65 {
                proof {
                    lemma_list_value(list);
                    assert(done + Seq::<Value>::empty() =~= done);
                }
                return Ok((Bencode::BList(list), next + 1));
            }
            match Bencode::do_decode(data, next) {
                Err(error) => {
                    return Err(error);
                },
                Ok((item, after)) => {
                    proof {
                        let value = item.value();
                        match parse_items(data@, after as int) {
                            Ok((rest, end)) => {
                                assert(done + (seq![value] + rest) =~= done.push(value) + rest);
                            },
                            Err(_) => {},
                        }
                        assert(items_value(list@.push(item)) =~= done.push(value));
                        done = done.push(value);
                    }
                    list.push(item);
                    next = after;
                },
            }
        }
    }

    /// Reads the pairs of a dictionary from `at`, after its `d`, up to its
    /// `e`.
    fn decode_dict(data: &[u8], at: usize) -> (result: Result<(Bencode, usize), BencodeError>)
        requires
            0 < at <= data@.len(),
        ensures
            match parse_pairs(data@, at as int) {
                Ok((pairs, next)) => result matches Ok((read, after)) && read.value()
                    == Value::Dict(dict_of(pairs)) && after == next && at < after
                    <= data@.len(),
                Err(error) => result == Err::<(Bencode, usize), BencodeError>(error),
            },
            result matches Ok((read, _)) ==> well_formed(read.value()),
        decreases data@.len() - at, 1int,
    {
        let mut entries: Vec<(Vec<u8>, Bencode)> = Vec::new();
        let mut next: usize = at;
        let ghost mut done: Seq<(Seq<u8>, Value)> = Seq::empty();
        assert(pairs_after(done, parse_pairs(data@, next as int)) == parse_pairs(
            data@,
            at as int,
        )) by {
            match parse_pairs(data@, at as int) {
                Ok((pairs, end)) => {
                    assert(done + pairs =~= pairs);
                },
                Err(_) => {},
            }
        }
        assert(entries_value(entries@) =~= dict_of(done));
        loop
            invariant
                at <= next <= data@.len(),
                entries_value(entries@) == dict_of(done),
                well_formed(Value::Dict(entries_value(entries@))),
                parse_pairs(data@, at as int) == pairs_after(
                    done,
                    parse_pairs(data@, next as int),
                ),
            decreases data@.len() - next,
        {
            if next >= data.len() {
                return Err(BencodeError::InvalidBencodeDict);
            }
            if data[next] == 0x65 {
                proof {
                    lemma_dict_value(entries);
                    assert(done + Seq::<(Seq<u8>, Value)>::empty() =~= done);
                }
                return Ok((Bencode::BDict(entries), next + 1));
            }
            let (key, after_key) = match Bencode::do_decode(data, next) {
                Err(error) => {
                    return Err(error);
                },
                Ok(read) => read,
            };
            let (value, after) = match Bencode::do_decode(data, after_key) {
                Err(error) => {
                    return Err(error);
                },
                Ok(read) => read,
            };
            match key {
                Bencode::BString(name) => {
                    proof {
                        let pair = (name@, value.value());
                        match parse_pairs(data@, after as int) {
                            Ok((rest, end)) => {
                                assert(done + (seq![pair] + rest) =~= done.push(pair) + rest);
                            },
                            Err(_) => {},
                        }
                        assert(done.push(pair).drop_last() =~= done);
                        assert(done.push(pair).last() == pair);
                        done = done.push(pair);
                    }
                    insert_entry(&mut entries, name, value);
                    next = after;
                },
                _ => {
                    return Err(BencodeError::InvalidBencodeDict);
                },
            }
        }
    }
}

/// A natural number in decimal digits, as bytes.
pub open spec fn decimal_bytes(number: nat) -> Seq<u8>
    decreases number,
{
    if number < 10 {
        seq![(0x30 + number) as u8]
    } else {
        decimal_bytes(number / 10).push((0x30 + number % 10) as u8)
    }
}

/// An integer in decimal digits, as bytes, with a minus sign where it is
/// negative.
pub open spec fn signed_decimal_bytes(number: int) -> Seq<u8> {
    if number < 0 {
        seq![0x2du8] + decimal_bytes((-number) as nat)
    } else {
        decimal_bytes(number as nat)
    }
}

/// The encoding of a byte string: its length, a colon, its bytes.
pub open spec fn text_encoding(text: Seq<u8>) -> Seq<u8> {
    decimal_bytes(text.len()) + seq![0x3au8] + text
}

/// The encoding of a value: `i`, the number and `e`; the length of a byte
/// string, a colon and its bytes; `l`, the items and `e`; `d`, each key
/// followed by its value, and `e`.
pub open spec fn encoding(value: Value) -> Seq<u8>
    decreases value,
{
    match value {
        Value::Number(number) => seq![0x69u8] + signed_decimal_bytes(number as int) + seq![
            0x65u8,
        ],
        Value::Text(text) => text_encoding(text),
        Value::List(items) => seq![0x6cu8] + items_encoding(items) + seq![0x65u8],
        Value::Dict(entries) => seq![0x64u8] + entries_encoding(entries) + seq![0x65u8],
    }
}

/// The encodings of the items of a list, one after the other.
pub open spec fn items_encoding(items: Seq<Value>) -> Seq<u8>
    decreases items,
{
    if items.len() == 0 {
        Seq::empty()
    } else {
        items_encoding(items.drop_last()) + encoding(items.last())
    }
}

/// The encodings of the entries of a dictionary, one after the other: each
/// key as a byte string, followed by its value.
pub open spec fn entries_encoding(entries: Seq<(Seq<u8>, Value)>) -> Seq<u8>
    decreases entries,
{
    if entries.len() == 0 {
        Seq::empty()
    } else {
        entries_encoding(entries.drop_last()) + text_encoding(entries.last().0) + encoding(
            entries.last().1,
        )
    }
}

/// Appends a natural number in decimal digits.
pub fn push_decimal_bytes(bytes: &mut Vec<u8>, number: u64)
    ensures
        final(bytes)@ == old(bytes)@ + decimal_bytes(number as nat),
    decreases number,
{
    if number >= 10 {
        push_decimal_bytes(bytes, number / 10);
    }
    bytes.push(0x30 + (number % 10) as u8);
    assert(final(bytes)@ =~= old(bytes)@ + decimal_bytes(number as nat));
}

/// Appends the encoding of a byte string.
pub fn push_text_encoding(bytes: &mut Vec<u8>, text: &[u8])
    ensures
        final(bytes)@ == old(bytes)@ + text_encoding(text@),
{
    push_decimal_bytes(bytes, text.len() as u64);
    bytes.push(0x3a);
    push_all(bytes, text);
    assert(final(bytes)@ =~= old(bytes)@ + text_encoding(text@));
}

impl Bencode {
    /// The bytes that encode this value.
    pub fn encode(&self) -> (bytes: Vec<u8>)
        ensures
            bytes@ == encoding(self.value()),
    {
        let mut bytes: Vec<u8> = Vec::new();
        self.encode_into(&mut bytes);
        assert(bytes@ =~= encoding(self.value()));
        bytes
    }

    /// Appends the bytes that encode this value.
    fn encode_into(&self, bytes: &mut Vec<u8>)
        ensures
            final(bytes)@ == old(bytes)@ + encoding(self.value()),
        decreases self,
    {
        match self {
            Bencode::BNumber(number) => {
                bytes.push(0x69);
                if *number < 0 {
                    bytes.push(0x2d);
                    let magnitude: u64 = if *number == i64::MIN {
                        0x8000_0000_0000_0000
                    } else {
                        (-*number) as u64
                    };
                    push_decimal_bytes(bytes, magnitude);
                } else {
                    push_decimal_bytes(bytes, *number as u64);
                }
                bytes.push(0x65);
                assert(final(bytes)@ =~= old(bytes)@ + encoding(self.value()));
            },
            Bencode::BString(text) => {
                push_text_encoding(bytes, text.as_slice());
            },
            Bencode::BList(items) => {
                let ghost values = items_value(items@);
                proof {
                    lemma_list_value(*items);
                }
                bytes.push(0x6c);
                let mut at: usize = 0;
                while at < items.len()
                    invariant
                        at <= items@.len(),
                        values == items_value(items@),
                        decreases_to!(*self => *items),
                        bytes@ == old(bytes)@ + seq![0x6cu8] + items_encoding(
                            values.subrange(0, at as int),
                        ),
                    decreases items@.len() - at,
                {
                    proof {
                        vstd::std_specs::vec::axiom_vec_index_decreases(*items, at as int);
                        assert(decreases_to!(*items => items@[at as int]));
                    }
                    items[at].encode_into(bytes);
                    proof {
                        let longer = values.subrange(0, at + 1);
                        assert(longer.drop_last() =~= values.subrange(0, at as int));
                        assert(longer.last() == items@[at as int].value());
                        assert(bytes@ =~= old(bytes)@ + seq![0x6cu8] + items_encoding(longer));
                    }
                    at += 1;
                }
                assert(values.subrange(0, at as int) =~= values);
                bytes.push(0x65);
                assert(final(bytes)@ =~= old(bytes)@ + encoding(self.value()));
            },
            Bencode::BDict(entries) => {
                let ghost values = entries_value(entries@);
                proof {
                    lemma_dict_value(*entries);
                }
                bytes.push(0x64);
                let mut at: usize = 0;
                while at < entries.len()
                    invariant
                        at <= entries@.len(),
                        values == entries_value(entries@),
                        decreases_to!(*self => *entries),
                        bytes@ == old(bytes)@ + seq![0x64u8] + entries_encoding(
                            values.subrange(0, at as int),
                        ),
                    decreases entries@.len() - at,
                {
                    let ghost before = bytes@;
                    push_text_encoding(bytes, entries[at].0.as_slice());
                    proof {
                        vstd::std_specs::vec::axiom_vec_index_decreases(*entries, at as int);
                    }
                    entries[at].1.encode_into(bytes);
                    proof {
                        let longer = values.subrange(0, at + 1);
                        assert(longer.drop_last() =~= values.subrange(0, at as int));
                        assert(longer.last() == (
                            entries@[at as int].0@,
                            entries@[at as int].1.value(),
                        ));
                        assert(bytes@ =~= before + text_encoding(longer.last().0) + encoding(
                            longer.last().1,
                        ));
                        assert(bytes@ =~= old(bytes)@ + seq![0x64u8] + entries_encoding(longer));
                    }
                    at += 1;
                }
                assert(values.subrange(0, at as int) =~= values);
                bytes.push(0x65);
                assert(final(bytes)@ =~= old(bytes)@ + encoding(self.value()));
            },
        }
    }
}

/// What the entries of a dictionary come to when each is taken in turn,
/// from a start, by a step that may fail: the first failure, or what the
/// last entry leaves.
pub open spec fn fold_entries<F, E>(
    entries: Seq<(Seq<u8>, Value)>,
    start: F,
    step: spec_fn(F, Seq<u8>, Value) -> Result<F, E>,
) -> Result<F, E>
    decreases entries.len(),
{
    if entries.len() == 0 {
        Ok(start)
    } else {
        match fold_entries(entries.drop_last(), start, step) {
            Ok(so_far) => step(so_far, entries.last().0, entries.last().1),
            Err(error) => Err(error),
        }
    }
}

/// Once an entry has failed, the entries after it change nothing.
pub proof fn lemma_fold_error_stays<F, E>(
    entries: Seq<(Seq<u8>, Value)>,
    start: F,
    step: spec_fn(F, Seq<u8>, Value) -> Result<F, E>,
    upto: int,
)
    requires
        0 <= upto <= entries.len(),
        fold_entries(entries.subrange(0, upto), start, step) is Err,
    ensures
        fold_entries(entries, start, step) == fold_entries(
            entries.subrange(0, upto),
            start,
            step,
        ),
    decreases entries.len() - upto,
{
    if upto < entries.len() {
        assert(entries.subrange(0, upto + 1).drop_last() =~= entries.subrange(0, upto));
        lemma_fold_error_stays(entries, start, step, upto + 1);
    } else {
        assert(entries.subrange(0, upto) =~= entries);
    }
}

/// Taking one more entry is one more step.
pub proof fn lemma_fold_next<F, E>(
    entries: Seq<(Seq<u8>, Value)>,
    start: F,
    step: spec_fn(F, Seq<u8>, Value) -> Result<F, E>,
    upto: int,
)
    requires
        0 <= upto < entries.len(),
    ensures
        fold_entries(entries.subrange(0, upto + 1), start, step) == (match fold_entries(
            entries.subrange(0, upto),
            start,
            step,
        ) {
            Ok(so_far) => step(so_far, entries[upto].0, entries[upto].1),
            Err(error) => Err(error),
        }),
        fold_entries(entries.subrange(0, entries.len() as int), start, step) == fold_entries(
            entries,
            start,
            step,
        ),
{
    assert(entries.subrange(0, upto + 1).drop_last() =~= entries.subrange(0, upto));
    assert(entries.subrange(0, entries.len() as int) =~= entries);
}

} // verus!

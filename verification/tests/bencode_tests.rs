use dtorrent::encoder_decoder::bencode::{Bencode, BencodeError};
use std::collections::BTreeMap;

fn dict_of(dict: BTreeMap<Vec<u8>, Bencode>) -> Bencode {
    Bencode::BDict(dict.into_iter().collect())
}

#[test]
fn test_decode_string() {
    let data = b"4:spam";

    assert_eq!(
        Bencode::decode(data).unwrap(),
        Bencode::BString(b"spam".to_vec())
    );
}

#[test]
fn test_decode_empty_string() {
    let data = b"0:";
    assert_eq!(
        Bencode::decode(data).unwrap(),
        Bencode::BString(b"".to_vec())
    );
}

#[test]
fn test_decode_positive_integer() {
    let data = b"i3e";
    assert_eq!(Bencode::decode(data).unwrap(), Bencode::BNumber(3));
}

#[test]
fn test_decode_negative_integer() {
    let data = b"i-3e";
    assert_eq!(Bencode::decode(data).unwrap(), Bencode::BNumber(-3));
}

#[test]
fn test_decode_list() {
    let data = b"l4:spam4:eggse";
    assert_eq!(
        Bencode::decode(data).unwrap(),
        Bencode::BList(vec![
            Bencode::BString(b"spam".to_vec()),
            Bencode::BString(b"eggs".to_vec()),
        ])
    );
}

#[test]
fn test_decode_empty_list() {
    let data = b"le";
    assert_eq!(Bencode::decode(data).unwrap(), Bencode::BList(vec![]));
}

#[test]
fn test_decode_nested_list() {
    let data = b"ll3:fooee";
    assert_eq!(
        Bencode::decode(data).unwrap(),
        Bencode::BList(vec![Bencode::BList(vec![Bencode::BString(
            b"foo".to_vec()
        )])])
    );
}

#[test]
fn test_decode_nested_with_2_lists() {
    let data = b"ll3:fooel3:baree";

    assert_eq!(
        Bencode::decode(data).unwrap(),
        Bencode::BList(vec![
            Bencode::BList(vec![Bencode::BString(b"foo".to_vec())]),
            Bencode::BList(vec![Bencode::BString(b"bar".to_vec())])
        ])
    );
}

#[test]
fn test_decode_dict() {
    let data = b"d3:cow3:moo4:spam4:eggse";
    let mut dict = BTreeMap::new();
    dict.insert(b"cow".to_vec(), Bencode::BString(b"moo".to_vec()));
    dict.insert(b"spam".to_vec(), Bencode::BString(b"eggs".to_vec()));

    assert_eq!(Bencode::decode(data).unwrap(), dict_of(dict));
}

#[test]
fn test_decode_dict_with_list() {
    let data = b"d4:spaml1:a1:bee";
    let mut dict = BTreeMap::new();
    dict.insert(
        b"spam".to_vec(),
        Bencode::BList(vec![
            Bencode::BString(b"a".to_vec()),
            Bencode::BString(b"b".to_vec()),
        ]),
    );

    assert_eq!(Bencode::decode(data).unwrap(), dict_of(dict));
}

#[test]
fn test_decode_longer_dict() {
    let data =
        b"d9:publisher3:bob17:publisher-webpage15:www.example.com18:publisher.location4:homee";
    let mut dict = BTreeMap::new();
    dict.insert(b"publisher".to_vec(), Bencode::BString(b"bob".to_vec()));
    dict.insert(
        b"publisher-webpage".to_vec(),
        Bencode::BString(b"www.example.com".to_vec()),
    );
    dict.insert(
        b"publisher.location".to_vec(),
        Bencode::BString(b"home".to_vec()),
    );

    assert_eq!(Bencode::decode(data).unwrap(), dict_of(dict));
}

#[test]
fn test_decode_empty_dict() {
    let data = b"de";
    let dict = BTreeMap::new();

    assert_eq!(Bencode::decode(data).unwrap(), dict_of(dict));
}

#[test]
fn test_decode_dict_with_number_and_string() {
    let data = b"d3:fooi42e3:bar5:thinge";
    let mut dict = BTreeMap::new();
    dict.insert(b"bar".to_vec(), Bencode::BString(b"thing".to_vec()));
    dict.insert(b"foo".to_vec(), Bencode::BNumber(42));

    assert_eq!(Bencode::decode(data).unwrap(), dict_of(dict));
}

#[test]
fn decode_keeps_the_last_of_two_equal_keys() {
    let data = b"d1:ai1e1:ai2ee";
    assert_eq!(
        Bencode::decode(data).unwrap(),
        Bencode::BDict(vec![(b"a".to_vec(), Bencode::BNumber(2))])
    );
}

#[test]
fn decode_orders_keys_byte_by_byte() {
    let data = b"d2:abi1e1:ai2e1:bi3e0:i4ee";
    assert_eq!(
        Bencode::decode(data).unwrap(),
        Bencode::BDict(vec![
            (b"".to_vec(), Bencode::BNumber(4)),
            (b"a".to_vec(), Bencode::BNumber(2)),
            (b"ab".to_vec(), Bencode::BNumber(1)),
            (b"b".to_vec(), Bencode::BNumber(3)),
        ])
    );
}

#[test]
fn decode_number_limits() {
    assert_eq!(
        Bencode::decode(b"i9223372036854775807e").unwrap(),
        Bencode::BNumber(i64::MAX)
    );
    assert_eq!(
        Bencode::decode(b"i-9223372036854775808e").unwrap(),
        Bencode::BNumber(i64::MIN)
    );
    assert_eq!(Bencode::decode(b"i+7e").unwrap(), Bencode::BNumber(7));
    assert_eq!(Bencode::decode(b"i007e").unwrap(), Bencode::BNumber(7));
    assert_eq!(
        Bencode::decode(b"i9223372036854775808e"),
        Err(BencodeError::InvalidBencodeNumber)
    );
    assert_eq!(
        Bencode::decode(b"i-9223372036854775809e"),
        Err(BencodeError::InvalidBencodeNumber)
    );
}

#[test]
fn decode_errors() {
    assert_eq!(Bencode::decode(b""), Err(BencodeError::InvalidBencode));
    assert_eq!(Bencode::decode(b"x"), Err(BencodeError::InvalidBencode));
    assert_eq!(Bencode::decode(b"ie"), Err(BencodeError::InvalidBencodeNumber));
    assert_eq!(Bencode::decode(b"i-e"), Err(BencodeError::InvalidBencodeNumber));
    assert_eq!(Bencode::decode(b"i12"), Err(BencodeError::InvalidBencodeNumber));
    assert_eq!(Bencode::decode(b"i1x2e"), Err(BencodeError::InvalidBencodeNumber));
    assert_eq!(Bencode::decode(b"4:spa"), Err(BencodeError::InvalidBencodeString));
    assert_eq!(Bencode::decode(b"4spam"), Err(BencodeError::InvalidBencodeString));
    assert_eq!(Bencode::decode(b"4x:spam"), Err(BencodeError::InvalidBencodeString));
    assert_eq!(Bencode::decode(b"l4:spam"), Err(BencodeError::InvalidBencodeList));
    assert_eq!(Bencode::decode(b"lxe"), Err(BencodeError::InvalidBencode));
    assert_eq!(Bencode::decode(b"d3:cow"), Err(BencodeError::InvalidBencode));
    assert_eq!(Bencode::decode(b"d3:cow3:moo"), Err(BencodeError::InvalidBencodeDict));
    assert_eq!(Bencode::decode(b"di1e3:mooe"), Err(BencodeError::InvalidBencodeDict));
}

#[test]
fn decode_ignores_what_follows_the_value() {
    assert_eq!(Bencode::decode(b"i3e4:spam").unwrap(), Bencode::BNumber(3));
}

#[test]
fn encode_writes_each_kind() {
    assert_eq!(Bencode::BNumber(-42).encode(), b"i-42e".to_vec());
    assert_eq!(Bencode::BNumber(0).encode(), b"i0e".to_vec());
    assert_eq!(
        Bencode::BNumber(i64::MIN).encode(),
        b"i-9223372036854775808e".to_vec()
    );
    assert_eq!(Bencode::BString(b"spam".to_vec()).encode(), b"4:spam".to_vec());
    assert_eq!(
        Bencode::BString(b"0123456789ab".to_vec()).encode(),
        b"12:0123456789ab".to_vec()
    );
    assert_eq!(
        Bencode::BList(vec![Bencode::BNumber(1), Bencode::BString(b"a".to_vec())]).encode(),
        b"li1e1:ae".to_vec()
    );
    assert_eq!(
        Bencode::BDict(vec![
            (b"bar".to_vec(), Bencode::BString(b"thing".to_vec())),
            (b"foo".to_vec(), Bencode::BNumber(42)),
        ])
        .encode(),
        b"d3:bar5:thing3:fooi42ee".to_vec()
    );
}

#[test]
fn decode_reads_back_what_encode_wrote() {
    let value = Bencode::BDict(vec![
        (
            b"list".to_vec(),
            Bencode::BList(vec![Bencode::BNumber(-1), Bencode::BList(vec![])]),
        ),
        (b"text".to_vec(), Bencode::BString(vec![0, 255, 58, 101])),
    ]);
    assert_eq!(Bencode::decode(&value.encode()).unwrap(), value);
}

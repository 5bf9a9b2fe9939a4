use dtorrent::encoder_decoder::url_encoder::encode;

#[test]
fn test_encode_empty_string_returns_empty_string() {
    assert_eq!("", encode(""));
}

#[test]
fn test_encode_info_hash() {
    let info_hash = "2c6b6858d61da9543d4231a71db4b1c9264b0685";
    let expected_info_hash = "%2c%6b%68%58%d6%1d%a9%54%3d%42%31%a7%1d%b4%b1%c9%26%4b%06%85";

    assert_eq!(expected_info_hash, encode(info_hash));
}

#[test]
fn encode_odd_number_of_digits() {
    assert_eq!("%2c%6", encode("2c6"));
    assert_eq!("%a", encode("a"));
    assert_eq!("%ab", encode("ab"));
}

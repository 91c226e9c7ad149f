use square_game::parse::parse_row_length;

#[test]
fn parses_plain_numbers() {
    assert_eq!(parse_row_length(&b"0".to_vec()), Some(0));
    assert_eq!(parse_row_length(&b"7".to_vec()), Some(7));
    assert_eq!(parse_row_length(&b"12".to_vec()), Some(12));
    assert_eq!(parse_row_length(&b"255".to_vec()), Some(255));
}

#[test]
fn parses_leading_zeros_and_plus_sign() {
    assert_eq!(parse_row_length(&b"007".to_vec()), Some(7));
    assert_eq!(parse_row_length(&b"+42".to_vec()), Some(42));
    assert_eq!(parse_row_length(&b"00000000255".to_vec()), Some(255));
}

#[test]
fn rejects_values_that_do_not_fit() {
    assert_eq!(parse_row_length(&b"256".to_vec()), None);
    assert_eq!(parse_row_length(&b"999".to_vec()), None);
    assert_eq!(parse_row_length(&b"12345678901234567890".to_vec()), None);
}

#[test]
fn rejects_lines_that_are_not_numerals() {
    assert_eq!(parse_row_length(&b"".to_vec()), None);
    assert_eq!(parse_row_length(&b"+".to_vec()), None);
    assert_eq!(parse_row_length(&b"-3".to_vec()), None);
    assert_eq!(parse_row_length(&b"3a".to_vec()), None);
    assert_eq!(parse_row_length(&b"a3".to_vec()), None);
    assert_eq!(parse_row_length(&b" 3".to_vec()), None);
    assert_eq!(parse_row_length(&b"3 ".to_vec()), None);
    assert_eq!(parse_row_length(&b"two".to_vec()), None);
}

#[test]
fn agrees_with_the_standard_parser_on_samples() {
    let samples: [&[u8]; 10] = [
        b"0", b"255", b"256", b"+17", b"++1", b"042", b"", b"9x", b"31", b"128",
    ];
    for s in samples {
        let expected = std::str::from_utf8(s).unwrap().parse::<u8>().ok();
        assert_eq!(parse_row_length(&s.to_vec()), expected);
    }
}

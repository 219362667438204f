use ctrl::parse_num::{parse_num, parse_num_mask, parse_num_padded, ParseError};

#[test]
fn basic_number_parsing() {
    assert_eq!(parse_num("2"), Ok(vec![2]));
    assert_eq!(parse_num("0x2"), Ok(vec![0x2]));
    assert_eq!(parse_num("0b10"), Ok(vec![0b10]));
    assert_eq!(parse_num("0o2"), Ok(vec![0o2]));
}

#[test]
fn masked_number_parsing() {
    assert_eq!(
        parse_num_mask("2z").map_err(|e| e.message()),
        Err("invald radix, expected radix of from 2^n for masked numbers".to_owned())
    );
    assert_eq!(parse_num_mask("2z"), Err(ParseError::InvalidMaskRadix));
    assert_eq!(parse_num_mask("0x2"), Ok((None, vec![0x2])));
    assert_eq!(parse_num_mask("0b10"), Ok((None, vec![0b10])));
    assert_eq!(parse_num_mask("0o2"), Ok((None, vec![0o2])));
}

#[test]
fn masked_number_parsing_with_masks() {
    assert_eq!(parse_num_mask("0xz2"), Ok((Some(vec![0b1111]), vec![0x2])));
    assert_eq!(
        parse_num_mask("0b1z0"),
        Ok((Some(vec![0b101]), vec![0b100]))
    );
    assert_eq!(
        parse_num_mask("0o2z"),
        Ok((Some(vec![0b111000]), vec![0o20]))
    );
}

#[test]
fn negative_numbers_are_twos_complement() {
    assert_eq!(parse_num("-1"), Ok(vec![0xFF]));
    assert_eq!(parse_num("-128"), Ok(vec![0x80]));
    assert_eq!(parse_num("-129"), Ok(vec![0xFF, 0x7F]));
    assert_eq!(parse_num("128"), Ok(vec![0x00, 0x80]));
    assert_eq!(parse_num("-0x10"), Ok(vec![0xF0]));
    assert_eq!(parse_num("0"), Ok(vec![0]));
    assert_eq!(parse_num("-0"), Ok(vec![0]));
    assert_eq!(parse_num("0x1234"), Ok(vec![0x12, 0x34]));
    assert_eq!(parse_num("0xFFff"), Ok(vec![0x00, 0xFF, 0xFF]));
}

#[test]
fn padded_numbers() {
    assert_eq!(parse_num_padded("0x12", Some(3)), Ok(vec![0, 0, 0x12]));
    assert_eq!(parse_num_padded("-2", Some(3)), Ok(vec![0xFF, 0xFF, 0xFE]));
    assert_eq!(parse_num_padded("0x1234", Some(1)), Ok(vec![0x12, 0x34]));
    assert_eq!(parse_num_padded("0x1234", None), Ok(vec![0x12, 0x34]));
}

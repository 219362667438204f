use ctrl::address::{split_address, Address, AddressText, SliceText};
use ctrl::bytes::{be_to_u64, left_pad, to_hex, u128_to_be};
use ctrl::digits::to_digit;
use ctrl::masks::merge_masked;
use ctrl::parse_num::{get_negative_radix_start, parse_num, parse_num_mask, ParseError};
use ctrl::serde_util::{bool_false, FileOpener};
use ctrl::text::{
    chars_of, decimal, kept_bounds, parse_decimal, same_text, string_of, trim_bounds,
};
use std::path::PathBuf;

fn signed_be(n: i64) -> Vec<u8> {
    let all = n.to_be_bytes();
    let mut start = 0;
    while start < 7
        && ((all[start] == 0x00 && all[start + 1] < 0x80)
            || (all[start] == 0xFF && all[start + 1] >= 0x80))
    {
        start += 1;
    }
    all[start..].to_vec()
}

#[test]
fn literals_of_numbers_read_back() {
    let numbers: [i64; 16] =
        [0, 1, 2, 7, 8, 9, 10, 15, 16, 127, 128, 255, 256, 32767, 32768, 0x1234_5678_9abc];
    for n in numbers {
        assert_eq!(parse_num(&format!("{}", n)), Ok(signed_be(n)));
        assert_eq!(parse_num(&format!("{:#x}", n)), Ok(signed_be(n)));
        assert_eq!(parse_num(&format!("{:#o}", n)), Ok(signed_be(n)));
        assert_eq!(parse_num(&format!("{:#b}", n)), Ok(signed_be(n)));
        assert_eq!(parse_num(&format!("-{}", n)), Ok(signed_be(-n)));
        assert_eq!(parse_num(&format!("-{:#x}", n)), Ok(signed_be(-n)));
        assert_eq!(parse_num(&format!("-{:#o}", n)), Ok(signed_be(-n)));
        assert_eq!(parse_num(&format!("-{:#b}", n)), Ok(signed_be(-n)));
    }
}

#[test]
fn mask_is_there_exactly_with_a_z() {
    for text in ["0", "12", "0x1f", "0o17", "0b101", "-5"] {
        assert!(matches!(parse_num_mask(text), Ok((None, _))), "{}", text);
    }
    for text in ["0xz", "0x1z", "0ozz7", "0b1z0z", "-0b1z"] {
        assert!(matches!(parse_num_mask(text), Ok((Some(_), _))), "{}", text);
    }
}

#[test]
fn value_has_no_bit_outside_the_mask() {
    for text in ["0xz", "0x1z", "0xz80", "0ozz7", "0o7z3", "0b1z0z", "0xfzzf0z1", "0o3z7z77z1"] {
        let (mask, value) = parse_num_mask(text).unwrap();
        let mask = mask.unwrap();
        assert!(value.len() <= mask.len(), "{}", text);
        let shift = mask.len() - value.len();
        for i in 0..value.len() {
            assert_eq!(value[i] & mask[shift + i], value[i], "{}", text);
        }
    }
    assert_eq!(parse_num_mask("0xz80"), Ok((Some(vec![0x00, 0xFF]), vec![0x00, 0x80])));
    assert_eq!(parse_num_mask("0xz7f"), Ok((Some(vec![0x00, 0xFF]), vec![0x7F])));
    assert_eq!(parse_num_mask("-0b1z0"), Ok((Some(vec![0xFB]), vec![0xFC])));
}

#[test]
fn literals_that_are_refused() {
    assert_eq!(parse_num(""), Err(ParseError::InvalidRadix));
    assert_eq!(parse_num("-"), Err(ParseError::InvalidRadix));
    assert_eq!(parse_num("x1"), Err(ParseError::InvalidRadix));
    assert_eq!(parse_num("12a"), Err(ParseError::InvalidDigit('a', 10)));
    assert_eq!(parse_num("0b12"), Err(ParseError::InvalidDigit('2', 2)));
    assert_eq!(parse_num("0o8"), Err(ParseError::InvalidDigit('8', 8)));
    assert_eq!(parse_num("0xfg"), Err(ParseError::InvalidDigit('g', 16)));
    assert_eq!(parse_num("1_0"), Err(ParseError::InvalidDigit('_', 10)));
    assert_eq!(parse_num("0x"), Err(ParseError::NoDigits));
    assert_eq!(parse_num_mask("z"), Err(ParseError::InvalidRadix));
    assert_eq!(parse_num_mask("1z"), Err(ParseError::InvalidMaskRadix));
    assert_eq!(parse_num_mask("0xzg"), Err(ParseError::InvalidDigit('g', 16)));
    assert_eq!(ParseError::InvalidRadix.message(), "could not determine radix");
    assert_eq!(ParseError::InvalidDigit('g', 16).message(), "invalid digit g for radix 16");
    assert_eq!(ParseError::NoDigits.message(), "cannot parse integer from empty string");
}

#[test]
fn heads_of_literals() {
    let head = |s: &str| get_negative_radix_start(&chars_of(s));
    assert_eq!(head("0x1"), Ok((false, 16, 2)));
    assert_eq!(head("-0o1"), Ok((true, 8, 3)));
    assert_eq!(head("-0b1"), Ok((true, 2, 3)));
    assert_eq!(head("9"), Ok((false, 10, 0)));
    assert_eq!(head("-9"), Ok((true, 10, 1)));
    assert_eq!(head("0"), Ok((false, 10, 0)));
    assert_eq!(head("a"), Err(ParseError::InvalidRadix));
}

#[test]
fn digits_of_radices() {
    assert_eq!(to_digit('7', 8), Some(7));
    assert_eq!(to_digit('8', 8), None);
    assert_eq!(to_digit('f', 16), Some(15));
    assert_eq!(to_digit('F', 16), Some(15));
    assert_eq!(to_digit('z', 36), Some(35));
    assert_eq!(to_digit('-', 10), None);
}

#[test]
fn addresses_in_parts() {
    assert_eq!(
        split_address("0x12"),
        Some(AddressText { base: "0x12".to_owned(), slice: SliceText::Whole })
    );
    assert_eq!(
        split_address("reg[3]"),
        Some(AddressText { base: "reg".to_owned(), slice: SliceText::Single("3".to_owned()) })
    );
    assert_eq!(
        split_address("reg[1:2]"),
        Some(AddressText {
            base: "reg".to_owned(),
            slice: SliceText::Range(Some("1".to_owned()), Some("2".to_owned())),
        })
    );
    assert_eq!(
        split_address("reg[:]"),
        Some(AddressText { base: "reg".to_owned(), slice: SliceText::Range(None, None) })
    );
    assert_eq!(
        split_address("reg[1:2:3]"),
        Some(AddressText {
            base: "reg".to_owned(),
            slice: SliceText::Range(Some("1:2".to_owned()), Some("3".to_owned())),
        })
    );
    assert_eq!(split_address("reg[]"), None);
    assert_eq!(split_address("[1]"), None);
    assert_eq!(split_address("reg[1]]"), None);
    assert_eq!(split_address(""), None);
}

#[test]
fn addresses_with_widths() {
    assert_eq!(
        Address::parse("0x10", 2),
        Ok(Address { base: vec![0x10], slice_start: 0, slice_end: 16 })
    );
    assert_eq!(
        Address::parse("0x10[:]", 2),
        Ok(Address { base: vec![0x10], slice_start: 0, slice_end: 15 })
    );
    assert_eq!(
        Address::parse("0x10[4:]", 1),
        Ok(Address { base: vec![0x10], slice_start: 4, slice_end: 11 })
    );
    assert_eq!(
        Address::parse("0x10[-1:-1]", 1),
        Ok(Address { base: vec![0x10], slice_start: 255, slice_end: 255 })
    );
    assert_eq!(
        Address::parse("gain[1:3]", 1),
        Ok(Address { base: b"gain".to_vec(), slice_start: 1, slice_end: 3 })
    );
    assert_eq!(
        Address::parse_with("0x10[1:3]", None),
        Ok(Address { base: vec![0x10], slice_start: 1, slice_end: 3 })
    );
    assert!(Address::parse_with("0x10", None).is_err());
    assert!(Address::parse("0x10", 32).is_err());
    assert!(Address::parse("0x10[200]", 1).is_err());
    assert!(Address::parse("0x10[1:]", 0).is_err());
    assert_eq!(
        Address::parse("0x10", 31),
        Ok(Address { base: vec![0x10], slice_start: 0, slice_end: 248 })
    );
}

#[test]
fn address_as_number_and_byte_count() {
    let address = Address { base: vec![0x12, 0x34], slice_start: 1, slice_end: 16 };
    assert_eq!(address.as_u64(), 0x1234);
    assert_eq!(address.bytes(), 2);
    let bits = |start: u8, end: u8| {
        Address { base: vec![], slice_start: start, slice_end: end }.bytes()
    };
    assert_eq!(bits(0, 0), 0);
    assert_eq!(bits(0, 1), 1);
    assert_eq!(bits(0, 8), 1);
    assert_eq!(bits(0, 9), 2);
    assert_eq!(bits(3, 10), 1);
    assert_eq!(bits(0, 255), 32);
    assert_eq!(Address { base: vec![], slice_start: 0, slice_end: 0 }.as_u64(), 0);
    assert_eq!(
        Address { base: vec![0xFF; 8], slice_start: 0, slice_end: 0 }.as_u64(),
        u64::MAX
    );
    assert_eq!(address.clone(), address);
}

#[test]
fn bytes_and_their_numbers() {
    assert_eq!(be_to_u64(&[]), 0);
    assert_eq!(be_to_u64(&[1, 0]), 256);
    assert_eq!(u128_to_be(0), vec![0]);
    assert_eq!(u128_to_be(255), vec![255]);
    assert_eq!(u128_to_be(256), vec![1, 0]);
    assert_eq!(u128_to_be(0x0102_0304), vec![1, 2, 3, 4]);
    assert_eq!(left_pad(vec![1], 3, 0), vec![0, 0, 1]);
    assert_eq!(left_pad(vec![1, 2, 3], 2, 0), vec![1, 2, 3]);
    assert_eq!(to_hex(vec![]), "");
    assert_eq!(to_hex(vec![0x0a, 0xB5]), "0x0AB5");
}

#[test]
fn merging_under_a_mask() {
    assert_eq!(merge_masked(&[0b101], &[0b100], &[0xA5]), vec![0xA4]);
    assert_eq!(merge_masked(&[0xFF, 0x00], &[0x12, 0x34], &[0xAB, 0xCD]), vec![0x12, 0xCD]);
    assert_eq!(merge_masked(&[0xFF, 0x00], &[0x12, 0x34], &[]), Vec::<u8>::new());
    assert_eq!(merge_masked(&[0x0F], &[0x12, 0x34], &[0xAB, 0xCD]), vec![0xA2]);
}

#[test]
fn texts() {
    assert_eq!(chars_of("aäz"), vec!['a', 'ä', 'z']);
    assert_eq!(string_of(&['a', 'b', 'c'], 1, 3), "bc");
    assert!(same_text("map", "map"));
    assert!(!same_text("map", "maps"));
    assert!(!same_text("map", "mat"));
    assert_eq!(decimal(0), "0");
    assert_eq!(decimal(1234567890), "1234567890");
    assert_eq!(decimal(u64::MAX), "18446744073709551615");
    assert_eq!(parse_decimal("0012"), Some(12));
    assert_eq!(parse_decimal("+12"), Some(12));
    assert_eq!(parse_decimal("18446744073709551615"), Some(u64::MAX));
    assert_eq!(parse_decimal("18446744073709551616"), None);
    assert_eq!(parse_decimal(""), None);
    assert_eq!(parse_decimal("+"), None);
    assert_eq!(parse_decimal("1.5"), None);
    assert_eq!(parse_decimal("-1"), None);
    assert_eq!(trim_bounds(&chars_of("  a b \n")), (2, 5));
    assert_eq!(trim_bounds(&chars_of("   ")), (3, 3));
}

#[test]
fn file_opener_remembers_the_path() {
    let mut opener = FileOpener::new();
    assert_eq!(opener.path(), None);
    opener.set_path(PathBuf::from("conf/sensor.yml"));
    assert_eq!(opener.path(), Some(&PathBuf::from("conf/sensor.yml")));
    assert!(!bool_false());
}

#[test]
fn bounds_of_what_is_kept() {
    assert_eq!(kept_bounds(&[]), (0, 0));
    assert_eq!(kept_bounds(&[false]), (0, 1));
    assert_eq!(kept_bounds(&[true]), (1, 1));
    assert_eq!(kept_bounds(&[true, true, true]), (3, 3));
    assert_eq!(kept_bounds(&[true, false, true, false, true, true]), (1, 4));
    assert_eq!(kept_bounds(&[false, true, false]), (0, 3));
}

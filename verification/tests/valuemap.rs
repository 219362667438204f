use ctrl::error::Error;
use ctrl::keywords::KeywordTable;
use ctrl::parse_num::ParseError;
use ctrl::value::Value;
use ctrl::value_table::ValueTable;
use ctrl::valuemap::{convert_keys, deser_valuemap, key_of_config, parse_u64, MapEntry, ValueMap};

fn fixed_map() -> ValueMap {
    let mut table = ValueTable::new();
    table.insert(Value::Value(vec![0x01]), 10u64);
    table.insert(Value::Value(vec![0x02]), 20u64);
    ValueMap::Fixed(table)
}

fn keyword_map() -> ValueMap {
    let mut table = KeywordTable::new();
    table.insert(Value::Value(vec![0x00]), "off".to_owned());
    table.insert(Value::Any, "custom".to_owned());
    ValueMap::Keywords(table)
}

fn entry(key: &str, value: &str, float: Option<&str>) -> MapEntry {
    MapEntry { key: key.to_owned(), value: value.to_owned(), float: float.map(|f| f.to_owned()) }
}

#[test]
fn fixed_map_round_trip() {
    let map = fixed_map();
    assert_eq!(map.lookup(vec![0x01]), Ok("10".to_owned()));
    assert_eq!(map.lookup(vec![0x02]), Ok("20".to_owned()));
    assert_eq!(map.lookup(vec![0x03]), Err(Error::UnknownValue));
    assert_eq!(map.encode("20".to_owned()), Ok(vec![0x02]));
    assert_eq!(map.encode("0x14".to_owned()), Ok(vec![0x02]));
    assert_eq!(map.encode("5".to_owned()), Err(Error::UnknownValue));
    assert_eq!(map.encode("-20".to_owned()), Err(Error::UnknownValue));
    assert_eq!(
        map.encode("x".to_owned()),
        Err(Error::Parse(ParseError::InvalidRadix))
    );
}

#[test]
fn keyword_map_with_wildcard() {
    let map = keyword_map();
    assert_eq!(map.lookup(vec![0x00]), Ok("off".to_owned()));
    assert_eq!(map.lookup(vec![0x42]), Ok("custom".to_owned()));
    assert_eq!(map.encode("off".to_owned()), Ok(vec![0x00]));
    let fresh = map.encode("custom".to_owned()).unwrap();
    assert_ne!(fresh, vec![0x00]);
    assert_eq!(fresh, vec![0x01]);
    assert_eq!(map.encode("on".to_owned()), Err(Error::UnknownKey));
}

#[test]
fn fresh_value_skips_keys() {
    let mut table = ValueTable::new();
    table.insert(Value::Any, 7u64);
    for n in 1..=255u8 {
        table.insert(Value::Value(vec![n]), n as u64 + 100);
    }
    let map = ValueMap::Fixed(table);
    assert_eq!(map.fresh_value(), vec![1, 0]);
    assert_eq!(map.encode("7".to_owned()), Ok(vec![1, 0]));
    assert_eq!(map.encode_entry(0), Ok(vec![1, 0]));
    assert_eq!(map.encode_entry(1), Ok(vec![1]));
    assert_eq!(map.encode_entry(256), Err(Error::NoEntries));
}

#[test]
fn keyword_table_is_one_to_one() {
    let mut table = KeywordTable::new();
    table.insert(Value::Value(vec![1]), "a".to_owned());
    table.insert(Value::Value(vec![2]), "b".to_owned());
    assert_eq!(table.len(), 2);
    table.insert(Value::Value(vec![1]), "b".to_owned());
    assert_eq!(table.len(), 1);
    assert_eq!(table.word_of(&Value::Value(vec![1])), Some(&"b".to_owned()));
    assert_eq!(table.word_of(&Value::Value(vec![2])), None);
    assert_eq!(table.key_of(&"a".to_owned()), None);
    assert_eq!(table.key_of(&"b".to_owned()), Some(Value::Value(vec![1])));
    assert_eq!(table.count(), 1);
    assert_eq!(table.key_at(0), &Value::Value(vec![1]));
    table.insert(Value::Value(vec![3]), "c".to_owned());
    table.insert(Value::Value(vec![2]), "d".to_owned());
    table.insert(Value::Value(vec![4]), "c".to_owned());
    assert_eq!(table.count(), 3);
    assert_eq!(table.key_at(0), &Value::Value(vec![1]));
    assert_eq!(table.key_at(1), &Value::Value(vec![2]));
    assert_eq!(table.key_at(2), &Value::Value(vec![4]));
    assert_eq!(table.len(), 3);
}

#[test]
fn floating_map_shows_its_numbers() {
    let mut table = ValueTable::new();
    table.insert(Value::Value(vec![1]), "0.5".to_owned());
    table.insert(Value::Any, "1.5".to_owned());
    let map = ValueMap::Floating(table);
    assert_eq!(map.lookup(vec![1]), Ok("0.5".to_owned()));
    assert_eq!(map.lookup(vec![9]), Ok("1.5".to_owned()));
    assert_eq!(
        map.encode("0.5".to_owned()),
        Err(Error::Unsupported("encode".to_owned(), "Floating".to_owned()))
    );
    assert_eq!(map.encode_entry(0), Ok(vec![1]));
    assert_eq!(map.encode_entry(1), Ok(vec![2]));
}

#[test]
fn literals_in_the_range_of_u64() {
    assert_eq!(parse_u64("0"), Ok(0));
    assert_eq!(parse_u64("255"), Ok(255));
    assert_eq!(parse_u64("0xffffffffffffffff"), Ok(u64::MAX));
    assert_eq!(parse_u64("0x10000000000000000"), Err(Error::UnknownValue));
    assert_eq!(parse_u64("-1"), Err(Error::UnknownValue));
    assert_eq!(
        parse_u64("12a"),
        Err(Error::Parse(ParseError::InvalidDigit('a', 10)))
    );
}

#[test]
fn configured_keys() {
    assert_eq!(key_of_config("_"), Ok(Value::Any));
    assert_eq!(key_of_config(" _\t"), Ok(Value::Any));
    assert_eq!(key_of_config("0x12"), Ok(Value::Value(vec![0x12])));
    assert_eq!(key_of_config("on"), Err(ParseError::InvalidRadix));
    let numeric = vec![entry("1", "a", None), entry("_", "b", None)];
    assert_eq!(convert_keys(&numeric), vec![Value::Value(vec![1]), Value::Any]);
    let names = vec![entry("1", "a", None), entry("on", "b", None)];
    assert_eq!(
        convert_keys(&names),
        vec![Value::Value(b"1".to_vec()), Value::Value(b"on".to_vec())]
    );
}

#[test]
fn configured_maps() {
    let fixed = deser_valuemap(vec![entry("1", "10", Some("10")), entry("0x2", "20", Some("20"))]);
    assert!(matches!(fixed, ValueMap::Fixed(_)));
    assert_eq!(fixed.lookup(vec![2]), Ok("20".to_owned()));
    let floating = deser_valuemap(vec![entry("1", "1.50", Some("1.5")), entry("2", "2", Some("2"))]);
    assert!(matches!(floating, ValueMap::Floating(_)));
    assert_eq!(floating.lookup(vec![1]), Ok("1.5".to_owned()));
    let keywords = deser_valuemap(vec![entry("0", "off", None), entry("_", "1.5", Some("1.5"))]);
    assert!(matches!(keywords, ValueMap::Keywords(_)));
    assert_eq!(keywords.lookup(vec![0]), Ok("off".to_owned()));
    assert_eq!(keywords.lookup(vec![7]), Ok("1.5".to_owned()));
    let empty = deser_valuemap(vec![]);
    assert!(matches!(empty, ValueMap::Fixed(_)));
    let later = deser_valuemap(vec![entry("1", "10", None), entry("0x1", "30", None)]);
    assert_eq!(later.lookup(vec![1]), Ok("30".to_owned()));
}

#[test]
fn values_as_text() {
    assert_eq!(Value::Value(vec![0x0a, 0xff]).to_string(), "0x0AFF");
    assert_eq!(Value::Value(vec![]).to_string(), "0x");
    assert_eq!(Value::Any.to_string(), "Any");
    assert_eq!(Value::from_str("Any"), Ok(Value::Any));
    assert_eq!(Value::from_str("any"), Ok(Value::Any));
    assert_eq!(Value::from_str("0x0aff"), Ok(Value::Value(vec![0x0a, 0xff])));
    assert_eq!(Value::from_str("ANY"), Err(ParseError::InvalidRadix));
}

#[test]
fn keyword_table_holds_many() {
    let mut table = KeywordTable::new();
    for n in 0..2000u32 {
        table.insert(Value::Value(n.to_be_bytes().to_vec()), format!("word{}", n));
    }
    assert_eq!(table.len(), 2000);
    assert_eq!(table.count(), 2000);
    for n in 0..2000u32 {
        let key = Value::Value(n.to_be_bytes().to_vec());
        assert_eq!(table.word_of(&key), Some(&format!("word{}", n)));
        assert_eq!(table.key_of(&format!("word{}", n)), Some(key));
        assert_eq!(table.key_at(n as usize), &Value::Value(n.to_be_bytes().to_vec()));
    }
    for n in 0..1000u32 {
        table.insert(Value::Value(n.to_be_bytes().to_vec()), format!("word{}", n + 1000));
    }
    assert_eq!(table.len(), 1000);
    assert_eq!(table.count(), 1000);
    assert_eq!(table.word_of(&Value::Value(1500u32.to_be_bytes().to_vec())), None);
    assert_eq!(
        table.key_of(&"word1500".to_owned()),
        Some(Value::Value(500u32.to_be_bytes().to_vec()))
    );
    assert_eq!(table.key_of(&"word500".to_owned()), None);
}

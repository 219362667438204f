use ctrl::address::Address;
use ctrl::error::Error;

#[test]
fn basic_address_test() {
    assert_eq!(
        Address::parse(&"0x1234[1]".to_string(), 2),
        Ok(Address {
            base: vec![0x12, 0x34],
            slice_start: 1,
            slice_end: 2,
        })
    );
    assert_eq!(
        Address::parse(&"0x1234[:1]".to_string(), 2),
        Ok(Address {
            base: vec![0x12, 0x34],
            slice_start: 0,
            slice_end: 1
        })
    );
    assert_eq!(
        Address::parse(&"0x1234[1:]".to_string(), 2),
        Ok(Address {
            base: vec![0x12, 0x34],
            slice_start: 1,
            slice_end: 16
        })
    );
    assert_eq!(
        Address::parse(&"0x1234[1:3]".to_string(), 2),
        Ok(Address {
            base: vec![0x12, 0x34],
            slice_start: 1,
            slice_end: 3,
        })
    );
    assert_eq!(
        Address::parse(&"0x1234[0x1:0xa]".to_string(), 2),
        Ok(Address {
            base: vec![0x12, 0x34],
            slice_start: 1,
            slice_end: 10
        })
    );
}

#[test]
fn bad_addresses() {
    for text in ["", "[1]", "0x12[", "0x12[]", "0x12]", "0x12[1]x", "0x12[[1]]", "0x12[3:1]", "0x12[255]", "0x12[1:2:3]"] {
        assert_eq!(Address::parse(text, 1), Err(Error::BadAddress(text.to_owned())), "{}", text);
    }
}

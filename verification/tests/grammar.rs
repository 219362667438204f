use ctrl::address::{split_address, AddressText, SliceText};
use regex::Regex;

fn by_pattern(pattern: &Regex, text: &str) -> Option<AddressText> {
    let captures = pattern.captures(text)?;
    let part = |i: usize| captures.get(i).map(|m| m.as_str().to_owned());
    let slice = match (part(5), part(2)) {
        (Some(bit), _) => SliceText::Single(bit),
        (None, Some(_)) => SliceText::Range(part(3), part(4)),
        (None, None) => SliceText::Whole,
    };
    Some(AddressText { base: part(1).unwrap(), slice })
}

#[test]
fn addresses_split_as_the_pattern_splits_them() {
    let pattern =
        Regex::new(r#"^([^\[\]]+)(\[(?:([^\[\]]+)?:([^\[\]]+)?|([^:\[\]]+))\])?$"#).unwrap();
    let pieces = ["", "a", "0x12", "[", "]", ":", "1", "z", "\n", " ", "[1]", "[:]", "[1:2]", "é"];
    let mut count = 0;
    for a in pieces {
        for b in pieces {
            for c in pieces {
                for d in pieces {
                    let text = format!("{}{}{}{}", a, b, c, d);
                    assert_eq!(split_address(&text), by_pattern(&pattern, &text), "{:?}", text);
                    count += 1;
                }
            }
        }
    }
    assert_eq!(count, 14 * 14 * 14 * 14);
}

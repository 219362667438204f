use ctrl::address::Address;
use ctrl::channel::{CommChannel, ReadPlan, Transfer, WritePlan};
use ctrl::error::Error;
use ctrl::function::{complete_read, complete_write, decode, Function};
use ctrl::fuseable::{Either, Fuseable, Reading, Writing};
use ctrl::keywords::KeywordTable;
use ctrl::masks::merge_masked;
use ctrl::named_map::NamedMap;
use ctrl::parse_num::ParseError;
use ctrl::register::{by_string_option_num, Description, Range, Register};
use ctrl::sensor::Sensor;
use ctrl::setting::{FunctionConfig, RegisterSetting};
use ctrl::value::Value;
use ctrl::value_table::ValueTable;
use ctrl::valuemap::ValueMap;

fn i2c(mock: bool) -> CommChannel {
    CommChannel::I2cCdev { bus: 1, address: 0x10, mock }
}

fn gain() -> Register {
    Register::from_config(
        "0x3060[0:8]",
        Some(1),
        None,
        Some(Range::MinMax { min: -1, max: 7 }),
        Some(3),
        Some(Description::LongAndShort { long: "analog gain".to_owned(), short: "gain".to_owned() }),
    )
    .unwrap()
}

fn switch_map() -> ValueMap {
    let mut table = KeywordTable::new();
    table.insert(Value::Value(vec![0x00]), "off".to_owned());
    table.insert(Value::Value(vec![0x01]), "on".to_owned());
    ValueMap::Keywords(table)
}

fn configs() -> Vec<FunctionConfig> {
    vec![
        FunctionConfig {
            name: "power".to_owned(),
            addr: "gain[1]".to_owned(),
            desc: Some(Description::Simple("power switch".to_owned())),
            map: Some(switch_map()),
            writable: true,
            default: None,
        },
        FunctionConfig {
            name: "raw".to_owned(),
            addr: "0x3061[0:16]".to_owned(),
            desc: None,
            map: None,
            writable: false,
            default: Some(0),
        },
    ]
}

fn setting(channel: CommChannel) -> RegisterSetting {
    let mut map = NamedMap::new();
    map.insert("gain".to_owned(), gain());
    RegisterSetting::new(channel, map, configs()).unwrap()
}

fn sensor(channel: CommChannel) -> Sensor {
    let mut registers = NamedMap::new();
    registers.insert("main".to_owned(), setting(channel));
    Sensor::new("cam".to_owned(), registers)
}

fn below(start: &[&'static str], rest: &[&'static str]) -> Vec<&'static str> {
    let mut path = start.to_vec();
    path.extend_from_slice(rest);
    path
}

fn entries(reading: Result<Reading, Error>) -> Vec<String> {
    match reading {
        Ok(Reading::Entries(names)) => names,
        _ => panic!("no directory"),
    }
}

fn contents(reading: Result<Reading, Error>) -> String {
    match reading {
        Ok(Reading::Contents(text)) => text,
        _ => panic!("no file"),
    }
}

fn failure(reading: Result<Reading, Error>) -> Error {
    match reading {
        Err(e) => e,
        Ok(_) => panic!("no error"),
    }
}

#[test]
fn sensor_tree_is_listed() {
    let cam = sensor(i2c(false));
    assert_eq!(entries(cam.read(&[])), vec!["model", "registers"]);
    assert_eq!(contents(cam.read(&["model"])), "cam");
    assert_eq!(entries(cam.read(&["registers"])), vec!["main"]);
    assert_eq!(entries(cam.read(&["registers", "main"])), vec!["channel", "map", "functions"]);
    assert_eq!(entries(cam.read(&["registers", "main", "map"])), vec!["gain"]);
    assert_eq!(
        entries(cam.read(&["registers", "main", "map", "gain"])),
        vec!["address", "width", "mask", "range", "default", "description", "value"]
    );
    assert_eq!(entries(cam.read(&["registers", "main", "functions"])), vec!["power", "raw"]);
    assert_eq!(
        entries(cam.read(&["registers", "main", "functions", "power"])),
        vec!["addr", "desc", "map", "writable", "default", "value"]
    );
    assert_eq!(
        entries(cam.read(&["registers", "main", "channel"])),
        vec!["bus", "address", "mock"]
    );
}

#[test]
fn configuration_is_read_as_files() {
    let cam = sensor(i2c(false));
    let at = |rest: &[&'static str]| below(&["registers", "main", "map", "gain"], rest);
    assert_eq!(entries(cam.read(&at(&["address"]))), vec!["base", "slice_start", "slice_end"]);
    assert_eq!(contents(cam.read(&at(&["address", "base"]))), "0x3060");
    assert_eq!(contents(cam.read(&at(&["address", "slice_start"]))), "0");
    assert_eq!(contents(cam.read(&at(&["address", "slice_end"]))), "8");
    assert_eq!(contents(cam.read(&at(&["width"]))), "1");
    assert_eq!(contents(cam.read(&at(&["mask"]))), "None");
    assert_eq!(entries(cam.read(&at(&["range"]))), vec!["min", "max"]);
    assert_eq!(contents(cam.read(&at(&["range", "min"]))), "-1");
    assert_eq!(contents(cam.read(&at(&["range", "max"]))), "7");
    assert_eq!(contents(cam.read(&at(&["default"]))), "3");
    assert_eq!(entries(cam.read(&at(&["description"]))), vec!["long", "short"]);
    assert_eq!(contents(cam.read(&at(&["description", "short"]))), "gain");
    let under = |rest: &[&'static str]| below(&["registers", "main", "functions", "power"], rest);
    assert_eq!(contents(cam.read(&under(&["desc"]))), "power switch");
    assert_eq!(contents(cam.read(&under(&["writable"]))), "true");
    assert_eq!(contents(cam.read(&under(&["default"]))), "None");
    assert_eq!(contents(cam.read(&under(&["addr", "base"]))), "0x3060");
    assert_eq!(contents(cam.read(&under(&["addr", "slice_start"]))), "1");
    assert_eq!(contents(cam.read(&under(&["addr", "slice_end"]))), "2");
    assert_eq!(entries(cam.read(&under(&["map"]))), vec!["0x00", "0x01"]);
    assert_eq!(contents(cam.read(&under(&["map", "0x01"]))), "on");
    assert_eq!(contents(cam.read(&["registers", "main", "channel", "bus"])), "1");
    assert_eq!(contents(cam.read(&["registers", "main", "channel", "address"])), "16");
    assert_eq!(contents(cam.read(&["registers", "main", "channel", "mock"])), "false");
}

#[test]
fn directories_and_files_are_told_apart() {
    let cam = sensor(i2c(false));
    assert_eq!(cam.is_dir(&[]), Ok(true));
    assert_eq!(cam.is_dir(&["model"]), Ok(false));
    assert_eq!(cam.is_dir(&["registers", "main", "map", "gain"]), Ok(true));
    assert_eq!(cam.is_dir(&["registers", "main", "map", "gain", "value"]), Ok(false));
    assert_eq!(cam.is_dir(&["registers", "main", "map", "gain", "width"]), Ok(false));
    assert_eq!(cam.is_dir(&["registers", "main", "map", "gain", "range"]), Ok(true));
    assert_eq!(cam.is_dir(&["registers", "main", "functions", "power", "value"]), Ok(false));
    assert_eq!(cam.is_dir(&["registers", "main", "channel"]), Ok(true));
    assert_eq!(
        cam.is_dir(&["registers", "main", "map", "iso", "value"]),
        Err(Error::NotFound("iso".to_owned()))
    );
    assert_eq!(cam.is_dir(&["nothing"]), Err(Error::NotFound("nothing".to_owned())));
    assert_eq!(
        cam.is_dir(&["model", "x"]),
        Err(Error::NotADirectory("String".to_owned(), "x".to_owned()))
    );
}

#[test]
fn missing_entries_are_reported() {
    let cam = sensor(i2c(false));
    assert_eq!(failure(cam.read(&["registers", "side"])), Error::NotFound("side".to_owned()));
    assert_eq!(
        failure(cam.read(&["registers", "main", "map", "iso"])),
        Error::NotFound("iso".to_owned())
    );
    assert_eq!(
        failure(cam.read(&["registers", "main", "map", "iso", "value"])),
        Error::NotFound("iso".to_owned())
    );
    assert_eq!(
        failure(cam.read(&["registers", "main", "map", "gain", "value", "x"])),
        Error::NotADirectory("Register".to_owned(), "x".to_owned())
    );
    assert_eq!(
        failure(cam.read(&["registers", "main", "map", "gain", "width", "x"])),
        Error::NotADirectory("u8".to_owned(), "x".to_owned())
    );
    assert_eq!(
        failure(cam.read(&["registers", "main", "other"])),
        Error::NotFound("other".to_owned())
    );
}

#[test]
fn register_value_is_read_from_the_device() {
    let cam = sensor(i2c(false));
    let path = ["registers", "main", "map", "gain", "value"];
    match cam.read(&path) {
        Ok(Reading::Device(transfer, map)) => {
            assert_eq!(
                transfer,
                Transfer::I2cRead { bus: 1, address: 0x10, pointer: vec![0x30, 0x60], count: 1 }
            );
            assert!(map.is_none());
            assert_eq!(decode(map, vec![0xA5]), Ok("0xA5".to_owned()));
        }
        _ => panic!("no transfer"),
    }
    assert_eq!(contents(complete_read(cam.read(&path).unwrap(), vec![0xA5])), "0xA5");
    assert_eq!(contents(complete_read(cam.read(&["model"]).unwrap(), vec![0xA5])), "cam");
    let mocked = sensor(i2c(true));
    assert_eq!(contents(mocked.read(&path)), "");
}

#[test]
fn function_value_is_read_through_its_map() {
    let cam = sensor(i2c(false));
    let path = ["registers", "main", "functions", "power", "value"];
    match cam.read(&path) {
        Ok(Reading::Device(transfer, map)) => {
            assert_eq!(
                transfer,
                Transfer::I2cRead { bus: 1, address: 0x10, pointer: vec![0x30, 0x60], count: 1 }
            );
            assert_eq!(decode(map, vec![0x01]), Ok("on".to_owned()));
            assert_eq!(decode(map, vec![0x07]), Err(Error::UnknownValue));
        }
        _ => panic!("no transfer"),
    }
    let mocked = sensor(i2c(true));
    assert_eq!(failure(mocked.read(&path)), Error::UnknownValue);
    let raw = ["registers", "main", "functions", "raw", "value"];
    assert_eq!(contents(mocked.read(&raw)), "");
}

#[test]
fn masked_write_keeps_the_bits_outside_the_mask() {
    let cam = sensor(i2c(false));
    let path = ["registers", "main", "map", "gain", "value"];
    match cam.write(&path, b"0b1z0".to_vec()) {
        Ok(Writing::Masked { read, channel, address, mask, value }) => {
            assert_eq!(
                read,
                Transfer::I2cRead { bus: 1, address: 0x10, pointer: vec![0x30, 0x60], count: 1 }
            );
            assert_eq!(mask, vec![0b101]);
            assert_eq!(value, vec![0b100]);
            let merged = merge_masked(&mask, &value, &[0xA5]);
            assert_eq!(merged, vec![0xA4]);
            assert_eq!(
                channel.write_value(&address, merged),
                Ok(WritePlan::Transfer(Transfer::I2cWrite {
                    bus: 1,
                    address: 0x10,
                    pointer: vec![0x30, 0x60],
                    payload: vec![0xA4],
                }))
            );
            let written = Transfer::I2cWrite {
                bus: 1,
                address: 0x10,
                pointer: vec![0x30, 0x60],
                payload: vec![0xA4],
            };
            assert_eq!(
                complete_write(Writing::Masked { read, channel, address, mask, value }, vec![0xA5]),
                Ok(Writing::Device(written))
            );
        }
        other => panic!("no masked write: {:?}", other),
    }
}

#[test]
fn plain_write_is_padded_to_the_width() {
    let mut map = NamedMap::new();
    map.insert(
        "wide".to_owned(),
        Register::from_config("0x10", Some(2), None, None, None, None).unwrap(),
    );
    map.insert(
        "loose".to_owned(),
        Register::from_config("0x12[0:8]", None, None, None, None, None).unwrap(),
    );
    let device = RegisterSetting::new(i2c(false), map, vec![]).unwrap();
    assert_eq!(
        device.write(&["map", "wide", "value"], b"0x7".to_vec()),
        Ok(Writing::Device(Transfer::I2cWrite {
            bus: 1,
            address: 0x10,
            pointer: vec![0x10],
            payload: vec![0x00, 0x07],
        }))
    );
    assert_eq!(
        device.write(&["map", "wide", "value"], b"0x123456".to_vec()),
        Err(Error::OverlongValue)
    );
    assert_eq!(
        device.write(&["map", "wide", "value"], b"12z".to_vec()),
        Err(Error::Parse(ParseError::InvalidMaskRadix))
    );
    assert_eq!(
        device.write(&["map", "wide", "value"], b"0xg".to_vec()),
        Err(Error::Parse(ParseError::InvalidDigit('g', 16)))
    );
    assert_eq!(
        device.write(&["map", "wide", "value"], b"0x".to_vec()),
        Err(Error::Parse(ParseError::NoDigits))
    );
    assert_eq!(
        device.write(&["map", "wide", "value"], b"x".to_vec()),
        Err(Error::Parse(ParseError::InvalidRadix))
    );
    assert_eq!(device.write(&["map", "loose", "value"], b"1".to_vec()), Err(Error::MissingWidth));
    assert_eq!(
        failure(device.read(&["map", "loose", "value"])),
        Error::MissingWidth
    );
    assert_eq!(
        device.write(&["map", "wide", "value", "x"], b"1".to_vec()),
        Err(Error::NotADirectory("Register".to_owned(), "x".to_owned()))
    );
}

#[test]
fn function_write_goes_through_its_map() {
    let cam = sensor(i2c(false));
    let power = ["registers", "main", "functions", "power", "value"];
    assert_eq!(
        cam.write(&power, b"on".to_vec()),
        Ok(Writing::Device(Transfer::I2cWrite {
            bus: 1,
            address: 0x10,
            pointer: vec![0x30, 0x60],
            payload: vec![0x01],
        }))
    );
    assert_eq!(cam.write(&power, b"dim".to_vec()), Err(Error::UnknownKey));
    assert_eq!(cam.write(&power, vec![0xFF, 0xFE]), Err(Error::InvalidText));
    let raw = ["registers", "main", "functions", "raw", "value"];
    assert_eq!(
        cam.write(&raw, vec![0xFF, 0xFE]),
        Ok(Writing::Device(Transfer::I2cWrite {
            bus: 1,
            address: 0x10,
            pointer: vec![0x30, 0x61],
            payload: vec![0xFF, 0xFE],
        }))
    );
}

#[test]
fn configuration_cannot_be_written() {
    let cam = sensor(i2c(false));
    assert_eq!(
        cam.write(&[], vec![]),
        Err(Error::Unsupported("write".to_owned(), "Sensor".to_owned()))
    );
    assert_eq!(cam.write(&["model"], vec![]), Err(Error::ReadOnly));
    assert_eq!(
        cam.write(&["registers"], vec![]),
        Err(Error::Unsupported("write".to_owned(), "NamedMap".to_owned()))
    );
    assert_eq!(
        cam.write(&["registers", "main"], vec![]),
        Err(Error::Unsupported("write".to_owned(), "RegisterSetting".to_owned()))
    );
    assert_eq!(
        cam.write(&["registers", "main", "channel", "bus"], vec![]),
        Err(Error::Unsupported("write".to_owned(), "CommChannel".to_owned()))
    );
    assert_eq!(
        cam.write(&["registers", "main", "map", "gain"], vec![]),
        Err(Error::Unsupported("write".to_owned(), "Register".to_owned()))
    );
    assert_eq!(
        cam.write(&["registers", "main", "map", "gain", "width"], vec![]),
        Err(Error::ReadOnly)
    );
    assert_eq!(
        cam.write(&["registers", "main", "functions", "power", "addr"], vec![]),
        Err(Error::ReadOnly)
    );
    assert_eq!(
        cam.write(&["registers", "main", "functions", "power", "map"], vec![]),
        Err(Error::Unsupported("write".to_owned(), "ValueMap".to_owned()))
    );
    assert_eq!(
        cam.write(&["registers", "main", "map", "iso", "value"], vec![]),
        Err(Error::NotFound("iso".to_owned()))
    );
}

#[test]
fn mocked_channels_touch_nothing() {
    let mut cam = sensor(i2c(false));
    cam.mocked(true);
    assert_eq!(contents(cam.read(&["registers", "main", "channel", "mock"])), "true");
    let gain = ["registers", "main", "map", "gain", "value"];
    assert_eq!(cam.write(&gain, b"0x7".to_vec()), Ok(Writing::Done));
    assert_eq!(cam.write(&gain, b"0b1z0".to_vec()), Ok(Writing::Done));
    assert_eq!(cam.write(&gain, b"0x777".to_vec()), Err(Error::OverlongValue));
    cam.mocked(false);
    assert_eq!(contents(cam.read(&["registers", "main", "channel", "mock"])), "false");
    assert!(matches!(cam.write(&gain, b"0x7".to_vec()), Ok(Writing::Device(_))));
    assert_eq!(entries(cam.read(&["registers"])), vec!["main"]);
}

#[test]
fn channels_plan_their_transfers() {
    let address = Address { base: vec![0x01, 0x00], slice_start: 0, slice_end: 12 };
    let bus = i2c(false);
    assert_eq!(
        bus.read_value(&address),
        Ok(ReadPlan::Transfer(Transfer::I2cRead {
            bus: 1,
            address: 0x10,
            pointer: vec![0x01, 0x00],
            count: 2,
        }))
    );
    let mut memory = CommChannel::MmapGpio { base: 0x4000_0000, len: 0x102, mock: false };
    assert_eq!(
        memory.read_value(&address),
        Ok(ReadPlan::Transfer(Transfer::MemRead {
            base: 0x4000_0000,
            len: 0x102,
            offset: 0x100,
            count: 2,
        }))
    );
    assert_eq!(
        memory.write_value(&address, vec![1, 2]),
        Ok(WritePlan::Transfer(Transfer::MemWrite {
            base: 0x4000_0000,
            len: 0x102,
            offset: 0x100,
            payload: vec![1, 2],
        }))
    );
    assert_eq!(memory.write_value(&address, vec![1, 2, 3]), Err(Error::ChannelIo));
    let beyond = Address { base: vec![0x01, 0x01], slice_start: 0, slice_end: 16 };
    assert_eq!(memory.read_value(&beyond), Err(Error::ChannelIo));
    let long = Address { base: vec![1, 0, 0, 0, 0, 0, 0, 0, 0], slice_start: 0, slice_end: 8 };
    assert_eq!(memory.read_value(&long), Err(Error::ChannelIo));
    assert!(!memory.get_mock_mode());
    memory.mock_mode(true);
    assert!(memory.get_mock_mode());
    assert_eq!(memory.read_value(&beyond), Ok(ReadPlan::Mocked(vec![])));
    assert_eq!(memory.write_value(&beyond, vec![1]), Ok(WritePlan::Mocked));
    assert_eq!(
        entries(memory.read(&[])),
        vec!["base", "len", "mock"]
    );
    assert_eq!(contents(memory.read(&["base"])), "1073741824");
}

#[test]
fn function_addresses_are_resolved_among_the_registers() {
    let device = setting(i2c(false));
    let power = device.functions().get("power").unwrap();
    assert_eq!(
        power.addr(),
        &Address { base: vec![0x30, 0x60], slice_start: 1, slice_end: 2 }
    );
    let raw = device.functions().get("raw").unwrap();
    assert_eq!(raw.addr(), &Address { base: vec![0x30, 0x61], slice_start: 0, slice_end: 16 });
    let mut map = NamedMap::new();
    map.insert("gain".to_owned(), gain());
    let whole = Address::parse_named("gain", &map).unwrap();
    assert_eq!(whole, Address { base: vec![0x30, 0x60], slice_start: 0, slice_end: 8 });
    let open = Address::parse_named("gain[2:]", &map).unwrap();
    assert_eq!(open, Address { base: vec![0x30, 0x60], slice_start: 2, slice_end: 8 });
    let upto = Address::parse_named("gain[:4]", &map).unwrap();
    assert_eq!(upto, Address { base: vec![0x30, 0x60], slice_start: 0, slice_end: 4 });
    let unknown = Address::parse_named("iso[1:3]", &map).unwrap();
    assert_eq!(unknown, Address { base: b"iso".to_vec(), slice_start: 1, slice_end: 3 });
    assert_eq!(
        Address::parse_named("iso", &map),
        Err(Error::BadAddress("iso".to_owned()))
    );
    let bad = vec![FunctionConfig {
        name: "broken".to_owned(),
        addr: "gain[".to_owned(),
        desc: None,
        map: None,
        writable: false,
        default: None,
    }];
    assert!(matches!(
        RegisterSetting::new(i2c(false), map, bad),
        Err(Error::BadAddress(text)) if text == "gain["
    ));
}

#[test]
fn later_functions_replace_earlier_ones_of_the_same_name() {
    let mut map = NamedMap::new();
    map.insert("gain".to_owned(), gain());
    let twice = vec![
        FunctionConfig {
            name: "a".to_owned(),
            addr: "0x1[0:8]".to_owned(),
            desc: None,
            map: None,
            writable: false,
            default: None,
        },
        FunctionConfig {
            name: "b".to_owned(),
            addr: "0x2[0:8]".to_owned(),
            desc: None,
            map: None,
            writable: false,
            default: None,
        },
        FunctionConfig {
            name: "a".to_owned(),
            addr: "0x3[0:8]".to_owned(),
            desc: None,
            map: None,
            writable: true,
            default: None,
        },
    ];
    let device = RegisterSetting::new(i2c(false), map, twice).unwrap();
    assert_eq!(device.functions().keys(), vec!["a", "b"]);
    assert_eq!(device.functions().len(), 2);
    assert_eq!(device.functions().name_at(1), "b");
    assert_eq!(device.functions().position("b"), Some(1));
    assert_eq!(device.functions().position("c"), None);
    assert_eq!(device.functions().value_at(1).addr().base, vec![2]);
    assert_eq!(device.functions().get("a").unwrap().addr().base, vec![3]);
    assert_eq!(contents(device.read(&["functions", "a", "writable"])), "true");
}

#[test]
fn floating_function_is_written_by_entry() {
    let mut table = ValueTable::new();
    table.insert(Value::Value(vec![0x10]), "0.5".to_owned());
    table.insert(Value::Any, "2".to_owned());
    let address = Address { base: vec![0x20], slice_start: 0, slice_end: 8 };
    let function = Function::new(address, None, Some(ValueMap::Floating(table)), true, None);
    let channel = i2c(false);
    assert_eq!(
        function.write_value(&[], b"0.4".to_vec(), &channel),
        Err(Error::Unsupported("encode".to_owned(), "Floating".to_owned()))
    );
    assert_eq!(
        function.write_entry(0, &channel),
        Ok(Writing::Device(Transfer::I2cWrite {
            bus: 1,
            address: 0x10,
            pointer: vec![0x20],
            payload: vec![0x10],
        }))
    );
    assert_eq!(
        function.write_entry(1, &channel),
        Ok(Writing::Device(Transfer::I2cWrite {
            bus: 1,
            address: 0x10,
            pointer: vec![0x20],
            payload: vec![0x01],
        }))
    );
    assert_eq!(function.write_entry(2, &channel), Err(Error::NoEntries));
}

#[test]
fn readings_without_transfer_are_entries_or_contents() {
    let cam = sensor(i2c(false));
    assert_eq!(
        cam.read(&["model"]).ok().and_then(|r| r.done()),
        Some(Either::Right("cam".to_owned()))
    );
    assert_eq!(
        cam.read(&["registers"]).ok().and_then(|r| r.done()),
        Some(Either::Left(vec!["main".to_owned()]))
    );
    assert_eq!(
        cam.read(&["registers", "main", "map", "gain", "value"]).ok().and_then(|r| r.done()),
        None
    );
}

#[test]
fn configured_numbers() {
    assert_eq!(by_string_option_num(None), Ok(None));
    assert_eq!(by_string_option_num(Some("12")), Ok(Some(12)));
    assert_eq!(by_string_option_num(Some("0x10")), Ok(Some(16)));
    assert_eq!(by_string_option_num(Some("0o17")), Ok(Some(15)));
    assert_eq!(by_string_option_num(Some("0b101")), Ok(Some(5)));
    assert_eq!(by_string_option_num(Some("0x+f")), Ok(Some(15)));
    assert_eq!(by_string_option_num(Some("18446744073709551615")), Ok(Some(u64::MAX)));
    assert_eq!(by_string_option_num(Some("18446744073709551616")), Err(Error::ConfigParse));
    assert_eq!(by_string_option_num(Some("-1")), Err(Error::ConfigParse));
    assert_eq!(by_string_option_num(Some("0x")), Err(Error::ConfigParse));
    assert_eq!(by_string_option_num(Some("ten")), Err(Error::ConfigParse));
    assert_eq!(by_string_option_num(Some("1_0")), Err(Error::ConfigParse));
}

//! Registers: addressable fields of a device.

use vstd::prelude::*;
use crate::address::{parse_address_spec, Address};
use crate::bytes::{hex_text, left_pad, left_padded, to_hex};
use crate::channel::{CommChannel, ReadPlan, ReadPlanView, WritePlan, WritePlanView};
use crate::error::{Error, ErrorView};
use crate::fuseable::{
    entries_of, is_dir_of_leaf, leaf_is_dir, leaf_read, leaf_write, names_view, path_view,
    read_of_leaf, reading_result, rest_of, write_of_leaf, writing_result, Fuseable, Reading,
    ReadingView, Writing, WritingView,
};
use crate::parse_num::{get_negative_radix_start, literal_head, parse_num_mask, parse_num_mask_spec};
use crate::text::{
    chars_of, parse_unsigned, same_text, text_of_bytes_lossy, unsigned_of, utf8_lossy,
};

verus! {

/// The values that a register may hold.
#[derive(Debug, Clone, Copy, PartialEq, Eq)]
pub enum Range {
    MinMax { min: i64, max: i64 },
}

/// What a register or a function is for.
#[derive(Debug, PartialEq, Eq)]
pub enum Description {
    Simple(String),
    LongAndShort { long: String, short: String },
}

impl Clone for Description {
    fn clone(&self) -> (r: Self)
        ensures
            r == *self,
    {
        match self {
            Description::Simple(text) => Description::Simple(text.clone()),
            Description::LongAndShort { long, short } => Description::LongAndShort {
                long: long.clone(),
                short: short.clone(),
            },
        }
    }
}

/// An addressable field of a device. The channel to the device is not part
/// of it: whoever holds the register holds the channel.
#[derive(Debug, PartialEq, Eq)]
pub struct Register {
    pub(crate) address: Address,
    pub(crate) width: Option<u8>,
    pub(crate) mask: Option<String>,
    pub(crate) range: Option<Range>,
    pub(crate) default: Option<u64>,
    pub(crate) description: Option<Description>,
}

impl Clone for Register {
    fn clone(&self) -> (r: Self)
        ensures
            r.spec_address()@ == self.spec_address()@,
            r.spec_width() == self.spec_width(),
            r.spec_mask() == self.spec_mask(),
            r.spec_range() == self.spec_range(),
            r.spec_default() == self.spec_default(),
            r.spec_description() == self.spec_description(),
    {
        proof {
            use_type_invariant(self);
        }
        let mask = match &self.mask {
            Some(text) => Some(text.clone()),
            None => None,
        };
        let description = match &self.description {
            Some(d) => Some(d.clone()),
            None => None,
        };
        Register {
            address: self.address.clone(),
            width: self.width,
            mask,
            range: self.range,
            default: self.default,
            description,
        }
    }
}

impl Fuseable for Address {
    open spec fn is_dir_spec(&self, path: Seq<Seq<char>>) -> Result<bool, ErrorView> {
        if path.len() == 0 {
            Ok(true)
        } else if path[0] == "base"@ {
            leaf_is_dir("Vec"@, path.skip(1))
        } else if path[0] == "slice_start"@ {
            self.slice_start.is_dir_spec(path.skip(1))
        } else if path[0] == "slice_end"@ {
            self.slice_end.is_dir_spec(path.skip(1))
        } else {
            Err(ErrorView::NotFound(path[0]))
        }
    }

    open spec fn read_spec(&self, path: Seq<Seq<char>>) -> Result<ReadingView, ErrorView> {
        if path.len() == 0 {
            Ok(ReadingView::Entries(seq!["base"@, "slice_start"@, "slice_end"@]))
        } else if path[0] == "base"@ {
            leaf_read("Vec"@, hex_text(self.base@), path.skip(1))
        } else if path[0] == "slice_start"@ {
            self.slice_start.read_spec(path.skip(1))
        } else if path[0] == "slice_end"@ {
            self.slice_end.read_spec(path.skip(1))
        } else {
            Err(ErrorView::NotFound(path[0]))
        }
    }

    open spec fn write_spec(&self, path: Seq<Seq<char>>, value: Seq<u8>) -> Result<
        WritingView,
        ErrorView,
    > {
        if path.len() == 0 {
            Err(ErrorView::Unsupported("write"@, "Address"@))
        } else if path[0] == "base"@ {
            leaf_write("Vec"@, path.skip(1))
        } else if path[0] == "slice_start"@ {
            self.slice_start.write_spec(path.skip(1), value)
        } else if path[0] == "slice_end"@ {
            self.slice_end.write_spec(path.skip(1), value)
        } else {
            Err(ErrorView::NotFound(path[0]))
        }
    }

    fn is_dir(&self, path: &[&str]) -> (r: Result<bool, Error>) {
        if path.len() == 0 {
            return Ok(true);
        }
        let rest = rest_of(path);
        if same_text(path[0], "base") {
            is_dir_of_leaf("Vec", rest)
        } else if same_text(path[0], "slice_start") {
            self.slice_start.is_dir(rest)
        } else if same_text(path[0], "slice_end") {
            self.slice_end.is_dir(rest)
        } else {
            Err(Error::NotFound(path[0].to_owned()))
        }
    }

    fn read<'a>(&'a self, path: &[&str]) -> (r: Result<Reading<'a>, Error>) {
        if path.len() == 0 {
            let names = entries_of(&["base", "slice_start", "slice_end"]);
            assert(names_view(names@) =~= seq!["base"@, "slice_start"@, "slice_end"@]);
            return Ok(Reading::Entries(names));
        }
        let rest = rest_of(path);
        if same_text(path[0], "base") {
            read_of_leaf("Vec", to_hex(self.base.clone()), rest)
        } else if same_text(path[0], "slice_start") {
            self.slice_start.read(rest)
        } else if same_text(path[0], "slice_end") {
            self.slice_end.read(rest)
        } else {
            Err(Error::NotFound(path[0].to_owned()))
        }
    }

    fn write(&self, path: &[&str], value: Vec<u8>) -> (r: Result<Writing, Error>) {
        if path.len() == 0 {
            return Err(Error::Unsupported("write".to_owned(), "Address".to_owned()));
        }
        let rest = rest_of(path);
        if same_text(path[0], "base") {
            write_of_leaf("Vec", rest)
        } else if same_text(path[0], "slice_start") {
            self.slice_start.write(rest, value)
        } else if same_text(path[0], "slice_end") {
            self.slice_end.write(rest, value)
        } else {
            Err(Error::NotFound(path[0].to_owned()))
        }
    }
}

impl Fuseable for Range {
    open spec fn is_dir_spec(&self, path: Seq<Seq<char>>) -> Result<bool, ErrorView> {
        match self {
            Range::MinMax { min, max } => if path.len() == 0 {
                Ok(true)
            } else if path[0] == "min"@ {
                min.is_dir_spec(path.skip(1))
            } else if path[0] == "max"@ {
                max.is_dir_spec(path.skip(1))
            } else {
                Err(ErrorView::NotFound(path[0]))
            },
        }
    }

    open spec fn read_spec(&self, path: Seq<Seq<char>>) -> Result<ReadingView, ErrorView> {
        match self {
            Range::MinMax { min, max } => if path.len() == 0 {
                Ok(ReadingView::Entries(seq!["min"@, "max"@]))
            } else if path[0] == "min"@ {
                min.read_spec(path.skip(1))
            } else if path[0] == "max"@ {
                max.read_spec(path.skip(1))
            } else {
                Err(ErrorView::NotFound(path[0]))
            },
        }
    }

    open spec fn write_spec(&self, path: Seq<Seq<char>>, value: Seq<u8>) -> Result<
        WritingView,
        ErrorView,
    > {
        Err(ErrorView::Unsupported("write"@, "Range"@))
    }

    fn is_dir(&self, path: &[&str]) -> (r: Result<bool, Error>) {
        match self {
            Range::MinMax { min, max } => {
                if path.len() == 0 {
                    return Ok(true);
                }
                let rest = rest_of(path);
                if same_text(path[0], "min") {
                    min.is_dir(rest)
                } else if same_text(path[0], "max") {
                    max.is_dir(rest)
                } else {
                    Err(Error::NotFound(path[0].to_owned()))
                }
            },
        }
    }

    fn read<'a>(&'a self, path: &[&str]) -> (r: Result<Reading<'a>, Error>) {
        match self {
            Range::MinMax { min, max } => {
                if path.len() == 0 {
                    let names = entries_of(&["min", "max"]);
                    assert(names_view(names@) =~= seq!["min"@, "max"@]);
                    return Ok(Reading::Entries(names));
                }
                let rest = rest_of(path);
                if same_text(path[0], "min") {
                    min.read(rest)
                } else if same_text(path[0], "max") {
                    max.read(rest)
                } else {
                    Err(Error::NotFound(path[0].to_owned()))
                }
            },
        }
    }

    fn write(&self, path: &[&str], value: Vec<u8>) -> (r: Result<Writing, Error>) {
        Err(Error::Unsupported("write".to_owned(), "Range".to_owned()))
    }
}

impl Fuseable for Description {
    open spec fn is_dir_spec(&self, path: Seq<Seq<char>>) -> Result<bool, ErrorView> {
        match self {
            Description::Simple(text) => text.is_dir_spec(path),
            Description::LongAndShort { long, short } => if path.len() == 0 {
                Ok(true)
            } else if path[0] == "long"@ {
                long.is_dir_spec(path.skip(1))
            } else if path[0] == "short"@ {
                short.is_dir_spec(path.skip(1))
            } else {
                Err(ErrorView::NotFound(path[0]))
            },
        }
    }

    open spec fn read_spec(&self, path: Seq<Seq<char>>) -> Result<ReadingView, ErrorView> {
        match self {
            Description::Simple(text) => text.read_spec(path),
            Description::LongAndShort { long, short } => if path.len() == 0 {
                Ok(ReadingView::Entries(seq!["long"@, "short"@]))
            } else if path[0] == "long"@ {
                long.read_spec(path.skip(1))
            } else if path[0] == "short"@ {
                short.read_spec(path.skip(1))
            } else {
                Err(ErrorView::NotFound(path[0]))
            },
        }
    }

    open spec fn write_spec(&self, path: Seq<Seq<char>>, value: Seq<u8>) -> Result<
        WritingView,
        ErrorView,
    > {
        Err(ErrorView::Unsupported("write"@, "Description"@))
    }

    fn is_dir(&self, path: &[&str]) -> (r: Result<bool, Error>) {
        match self {
            Description::Simple(text) => text.is_dir(path),
            Description::LongAndShort { long, short } => {
                if path.len() == 0 {
                    return Ok(true);
                }
                let rest = rest_of(path);
                if same_text(path[0], "long") {
                    long.is_dir(rest)
                } else if same_text(path[0], "short") {
                    short.is_dir(rest)
                } else {
                    Err(Error::NotFound(path[0].to_owned()))
                }
            },
        }
    }

    fn read<'a>(&'a self, path: &[&str]) -> (r: Result<Reading<'a>, Error>) {
        match self {
            Description::Simple(text) => text.read(path),
            Description::LongAndShort { long, short } => {
                if path.len() == 0 {
                    let names = entries_of(&["long", "short"]);
                    assert(names_view(names@) =~= seq!["long"@, "short"@]);
                    return Ok(Reading::Entries(names));
                }
                let rest = rest_of(path);
                if same_text(path[0], "long") {
                    long.read(rest)
                } else if same_text(path[0], "short") {
                    short.read(rest)
                } else {
                    Err(Error::NotFound(path[0].to_owned()))
                }
            },
        }
    }

    fn write(&self, path: &[&str], value: Vec<u8>) -> (r: Result<Writing, Error>) {
        Err(Error::Unsupported("write".to_owned(), "Description".to_owned()))
    }
}

/// The number that a configured text names: digits after an optional
/// radix prefix, without a sign before the prefix.
pub open spec fn default_number(s: Seq<char>) -> Option<u64> {
    if s.len() > 0 && s[0] == '-' {
        None
    } else {
        match literal_head(s) {
            Ok((_, radix, start)) => unsigned_of(s.skip(start as int), radix as nat),
            Err(_) => None,
        }
    }
}

/// Reads a number that the configuration holds as text, where there is
/// one.
pub fn by_string_option_num(text: Option<&str>) -> (r: Result<Option<u64>, Error>)
    ensures
        match text {
            None => r == Ok::<Option<u64>, Error>(None),
            Some(s) => match default_number(s@) {
                Some(n) => r == Ok::<Option<u64>, Error>(Some(n)),
                None => r matches Err(e) && e@ == ErrorView::ConfigParse,
            },
        },
{
    let s = match text {
        Some(s) => s,
        None => {
            return Ok(None);
        },
    };
    let chars = chars_of(s);
    if chars.len() > 0 && chars[0] == '-' {
        return Err(Error::ConfigParse);
    }
    let (radix, start) = match get_negative_radix_start(chars.as_slice()) {
        Ok((_, radix, start)) => (radix, start),
        Err(_) => {
            return Err(Error::ConfigParse);
        },
    };
    let digits = vstd::slice::slice_subrange(chars.as_slice(), start, chars.len());
    assert(digits@ =~= s@.skip(start as int));
    match parse_unsigned(digits, radix) {
        Some(n) => Ok(Some(n)),
        None => Err(Error::ConfigParse),
    }
}

/// The names of the fields of a register that are held in the
/// configuration.
pub open spec fn register_fields() -> Seq<Seq<char>> {
    seq!["address"@, "width"@, "mask"@, "range"@, "default"@, "description"@]
}

/// Whether `name` is a field of a register that is held in the
/// configuration.
pub open spec fn is_register_field(name: Seq<char>) -> bool {
    name == "address"@ || name == "width"@ || name == "mask"@ || name == "range"@ || name
        == "default"@ || name == "description"@
}

impl Register {
    #[verifier::type_invariant]
    spec fn inv(&self) -> bool {
        self.address.wf()
    }

    /// The address of the register.
    pub closed spec fn spec_address(&self) -> Address {
        self.address
    }

    /// The width of the register in bytes.
    pub closed spec fn spec_width(&self) -> Option<u8> {
        self.width
    }

    /// The mask of the register.
    pub closed spec fn spec_mask(&self) -> Option<String> {
        self.mask
    }

    /// The values that the register may hold.
    pub closed spec fn spec_range(&self) -> Option<Range> {
        self.range
    }

    /// The value that the register has when nothing was written.
    pub closed spec fn spec_default(&self) -> Option<u64> {
        self.default
    }

    /// What the register is for.
    pub closed spec fn spec_description(&self) -> Option<Description> {
        self.description
    }

    /// The field of the register that `name` names, as a node of the tree.
    pub open spec fn field_is_dir(&self, name: Seq<char>, rest: Seq<Seq<char>>) -> Result<
        bool,
        ErrorView,
    > {
        if name == "address"@ {
            self.spec_address().is_dir_spec(rest)
        } else if name == "width"@ {
            self.spec_width().is_dir_spec(rest)
        } else if name == "mask"@ {
            self.spec_mask().is_dir_spec(rest)
        } else if name == "range"@ {
            self.spec_range().is_dir_spec(rest)
        } else if name == "default"@ {
            self.spec_default().is_dir_spec(rest)
        } else {
            self.spec_description().is_dir_spec(rest)
        }
    }

    /// What is read in the field of the register that `name` names.
    pub open spec fn field_read(&self, name: Seq<char>, rest: Seq<Seq<char>>) -> Result<
        ReadingView,
        ErrorView,
    > {
        if name == "address"@ {
            self.spec_address().read_spec(rest)
        } else if name == "width"@ {
            self.spec_width().read_spec(rest)
        } else if name == "mask"@ {
            self.spec_mask().read_spec(rest)
        } else if name == "range"@ {
            self.spec_range().read_spec(rest)
        } else if name == "default"@ {
            self.spec_default().read_spec(rest)
        } else {
            self.spec_description().read_spec(rest)
        }
    }

    /// A register at `address`.
    pub fn new(
        address: Address,
        width: Option<u8>,
        mask: Option<String>,
        range: Option<Range>,
        default: Option<u64>,
        description: Option<Description>,
    ) -> (r: Self)
        requires
            address.wf(),
        ensures
            r.spec_address() == address,
            r.spec_width() == width,
            r.spec_mask() == mask,
            r.spec_range() == range,
            r.spec_default() == default,
            r.spec_description() == description,
    {
        Register { address, width, mask, range, default, description }
    }

    /// A register as it is configured: its address is read from text, with
    /// the width of the register as the width of its value.
    pub fn from_config(
        address: &str,
        width: Option<u8>,
        mask: Option<String>,
        range: Option<Range>,
        default: Option<u64>,
        description: Option<Description>,
    ) -> (r: Result<Self, Error>)
        ensures
            match parse_address_spec(address@, None, width) {
                Some(parsed) => r matches Ok(register) && register.spec_address()@ == parsed
                    && register.spec_width() == width && register.spec_mask() == mask
                    && register.spec_range() == range && register.spec_default() == default
                    && register.spec_description() == description,
                None => r matches Err(e) && e@ == ErrorView::BadAddress(address@),
            },
    {
        match Address::parse_with(address, width) {
            Ok(parsed) => Ok(Register::new(parsed, width, mask, range, default, description)),
            Err(e) => Err(e),
        }
    }

    /// The address of the register.
    pub fn address(&self) -> (r: &Address)
        ensures
            *r == self.spec_address(),
            r.wf(),
    {
        proof {
            use_type_invariant(self);
        }
        &self.address
    }

    /// The width of the register in bytes.
    #[verifier::when_used_as_spec(spec_width)]
    pub fn width(&self) -> (r: Option<u8>)
        ensures
            r == self.spec_width(),
    {
        self.width
    }

    /// What reading the value of the register through `channel` comes to:
    /// the bytes in hexadecimal digits, once they are fetched.
    pub open spec fn read_value_spec(&self, path: Seq<Seq<char>>, channel: CommChannel) -> Result<
        ReadingView,
        ErrorView,
    > {
        if path.len() > 0 {
            Err(ErrorView::NotADirectory("Register"@, path[0]))
        } else if self.spec_width() is None {
            Err(ErrorView::MissingWidth)
        } else {
            match channel.read_plan(self.spec_address()@) {
                Ok(ReadPlanView::Mocked(bytes)) => Ok(ReadingView::Contents(hex_text(bytes))),
                Ok(ReadPlanView::Transfer(transfer)) => Ok(ReadingView::Device(transfer, None)),
                Err(e) => Err(e),
            }
        }
    }

    /// What writing the literal `text` into the register through `channel`
    /// comes to. The value is padded on the left with zero bytes to the
    /// width of the register, and so is the mask of a masked literal.
    pub open spec fn write_text_spec(&self, text: Seq<char>, channel: CommChannel) -> Result<
        WritingView,
        ErrorView,
    > {
        match self.spec_width() {
            None => Err(ErrorView::MissingWidth),
            Some(width) => match parse_num_mask_spec(text) {
                Err(e) => Err(ErrorView::Parse(e)),
                Ok((mask, value)) => if value.len() > width {
                    Err(ErrorView::OverlongValue)
                } else {
                    let value = left_padded(value, width as nat, 0);
                    match mask {
                        None => match channel.write_plan(self.spec_address()@, value) {
                            Ok(WritePlanView::Mocked) => Ok(WritingView::Done),
                            Ok(WritePlanView::Transfer(transfer)) => Ok(
                                WritingView::Device(transfer),
                            ),
                            Err(e) => Err(e),
                        },
                        Some(mask) => match channel.read_plan(self.spec_address()@) {
                            Ok(ReadPlanView::Mocked(_)) => Ok(WritingView::Done),
                            Ok(ReadPlanView::Transfer(read)) => Ok(
                                WritingView::Masked {
                                    read,
                                    channel,
                                    address: self.spec_address()@,
                                    mask: left_padded(mask, width as nat, 0),
                                    value,
                                },
                            ),
                            Err(e) => Err(e),
                        },
                    }
                },
            },
        }
    }

    /// What writing `value` into the register through `channel` comes to:
    /// the bytes are taken as the text of a literal.
    pub open spec fn write_value_spec(
        &self,
        path: Seq<Seq<char>>,
        value: Seq<u8>,
        channel: CommChannel,
    ) -> Result<WritingView, ErrorView> {
        if path.len() > 0 {
            Err(ErrorView::NotADirectory("Register"@, path[0]))
        } else {
            self.write_text_spec(utf8_lossy(value), channel)
        }
    }

    /// Reads the value of the register through `channel`.
    pub fn read_value(&self, path: &[&str], channel: &CommChannel) -> (r: Result<
        Reading<'static>,
        Error,
    >)
        ensures
            reading_result(r) == self.read_value_spec(path_view(path@), *channel),
    {
        proof {
            use_type_invariant(self);
        }
        if path.len() > 0 {
            return Err(Error::NotADirectory("Register".to_owned(), path[0].to_owned()));
        }
        if self.width.is_none() {
            return Err(Error::MissingWidth);
        }
        match channel.read_value(&self.address) {
            Ok(ReadPlan::Mocked(bytes)) => Ok(Reading::Contents(to_hex(bytes))),
            Ok(ReadPlan::Transfer(transfer)) => Ok(Reading::Device(transfer, None)),
            Err(e) => Err(e),
        }
    }

    /// Writes the literal `text` into the register through `channel`.
    pub fn write_text(&self, text: &str, channel: &CommChannel) -> (r: Result<Writing, Error>)
        ensures
            writing_result(r) == self.write_text_spec(text@, *channel),
    {
        proof {
            use_type_invariant(self);
        }
        let width = match self.width {
            Some(width) => width as usize,
            None => {
                return Err(Error::MissingWidth);
            },
        };
        let (mask, value) = match parse_num_mask(text) {
            Ok(parsed) => parsed,
            Err(e) => {
                return Err(Error::Parse(e));
            },
        };
        if value.len() > width {
            return Err(Error::OverlongValue);
        }
        let value = left_pad(value, width, 0);
        match mask {
            None => match channel.write_value(&self.address, value) {
                Ok(WritePlan::Mocked) => Ok(Writing::Done),
                Ok(WritePlan::Transfer(transfer)) => Ok(Writing::Device(transfer)),
                Err(e) => Err(e),
            },
            Some(mask) => match channel.read_value(&self.address) {
                Ok(ReadPlan::Mocked(_)) => Ok(Writing::Done),
                Ok(ReadPlan::Transfer(read)) => Ok(
                    Writing::Masked {
                        read,
                        channel: *channel,
                        address: self.address.clone(),
                        mask: left_pad(mask, width, 0),
                        value,
                    },
                ),
                Err(e) => Err(e),
            },
        }
    }

    /// Writes `value`, the text of a literal, into the register through
    /// `channel`.
    pub fn write_value(&self, path: &[&str], value: Vec<u8>, channel: &CommChannel) -> (r: Result<
        Writing,
        Error,
    >)
        ensures
            writing_result(r) == self.write_value_spec(path_view(path@), value@, *channel),
    {
        if path.len() > 0 {
            return Err(Error::NotADirectory("Register".to_owned(), path[0].to_owned()));
        }
        let text = text_of_bytes_lossy(value.as_slice());
        self.write_text(text.as_str(), channel)
    }
}

impl Fuseable for Register {
    open spec fn is_dir_spec(&self, path: Seq<Seq<char>>) -> Result<bool, ErrorView> {
        if path.len() == 0 {
            Ok(true)
        } else if is_register_field(path[0]) {
            self.field_is_dir(path[0], path.skip(1))
        } else {
            Err(ErrorView::NotFound(path[0]))
        }
    }

    open spec fn read_spec(&self, path: Seq<Seq<char>>) -> Result<ReadingView, ErrorView> {
        if path.len() == 0 {
            Ok(ReadingView::Entries(register_fields()))
        } else if is_register_field(path[0]) {
            self.field_read(path[0], path.skip(1))
        } else {
            Err(ErrorView::NotFound(path[0]))
        }
    }

    open spec fn write_spec(&self, path: Seq<Seq<char>>, value: Seq<u8>) -> Result<
        WritingView,
        ErrorView,
    > {
        if path.len() == 0 {
            Err(ErrorView::Unsupported("write"@, "Register"@))
        } else if is_register_field(path[0]) {
            Err(ErrorView::ReadOnly)
        } else {
            Err(ErrorView::NotFound(path[0]))
        }
    }

    fn is_dir(&self, path: &[&str]) -> (r: Result<bool, Error>) {
        if path.len() == 0 {
            return Ok(true);
        }
        let rest = rest_of(path);
        if same_text(path[0], "address") {
            self.address.is_dir(rest)
        } else if same_text(path[0], "width") {
            self.width.is_dir(rest)
        } else if same_text(path[0], "mask") {
            self.mask.is_dir(rest)
        } else if same_text(path[0], "range") {
            self.range.is_dir(rest)
        } else if same_text(path[0], "default") {
            self.default.is_dir(rest)
        } else if same_text(path[0], "description") {
            self.description.is_dir(rest)
        } else {
            Err(Error::NotFound(path[0].to_owned()))
        }
    }

    fn read<'a>(&'a self, path: &[&str]) -> (r: Result<Reading<'a>, Error>) {
        if path.len() == 0 {
            let names = entries_of(
                &["address", "width", "mask", "range", "default", "description"],
            );
            assert(names_view(names@) =~= register_fields());
            return Ok(Reading::Entries(names));
        }
        let rest = rest_of(path);
        if same_text(path[0], "address") {
            self.address.read(rest)
        } else if same_text(path[0], "width") {
            self.width.read(rest)
        } else if same_text(path[0], "mask") {
            self.mask.read(rest)
        } else if same_text(path[0], "range") {
            self.range.read(rest)
        } else if same_text(path[0], "default") {
            self.default.read(rest)
        } else if same_text(path[0], "description") {
            self.description.read(rest)
        } else {
            Err(Error::NotFound(path[0].to_owned()))
        }
    }

    fn write(&self, path: &[&str], value: Vec<u8>) -> (r: Result<Writing, Error>) {
        if path.len() == 0 {
            return Err(Error::Unsupported("write".to_owned(), "Register".to_owned()));
        }
        if same_text(path[0], "address") || same_text(path[0], "width") || same_text(
            path[0],
            "mask",
        ) || same_text(path[0], "range") || same_text(path[0], "default") || same_text(
            path[0],
            "description",
        ) {
            Err(Error::ReadOnly)
        } else {
            Err(Error::NotFound(path[0].to_owned()))
        }
    }
}

} // verus!

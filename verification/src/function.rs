//! Functions: named fields of a device that are laid over its registers,
//! often with a value map that gives words or numbers to their bytes.

use vstd::prelude::*;
use vstd::utf8::{decode_utf8, valid_utf8};
use crate::address::{Address, AddressView};
use crate::bytes::{hex_text, to_hex};
use crate::channel::{CommChannel, ReadPlan, ReadPlanView, WritePlan, WritePlanView};
use crate::error::{text_result, Error, ErrorView};
use crate::fuseable::{
    entries_of, names_view, path_view, reading_result, rest_of, writing_result, Fuseable,
    Reading, ReadingView, Writing, WritingView,
};
use crate::register::Description;
use crate::text::{same_text, text_of_bytes};
use crate::valuemap::ValueMap;

verus! {

/// A named field of a device.
#[derive(Debug)]
pub struct Function {
    pub(crate) addr: Address,
    pub(crate) desc: Option<Description>,
    pub(crate) map: Option<ValueMap>,
    pub(crate) writable: bool,
    pub(crate) default: Option<u64>,
}

/// The contents that the bytes `bytes` are shown as: what the value map
/// makes of them, or hexadecimal digits where there is no map.
pub open spec fn decode_spec(map: Option<ValueMap>, bytes: Seq<u8>) -> Result<Seq<char>, ErrorView> {
    match map {
        Some(m) => m.lookup_spec(bytes),
        None => Ok(hex_text(bytes)),
    }
}

/// The bytes that a write of `value` puts on the device: what the value map
/// makes of the text that `value` spells, or `value` itself where there is
/// no map.
pub open spec fn encode_spec(map: Option<ValueMap>, value: Seq<u8>) -> Result<Seq<u8>, ErrorView> {
    match map {
        Some(m) => if valid_utf8(value) {
            m.encode_spec(decode_utf8(value))
        } else {
            Err(ErrorView::InvalidText)
        },
        None => Ok(value),
    }
}

/// Shows bytes that were read from a device: through the value map, or in
/// hexadecimal digits where there is none.
pub fn decode(map: Option<&ValueMap>, bytes: Vec<u8>) -> (r: Result<String, Error>)
    ensures
        text_result(r) == decode_spec(
            match map {
                Some(m) => Some(*m),
                None => None,
            },
            bytes@,
        ),
{
    match map {
        Some(m) => m.lookup(bytes),
        None => Ok(to_hex(bytes)),
    }
}

/// What a masked write comes to once the bytes `current` were read: the
/// merged bytes are written to `address` through `channel`.
pub open spec fn complete_masked_spec(
    channel: CommChannel,
    address: AddressView,
    mask: Seq<u8>,
    value: Seq<u8>,
    current: Seq<u8>,
) -> Result<WritingView, ErrorView> {
    match channel.write_plan(address, crate::masks::merged(mask, value, current)) {
        Ok(WritePlanView::Mocked) => Ok(WritingView::Done),
        Ok(WritePlanView::Transfer(transfer)) => Ok(WritingView::Device(transfer)),
        Err(e) => Err(e),
    }
}

/// What a write comes to once the bytes `current` were read from the
/// device: a masked write becomes the write of the merged bytes, every
/// other write stays what it is.
pub open spec fn complete_write_spec(writing: WritingView, current: Seq<u8>) -> Result<
    WritingView,
    ErrorView,
> {
    match writing {
        WritingView::Masked { read, channel, address, mask, value } => complete_masked_spec(
            channel,
            address,
            mask,
            value,
            current,
        ),
        other => Ok(other),
    }
}

/// Goes on with a write after the bytes `current` were read from the
/// device.
pub fn complete_write(writing: Writing, current: Vec<u8>) -> (r: Result<Writing, Error>)
    ensures
        writing_result(r) == complete_write_spec(writing@, current@),
{
    match writing {
        Writing::Masked { read, channel, address, mask, value } => {
            let merged = crate::masks::merge_masked(
                mask.as_slice(),
                value.as_slice(),
                current.as_slice(),
            );
            match channel.write_value(&address, merged) {
                Ok(WritePlan::Mocked) => Ok(Writing::Done),
                Ok(WritePlan::Transfer(transfer)) => Ok(Writing::Device(transfer)),
                Err(e) => Err(e),
            }
        },
        other => Ok(other),
    }
}

/// The contents that a reading comes to once the bytes `bytes` were read
/// from the device.
pub open spec fn complete_read_spec(reading: ReadingView, bytes: Seq<u8>) -> Result<
    ReadingView,
    ErrorView,
> {
    match reading {
        ReadingView::Device(_, map) => match decode_spec(map, bytes) {
            Ok(text) => Ok(ReadingView::Contents(text)),
            Err(e) => Err(e),
        },
        other => Ok(other),
    }
}

/// Goes on with a read after the bytes `bytes` were read from the device.
pub fn complete_read<'a>(reading: Reading<'a>, bytes: Vec<u8>) -> (r: Result<Reading<'a>, Error>)
    ensures
        reading_result(r) == complete_read_spec(reading@, bytes@),
{
    match reading {
        Reading::Device(_, map) => match decode(map, bytes) {
            Ok(text) => Ok(Reading::Contents(text)),
            Err(e) => Err(e),
        },
        other => Ok(other),
    }
}

/// The names of the fields of a function that are held in the
/// configuration.
pub open spec fn function_fields() -> Seq<Seq<char>> {
    seq!["addr"@, "desc"@, "map"@, "writable"@, "default"@]
}

impl Function {
    #[verifier::type_invariant]
    spec fn inv(&self) -> bool {
        self.addr.wf()
    }

    /// The address of the function.
    pub closed spec fn spec_addr(&self) -> Address {
        self.addr
    }

    /// What the function is for.
    pub closed spec fn spec_desc(&self) -> Option<Description> {
        self.desc
    }

    /// The value map of the function.
    pub closed spec fn spec_map(&self) -> Option<ValueMap> {
        self.map
    }

    /// Whether the function is meant to be written.
    pub closed spec fn spec_writable(&self) -> bool {
        self.writable
    }

    /// The value that the function has when nothing was written.
    pub closed spec fn spec_default(&self) -> Option<u64> {
        self.default
    }

    /// A function at `addr`.
    pub fn new(
        addr: Address,
        desc: Option<Description>,
        map: Option<ValueMap>,
        writable: bool,
        default: Option<u64>,
    ) -> (r: Self)
        requires
            addr.wf(),
        ensures
            r.spec_addr() == addr,
            r.spec_desc() == desc,
            r.spec_map() == map,
            r.spec_writable() == writable,
            r.spec_default() == default,
    {
        Function { addr, desc, map, writable, default }
    }

    /// The address of the function.
    pub fn addr(&self) -> (r: &Address)
        ensures
            *r == self.spec_addr(),
            r.wf(),
    {
        proof {
            use_type_invariant(self);
        }
        &self.addr
    }

    /// The value map of the function.
    pub fn map(&self) -> (r: Option<&ValueMap>)
        ensures
            match r {
                Some(m) => self.spec_map() == Some(*m),
                None => self.spec_map() is None,
            },
    {
        self.map.as_ref()
    }

    /// What reading the value of the function through `channel` comes to.
    pub open spec fn read_value_spec(&self, path: Seq<Seq<char>>, channel: CommChannel) -> Result<
        ReadingView,
        ErrorView,
    > {
        if path.len() > 0 {
            Err(ErrorView::NotADirectory("Function"@, path[0]))
        } else {
            match channel.read_plan(self.spec_addr()@) {
                Ok(ReadPlanView::Mocked(bytes)) => match decode_spec(self.spec_map(), bytes) {
                    Ok(text) => Ok(ReadingView::Contents(text)),
                    Err(e) => Err(e),
                },
                Ok(ReadPlanView::Transfer(transfer)) => Ok(
                    ReadingView::Device(transfer, self.spec_map()),
                ),
                Err(e) => Err(e),
            }
        }
    }

    /// What sending `bytes` to the function through `channel` comes to.
    pub open spec fn send_spec(&self, bytes: Seq<u8>, channel: CommChannel) -> Result<
        WritingView,
        ErrorView,
    > {
        match channel.write_plan(self.spec_addr()@, bytes) {
            Ok(WritePlanView::Mocked) => Ok(WritingView::Done),
            Ok(WritePlanView::Transfer(transfer)) => Ok(WritingView::Device(transfer)),
            Err(e) => Err(e),
        }
    }

    /// What writing `value` to the function through `channel` comes to.
    pub open spec fn write_value_spec(
        &self,
        path: Seq<Seq<char>>,
        value: Seq<u8>,
        channel: CommChannel,
    ) -> Result<WritingView, ErrorView> {
        if path.len() > 0 {
            Err(ErrorView::NotADirectory("Function"@, path[0]))
        } else {
            match encode_spec(self.spec_map(), value) {
                Ok(bytes) => self.send_spec(bytes, channel),
                Err(e) => Err(e),
            }
        }
    }

    /// What writing the entry at `index` of the value map to the function
    /// through `channel` comes to.
    pub open spec fn write_entry_spec(&self, index: usize, channel: CommChannel) -> Result<
        WritingView,
        ErrorView,
    > {
        match self.spec_map() {
            Some(m) => match m.encode_entry_spec(index) {
                Ok(bytes) => self.send_spec(bytes, channel),
                Err(e) => Err(e),
            },
            None => Err(ErrorView::NoEntries),
        }
    }

    /// Reads the value of the function through `channel`.
    pub fn read_value<'a>(&'a self, path: &[&str], channel: &CommChannel) -> (r: Result<
        Reading<'a>,
        Error,
    >)
        ensures
            reading_result(r) == self.read_value_spec(path_view(path@), *channel),
    {
        proof {
            use_type_invariant(self);
        }
        if path.len() > 0 {
            return Err(Error::NotADirectory("Function".to_owned(), path[0].to_owned()));
        }
        match channel.read_value(&self.addr) {
            Ok(ReadPlan::Mocked(bytes)) => match decode(self.map.as_ref(), bytes) {
                Ok(text) => Ok(Reading::Contents(text)),
                Err(e) => Err(e),
            },
            Ok(ReadPlan::Transfer(transfer)) => Ok(Reading::Device(transfer, self.map.as_ref())),
            Err(e) => Err(e),
        }
    }

    /// Sends `bytes` to the function through `channel`.
    fn send(&self, bytes: Vec<u8>, channel: &CommChannel) -> (r: Result<Writing, Error>)
        ensures
            writing_result(r) == self.send_spec(bytes@, *channel),
    {
        match channel.write_value(&self.addr, bytes) {
            Ok(WritePlan::Mocked) => Ok(Writing::Done),
            Ok(WritePlan::Transfer(transfer)) => Ok(Writing::Device(transfer)),
            Err(e) => Err(e),
        }
    }

    /// Writes `value` to the function through `channel`: the word or number
    /// that it spells where there is a value map, else the bytes as they
    /// are.
    pub fn write_value(&self, path: &[&str], value: Vec<u8>, channel: &CommChannel) -> (r: Result<
        Writing,
        Error,
    >)
        ensures
            writing_result(r) == self.write_value_spec(path_view(path@), value@, *channel),
    {
        if path.len() > 0 {
            return Err(Error::NotADirectory("Function".to_owned(), path[0].to_owned()));
        }
        let bytes = match &self.map {
            Some(map) => {
                let text = match text_of_bytes(value) {
                    Ok(text) => text,
                    Err(_) => {
                        return Err(Error::InvalidText);
                    },
                };
                match map.encode(text) {
                    Ok(bytes) => bytes,
                    Err(e) => {
                        return Err(e);
                    },
                }
            },
            None => value,
        };
        self.send(bytes, channel)
    }

    /// Writes the entry at `index` of the value map to the function through
    /// `channel`.
    pub fn write_entry(&self, index: usize, channel: &CommChannel) -> (r: Result<Writing, Error>)
        ensures
            writing_result(r) == self.write_entry_spec(index, *channel),
    {
        match &self.map {
            Some(map) => match map.encode_entry(index) {
                Ok(bytes) => self.send(bytes, channel),
                Err(e) => Err(e),
            },
            None => Err(Error::NoEntries),
        }
    }
}

impl Fuseable for Function {
    open spec fn is_dir_spec(&self, path: Seq<Seq<char>>) -> Result<bool, ErrorView> {
        if path.len() == 0 {
            Ok(true)
        } else if path[0] == "addr"@ {
            self.spec_addr().is_dir_spec(path.skip(1))
        } else if path[0] == "desc"@ {
            self.spec_desc().is_dir_spec(path.skip(1))
        } else if path[0] == "map"@ {
            self.spec_map().is_dir_spec(path.skip(1))
        } else if path[0] == "writable"@ {
            self.spec_writable().is_dir_spec(path.skip(1))
        } else if path[0] == "default"@ {
            self.spec_default().is_dir_spec(path.skip(1))
        } else {
            Err(ErrorView::NotFound(path[0]))
        }
    }

    open spec fn read_spec(&self, path: Seq<Seq<char>>) -> Result<ReadingView, ErrorView> {
        if path.len() == 0 {
            Ok(ReadingView::Entries(function_fields()))
        } else if path[0] == "addr"@ {
            self.spec_addr().read_spec(path.skip(1))
        } else if path[0] == "desc"@ {
            self.spec_desc().read_spec(path.skip(1))
        } else if path[0] == "map"@ {
            self.spec_map().read_spec(path.skip(1))
        } else if path[0] == "writable"@ {
            self.spec_writable().read_spec(path.skip(1))
        } else if path[0] == "default"@ {
            self.spec_default().read_spec(path.skip(1))
        } else {
            Err(ErrorView::NotFound(path[0]))
        }
    }

    open spec fn write_spec(&self, path: Seq<Seq<char>>, value: Seq<u8>) -> Result<
        WritingView,
        ErrorView,
    > {
        if path.len() == 0 {
            Err(ErrorView::Unsupported("write"@, "Function"@))
        } else if path[0] == "map"@ {
            self.spec_map().write_spec(path.skip(1), value)
        } else if path[0] == "addr"@ || path[0] == "desc"@ || path[0] == "writable"@ || path[0]
            == "default"@ {
            Err(ErrorView::ReadOnly)
        } else {
            Err(ErrorView::NotFound(path[0]))
        }
    }

    fn is_dir(&self, path: &[&str]) -> (r: Result<bool, Error>) {
        if path.len() == 0 {
            return Ok(true);
        }
        let rest = rest_of(path);
        if same_text(path[0], "addr") {
            self.addr.is_dir(rest)
        } else if same_text(path[0], "desc") {
            self.desc.is_dir(rest)
        } else if same_text(path[0], "map") {
            self.map.is_dir(rest)
        } else if same_text(path[0], "writable") {
            self.writable.is_dir(rest)
        } else if same_text(path[0], "default") {
            self.default.is_dir(rest)
        } else {
            Err(Error::NotFound(path[0].to_owned()))
        }
    }

    fn read<'a>(&'a self, path: &[&str]) -> (r: Result<Reading<'a>, Error>) {
        if path.len() == 0 {
            let names = entries_of(&["addr", "desc", "map", "writable", "default"]);
            assert(names_view(names@) =~= function_fields());
            return Ok(Reading::Entries(names));
        }
        let rest = rest_of(path);
        if same_text(path[0], "addr") {
            self.addr.read(rest)
        } else if same_text(path[0], "desc") {
            self.desc.read(rest)
        } else if same_text(path[0], "map") {
            self.map.read(rest)
        } else if same_text(path[0], "writable") {
            self.writable.read(rest)
        } else if same_text(path[0], "default") {
            self.default.read(rest)
        } else {
            Err(Error::NotFound(path[0].to_owned()))
        }
    }

    fn write(&self, path: &[&str], value: Vec<u8>) -> (r: Result<Writing, Error>) {
        if path.len() == 0 {
            return Err(Error::Unsupported("write".to_owned(), "Function".to_owned()));
        }
        let rest = rest_of(path);
        if same_text(path[0], "map") {
            self.map.write(rest, value)
        } else if same_text(path[0], "addr") || same_text(path[0], "desc") || same_text(
            path[0],
            "writable",
        ) || same_text(path[0], "default") {
            Err(Error::ReadOnly)
        } else {
            Err(Error::NotFound(path[0].to_owned()))
        }
    }
}

} // verus!

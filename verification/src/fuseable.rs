//! The tree of directories and files that the configured devices are shown
//! as.
//!
//! Every node answers three questions about a path below it: whether it
//! leads to a directory, what is read there, and what a write there comes
//! to. A file whose contents lie on a device is not read or written here:
//! the answer names the transfer that the caller has to make.

use vstd::prelude::*;
use vstd::slice::slice_subrange;
use crate::address::{Address, AddressView};
use crate::channel::{CommChannel, Transfer, TransferView};
use crate::digits::radix_digits;
use crate::error::{Error, ErrorView};
use crate::named_map::NamedMap;
use crate::text::{decimal, push_char};
use crate::valuemap::ValueMap;
use vstd::string::StringExecFns;

verus! {

/// One of two things.
#[derive(Debug, PartialEq, Eq)]
pub enum Either<A, B> {
    Left(A),
    Right(B),
}

impl<A: Clone, B: Clone> Clone for Either<A, B> {
    fn clone(&self) -> (r: Self) {
        match self {
            Either::Left(a) => Either::Left(a.clone()),
            Either::Right(b) => Either::Right(b.clone()),
        }
    }
}

/// What a read comes to.
#[derive(Debug)]
pub enum Reading<'a> {
    /// A directory: the names of its entries.
    Entries(Vec<String>),
    /// A file: its contents.
    Contents(String),
    /// A file on a device: the transfer that fetches its bytes, and the
    /// value map that turns the bytes into contents; without a map they are
    /// shown in hexadecimal digits.
    Device(Transfer, Option<&'a ValueMap>),
}

impl<'a> Reading<'a> {
    /// The reading as the entries of a directory or the contents of a file,
    /// where nothing is left to fetch from a device.
    pub fn done(self) -> (r: Option<Either<Vec<String>, String>>)
        ensures
            match self {
                Reading::Entries(names) => r == Some(Either::<Vec<String>, String>::Left(names)),
                Reading::Contents(text) => r == Some(Either::<Vec<String>, String>::Right(text)),
                Reading::Device(_, _) => r is None,
            },
    {
        match self {
            Reading::Entries(names) => Some(Either::Left(names)),
            Reading::Contents(text) => Some(Either::Right(text)),
            Reading::Device(_, _) => None,
        }
    }
}

/// A `Reading` with its texts as sequences of characters.
pub enum ReadingView {
    Entries(Seq<Seq<char>>),
    Contents(Seq<char>),
    Device(TransferView, Option<ValueMap>),
}

/// The names of a directory as sequences of characters.
pub open spec fn names_view(names: Seq<String>) -> Seq<Seq<char>> {
    Seq::new(names.len(), |i: int| names[i]@)
}

/// The segments of a path as sequences of characters.
pub open spec fn path_view(path: Seq<&str>) -> Seq<Seq<char>> {
    Seq::new(path.len(), |i: int| path[i]@)
}

impl<'a> View for Reading<'a> {
    type V = ReadingView;

    open spec fn view(&self) -> ReadingView {
        match self {
            Reading::Entries(names) => ReadingView::Entries(names_view(names@)),
            Reading::Contents(text) => ReadingView::Contents(text@),
            Reading::Device(transfer, map) => ReadingView::Device(
                transfer@,
                match map {
                    Some(m) => Some(**m),
                    None => None,
                },
            ),
        }
    }
}

/// A reading or an error, with texts as sequences of characters.
pub open spec fn reading_result(r: Result<Reading<'_>, Error>) -> Result<ReadingView, ErrorView> {
    match r {
        Ok(reading) => Ok(reading@),
        Err(e) => Err(e@),
    }
}

/// What a write comes to.
#[derive(Debug, PartialEq, Eq)]
pub enum Writing {
    /// Nothing is left to do: the channel only pretends.
    Done,
    /// The transfer that puts the bytes on the device.
    Device(Transfer),
    /// A masked write. The transfer `read` fetches the bytes that the
    /// register holds; `value` under `mask` and those bytes outside the mask
    /// are then to be written to `address` through `channel`.
    Masked { read: Transfer, channel: CommChannel, address: Address, mask: Vec<u8>, value: Vec<u8> },
}

/// A `Writing` with its bytes as sequences.
pub enum WritingView {
    Done,
    Device(TransferView),
    Masked {
        read: TransferView,
        channel: CommChannel,
        address: AddressView,
        mask: Seq<u8>,
        value: Seq<u8>,
    },
}

impl View for Writing {
    type V = WritingView;

    open spec fn view(&self) -> WritingView {
        match self {
            Writing::Done => WritingView::Done,
            Writing::Device(transfer) => WritingView::Device(transfer@),
            Writing::Masked { read, channel, address, mask, value } => WritingView::Masked {
                read: read@,
                channel: *channel,
                address: address@,
                mask: mask@,
                value: value@,
            },
        }
    }
}

/// A writing or an error, with bytes and texts as sequences.
pub open spec fn writing_result(r: Result<Writing, Error>) -> Result<WritingView, ErrorView> {
    match r {
        Ok(writing) => Ok(writing@),
        Err(e) => Err(e@),
    }
}

/// A truth value or an error, with texts as sequences of characters.
pub open spec fn bool_result(r: Result<bool, Error>) -> Result<bool, ErrorView> {
    match r {
        Ok(b) => Ok(b),
        Err(e) => Err(e@),
    }
}

/// What is below a file: nothing. A path that goes on names something that
/// is not there.
pub open spec fn leaf_is_dir(kind: Seq<char>, path: Seq<Seq<char>>) -> Result<bool, ErrorView> {
    if path.len() == 0 {
        Ok(false)
    } else {
        Err(ErrorView::NotADirectory(kind, path[0]))
    }
}

/// What is read from a file with the contents `text`.
pub open spec fn leaf_read(kind: Seq<char>, text: Seq<char>, path: Seq<Seq<char>>) -> Result<
    ReadingView,
    ErrorView,
> {
    if path.len() == 0 {
        Ok(ReadingView::Contents(text))
    } else {
        Err(ErrorView::NotADirectory(kind, path[0]))
    }
}

/// What a write to a file of the configuration comes to: it is refused.
pub open spec fn leaf_write(kind: Seq<char>, path: Seq<Seq<char>>) -> Result<WritingView, ErrorView> {
    if path.len() == 0 {
        Err(ErrorView::Unsupported("write"@, kind))
    } else {
        Err(ErrorView::NotADirectory(kind, path[0]))
    }
}

/// Whether a path below a file leads to a directory.
pub fn is_dir_of_leaf(kind: &str, path: &[&str]) -> (r: Result<bool, Error>)
    ensures
        bool_result(r) == leaf_is_dir(kind@, path_view(path@)),
{
    if path.len() == 0 {
        Ok(false)
    } else {
        Err(Error::NotADirectory(kind.to_owned(), path[0].to_owned()))
    }
}

/// What is read at a path below a file with the contents `text`.
pub fn read_of_leaf<'a>(kind: &str, text: String, path: &[&str]) -> (r: Result<Reading<'a>, Error>)
    ensures
        reading_result(r) == leaf_read(kind@, text@, path_view(path@)),
{
    if path.len() == 0 {
        Ok(Reading::Contents(text))
    } else {
        Err(Error::NotADirectory(kind.to_owned(), path[0].to_owned()))
    }
}

/// What a write at a path below a file of the configuration comes to.
pub fn write_of_leaf(kind: &str, path: &[&str]) -> (r: Result<Writing, Error>)
    ensures
        writing_result(r) == leaf_write(kind@, path_view(path@)),
{
    if path.len() == 0 {
        Err(Error::Unsupported("write".to_owned(), kind.to_owned()))
    } else {
        Err(Error::NotADirectory(kind.to_owned(), path[0].to_owned()))
    }
}

/// The path without its first segment.
pub fn rest_of<'a, 'b>(path: &'a [&'b str]) -> (r: &'a [&'b str])
    requires
        path@.len() > 0,
    ensures
        path_view(r@) == path_view(path@).skip(1),
        r@.len() == path@.len() - 1,
{
    let r = slice_subrange(path, 1, path.len());
    assert(path_view(r@) =~= path_view(path@).skip(1));
    r
}

/// The names `list` as the entries of a directory.
pub fn entries_of(list: &[&str]) -> (r: Vec<String>)
    ensures
        names_view(r@) == path_view(list@),
{
    let mut r: Vec<String> = Vec::new();
    let mut i: usize = 0;
    while i < list.len()
        invariant
            i <= list@.len(),
            r@.len() == i,
            forall|k: int| 0 <= k < i ==> r@[k]@ == list@[k]@,
        decreases list@.len() - i,
    {
        r.push(list[i].to_owned());
        i += 1;
    }
    assert(names_view(r@) =~= path_view(list@));
    r
}

/// A whole number that may be negative, in decimal digits.
pub open spec fn signed_decimal(n: int) -> Seq<char> {
    if n < 0 {
        seq!['-'] + radix_digits((-n) as nat, 10)
    } else {
        radix_digits(n as nat, 10)
    }
}

/// A truth value in words.
pub open spec fn bool_text(b: bool) -> Seq<char> {
    if b {
        "true"@
    } else {
        "false"@
    }
}

/// A node of the tree.
pub trait Fuseable {
    /// Whether `path` leads to a directory.
    spec fn is_dir_spec(&self, path: Seq<Seq<char>>) -> Result<bool, ErrorView>;

    /// What is read at `path`.
    spec fn read_spec(&self, path: Seq<Seq<char>>) -> Result<ReadingView, ErrorView>;

    /// What a write of `value` at `path` comes to.
    spec fn write_spec(&self, path: Seq<Seq<char>>, value: Seq<u8>) -> Result<
        WritingView,
        ErrorView,
    >;

    /// Whether `path` leads to a directory.
    fn is_dir(&self, path: &[&str]) -> (r: Result<bool, Error>)
        ensures
            bool_result(r) == self.is_dir_spec(path_view(path@)),
    ;

    /// What is read at `path`.
    fn read<'a>(&'a self, path: &[&str]) -> (r: Result<Reading<'a>, Error>)
        ensures
            reading_result(r) == self.read_spec(path_view(path@)),
    ;

    /// What a write of `value` at `path` comes to.
    fn write(&self, path: &[&str], value: Vec<u8>) -> (r: Result<Writing, Error>)
        ensures
            writing_result(r) == self.write_spec(path_view(path@), value@),
    ;
}

impl Fuseable for u8 {
    open spec fn is_dir_spec(&self, path: Seq<Seq<char>>) -> Result<bool, ErrorView> {
        leaf_is_dir("u8"@, path)
    }

    open spec fn read_spec(&self, path: Seq<Seq<char>>) -> Result<ReadingView, ErrorView> {
        leaf_read("u8"@, radix_digits(*self as nat, 10), path)
    }

    open spec fn write_spec(&self, path: Seq<Seq<char>>, value: Seq<u8>) -> Result<
        WritingView,
        ErrorView,
    > {
        leaf_write("u8"@, path)
    }

    fn is_dir(&self, path: &[&str]) -> (r: Result<bool, Error>) {
        is_dir_of_leaf("u8", path)
    }

    fn read<'a>(&'a self, path: &[&str]) -> (r: Result<Reading<'a>, Error>) {
        read_of_leaf("u8", decimal(*self as u64), path)
    }

    fn write(&self, path: &[&str], value: Vec<u8>) -> (r: Result<Writing, Error>) {
        write_of_leaf("u8", path)
    }
}

impl Fuseable for u64 {
    open spec fn is_dir_spec(&self, path: Seq<Seq<char>>) -> Result<bool, ErrorView> {
        leaf_is_dir("u64"@, path)
    }

    open spec fn read_spec(&self, path: Seq<Seq<char>>) -> Result<ReadingView, ErrorView> {
        leaf_read("u64"@, radix_digits(*self as nat, 10), path)
    }

    open spec fn write_spec(&self, path: Seq<Seq<char>>, value: Seq<u8>) -> Result<
        WritingView,
        ErrorView,
    > {
        leaf_write("u64"@, path)
    }

    fn is_dir(&self, path: &[&str]) -> (r: Result<bool, Error>) {
        is_dir_of_leaf("u64", path)
    }

    fn read<'a>(&'a self, path: &[&str]) -> (r: Result<Reading<'a>, Error>) {
        read_of_leaf("u64", decimal(*self), path)
    }

    fn write(&self, path: &[&str], value: Vec<u8>) -> (r: Result<Writing, Error>) {
        write_of_leaf("u64", path)
    }
}

/// The decimal digits of a whole number that may be negative.
pub fn signed_text(n: i64) -> (r: String)
    ensures
        r@ == signed_decimal(n as int),
{
    if n < 0 {
        let magnitude: u64 = (-(n + 1)) as u64 + 1;
        let mut text = String::new();
        push_char(&mut text, '-');
        text.append(decimal(magnitude).as_str());
        text
    } else {
        decimal(n as u64)
    }
}

impl Fuseable for u16 {
    open spec fn is_dir_spec(&self, path: Seq<Seq<char>>) -> Result<bool, ErrorView> {
        leaf_is_dir("u16"@, path)
    }

    open spec fn read_spec(&self, path: Seq<Seq<char>>) -> Result<ReadingView, ErrorView> {
        leaf_read("u16"@, radix_digits(*self as nat, 10), path)
    }

    open spec fn write_spec(&self, path: Seq<Seq<char>>, value: Seq<u8>) -> Result<
        WritingView,
        ErrorView,
    > {
        leaf_write("u16"@, path)
    }

    fn is_dir(&self, path: &[&str]) -> (r: Result<bool, Error>) {
        is_dir_of_leaf("u16", path)
    }

    fn read<'a>(&'a self, path: &[&str]) -> (r: Result<Reading<'a>, Error>) {
        read_of_leaf("u16", decimal(*self as u64), path)
    }

    fn write(&self, path: &[&str], value: Vec<u8>) -> (r: Result<Writing, Error>) {
        write_of_leaf("u16", path)
    }
}

impl Fuseable for u32 {
    open spec fn is_dir_spec(&self, path: Seq<Seq<char>>) -> Result<bool, ErrorView> {
        leaf_is_dir("u32"@, path)
    }

    open spec fn read_spec(&self, path: Seq<Seq<char>>) -> Result<ReadingView, ErrorView> {
        leaf_read("u32"@, radix_digits(*self as nat, 10), path)
    }

    open spec fn write_spec(&self, path: Seq<Seq<char>>, value: Seq<u8>) -> Result<
        WritingView,
        ErrorView,
    > {
        leaf_write("u32"@, path)
    }

    fn is_dir(&self, path: &[&str]) -> (r: Result<bool, Error>) {
        is_dir_of_leaf("u32", path)
    }

    fn read<'a>(&'a self, path: &[&str]) -> (r: Result<Reading<'a>, Error>) {
        read_of_leaf("u32", decimal(*self as u64), path)
    }

    fn write(&self, path: &[&str], value: Vec<u8>) -> (r: Result<Writing, Error>) {
        write_of_leaf("u32", path)
    }
}

impl Fuseable for i8 {
    open spec fn is_dir_spec(&self, path: Seq<Seq<char>>) -> Result<bool, ErrorView> {
        leaf_is_dir("i8"@, path)
    }

    open spec fn read_spec(&self, path: Seq<Seq<char>>) -> Result<ReadingView, ErrorView> {
        leaf_read("i8"@, signed_decimal(*self as int), path)
    }

    open spec fn write_spec(&self, path: Seq<Seq<char>>, value: Seq<u8>) -> Result<
        WritingView,
        ErrorView,
    > {
        leaf_write("i8"@, path)
    }

    fn is_dir(&self, path: &[&str]) -> (r: Result<bool, Error>) {
        is_dir_of_leaf("i8", path)
    }

    fn read<'a>(&'a self, path: &[&str]) -> (r: Result<Reading<'a>, Error>) {
        read_of_leaf("i8", signed_text(*self as i64), path)
    }

    fn write(&self, path: &[&str], value: Vec<u8>) -> (r: Result<Writing, Error>) {
        write_of_leaf("i8", path)
    }
}

impl Fuseable for i16 {
    open spec fn is_dir_spec(&self, path: Seq<Seq<char>>) -> Result<bool, ErrorView> {
        leaf_is_dir("i16"@, path)
    }

    open spec fn read_spec(&self, path: Seq<Seq<char>>) -> Result<ReadingView, ErrorView> {
        leaf_read("i16"@, signed_decimal(*self as int), path)
    }

    open spec fn write_spec(&self, path: Seq<Seq<char>>, value: Seq<u8>) -> Result<
        WritingView,
        ErrorView,
    > {
        leaf_write("i16"@, path)
    }

    fn is_dir(&self, path: &[&str]) -> (r: Result<bool, Error>) {
        is_dir_of_leaf("i16", path)
    }

    fn read<'a>(&'a self, path: &[&str]) -> (r: Result<Reading<'a>, Error>) {
        read_of_leaf("i16", signed_text(*self as i64), path)
    }

    fn write(&self, path: &[&str], value: Vec<u8>) -> (r: Result<Writing, Error>) {
        write_of_leaf("i16", path)
    }
}

impl Fuseable for i32 {
    open spec fn is_dir_spec(&self, path: Seq<Seq<char>>) -> Result<bool, ErrorView> {
        leaf_is_dir("i32"@, path)
    }

    open spec fn read_spec(&self, path: Seq<Seq<char>>) -> Result<ReadingView, ErrorView> {
        leaf_read("i32"@, signed_decimal(*self as int), path)
    }

    open spec fn write_spec(&self, path: Seq<Seq<char>>, value: Seq<u8>) -> Result<
        WritingView,
        ErrorView,
    > {
        leaf_write("i32"@, path)
    }

    fn is_dir(&self, path: &[&str]) -> (r: Result<bool, Error>) {
        is_dir_of_leaf("i32", path)
    }

    fn read<'a>(&'a self, path: &[&str]) -> (r: Result<Reading<'a>, Error>) {
        read_of_leaf("i32", signed_text(*self as i64), path)
    }

    fn write(&self, path: &[&str], value: Vec<u8>) -> (r: Result<Writing, Error>) {
        write_of_leaf("i32", path)
    }
}

impl Fuseable for i64 {
    open spec fn is_dir_spec(&self, path: Seq<Seq<char>>) -> Result<bool, ErrorView> {
        leaf_is_dir("i64"@, path)
    }

    open spec fn read_spec(&self, path: Seq<Seq<char>>) -> Result<ReadingView, ErrorView> {
        leaf_read("i64"@, signed_decimal(*self as int), path)
    }

    open spec fn write_spec(&self, path: Seq<Seq<char>>, value: Seq<u8>) -> Result<
        WritingView,
        ErrorView,
    > {
        leaf_write("i64"@, path)
    }

    fn is_dir(&self, path: &[&str]) -> (r: Result<bool, Error>) {
        is_dir_of_leaf("i64", path)
    }

    fn read<'a>(&'a self, path: &[&str]) -> (r: Result<Reading<'a>, Error>) {
        read_of_leaf("i64", signed_text(*self as i64), path)
    }

    fn write(&self, path: &[&str], value: Vec<u8>) -> (r: Result<Writing, Error>) {
        write_of_leaf("i64", path)
    }
}

impl Fuseable for bool {
    open spec fn is_dir_spec(&self, path: Seq<Seq<char>>) -> Result<bool, ErrorView> {
        leaf_is_dir("bool"@, path)
    }

    open spec fn read_spec(&self, path: Seq<Seq<char>>) -> Result<ReadingView, ErrorView> {
        leaf_read("bool"@, bool_text(*self), path)
    }

    open spec fn write_spec(&self, path: Seq<Seq<char>>, value: Seq<u8>) -> Result<
        WritingView,
        ErrorView,
    > {
        leaf_write("bool"@, path)
    }

    fn is_dir(&self, path: &[&str]) -> (r: Result<bool, Error>) {
        is_dir_of_leaf("bool", path)
    }

    fn read<'a>(&'a self, path: &[&str]) -> (r: Result<Reading<'a>, Error>) {
        let text = if *self {
            "true".to_owned()
        } else {
            "false".to_owned()
        };
        read_of_leaf("bool", text, path)
    }

    fn write(&self, path: &[&str], value: Vec<u8>) -> (r: Result<Writing, Error>) {
        write_of_leaf("bool", path)
    }
}

impl Fuseable for String {
    open spec fn is_dir_spec(&self, path: Seq<Seq<char>>) -> Result<bool, ErrorView> {
        leaf_is_dir("String"@, path)
    }

    open spec fn read_spec(&self, path: Seq<Seq<char>>) -> Result<ReadingView, ErrorView> {
        leaf_read("String"@, self@, path)
    }

    open spec fn write_spec(&self, path: Seq<Seq<char>>, value: Seq<u8>) -> Result<
        WritingView,
        ErrorView,
    > {
        leaf_write("String"@, path)
    }

    fn is_dir(&self, path: &[&str]) -> (r: Result<bool, Error>) {
        is_dir_of_leaf("String", path)
    }

    fn read<'a>(&'a self, path: &[&str]) -> (r: Result<Reading<'a>, Error>) {
        read_of_leaf("String", self.clone(), path)
    }

    fn write(&self, path: &[&str], value: Vec<u8>) -> (r: Result<Writing, Error>) {
        write_of_leaf("String", path)
    }
}

impl<T: Fuseable> Fuseable for Option<T> {
    open spec fn is_dir_spec(&self, path: Seq<Seq<char>>) -> Result<bool, ErrorView> {
        match self {
            Some(v) => v.is_dir_spec(path),
            None => Ok(false),
        }
    }

    open spec fn read_spec(&self, path: Seq<Seq<char>>) -> Result<ReadingView, ErrorView> {
        match self {
            Some(v) => v.read_spec(path),
            None => Ok(ReadingView::Contents("None"@)),
        }
    }

    open spec fn write_spec(&self, path: Seq<Seq<char>>, value: Seq<u8>) -> Result<
        WritingView,
        ErrorView,
    > {
        match self {
            Some(v) => v.write_spec(path, value),
            None => Err(ErrorView::Unsupported("write"@, "Option"@)),
        }
    }

    fn is_dir(&self, path: &[&str]) -> (r: Result<bool, Error>) {
        match self {
            Some(v) => v.is_dir(path),
            None => Ok(false),
        }
    }

    fn read<'a>(&'a self, path: &[&str]) -> (r: Result<Reading<'a>, Error>) {
        match self {
            Some(v) => v.read(path),
            None => Ok(Reading::Contents("None".to_owned())),
        }
    }

    fn write(&self, path: &[&str], value: Vec<u8>) -> (r: Result<Writing, Error>) {
        match self {
            Some(v) => v.write(path, value),
            None => Err(Error::Unsupported("write".to_owned(), "Option".to_owned())),
        }
    }
}

impl<T: Fuseable> Fuseable for NamedMap<T> {
    open spec fn is_dir_spec(&self, path: Seq<Seq<char>>) -> Result<bool, ErrorView> {
        if path.len() == 0 {
            Ok(true)
        } else {
            match self.lookup(path[0]) {
                Some(v) => v.is_dir_spec(path.skip(1)),
                None => Err(ErrorView::NotFound(path[0])),
            }
        }
    }

    open spec fn read_spec(&self, path: Seq<Seq<char>>) -> Result<ReadingView, ErrorView> {
        if path.len() == 0 {
            Ok(ReadingView::Entries(self.names()))
        } else {
            match self.lookup(path[0]) {
                Some(v) => v.read_spec(path.skip(1)),
                None => Err(ErrorView::NotFound(path[0])),
            }
        }
    }

    open spec fn write_spec(&self, path: Seq<Seq<char>>, value: Seq<u8>) -> Result<
        WritingView,
        ErrorView,
    > {
        if path.len() == 0 {
            Err(ErrorView::Unsupported("write"@, "NamedMap"@))
        } else {
            match self.lookup(path[0]) {
                Some(v) => v.write_spec(path.skip(1), value),
                None => Err(ErrorView::NotFound(path[0])),
            }
        }
    }

    fn is_dir(&self, path: &[&str]) -> (r: Result<bool, Error>) {
        if path.len() == 0 {
            return Ok(true);
        }
        match self.get(path[0]) {
            Some(v) => v.is_dir(rest_of(path)),
            None => Err(Error::NotFound(path[0].to_owned())),
        }
    }

    fn read<'a>(&'a self, path: &[&str]) -> (r: Result<Reading<'a>, Error>) {
        if path.len() == 0 {
            let keys = self.keys();
            assert(names_view(keys@) =~= keys.deep_view());
            return Ok(Reading::Entries(keys));
        }
        match self.get(path[0]) {
            Some(v) => v.read(rest_of(path)),
            None => Err(Error::NotFound(path[0].to_owned())),
        }
    }

    fn write(&self, path: &[&str], value: Vec<u8>) -> (r: Result<Writing, Error>) {
        if path.len() == 0 {
            return Err(Error::Unsupported("write".to_owned(), "NamedMap".to_owned()));
        }
        match self.get(path[0]) {
            Some(v) => v.write(rest_of(path), value),
            None => Err(Error::NotFound(path[0].to_owned())),
        }
    }
}

} // verus!

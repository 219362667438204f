//! What can go wrong.

use vstd::prelude::*;
use crate::parse_num::ParseError;

verus! {

/// Why a request was refused.
#[derive(Debug, PartialEq, Eq)]
pub enum Error {
    /// An address that cannot be read; it holds the text that was given.
    BadAddress(String),
    /// A register without a width was read or written.
    MissingWidth,
    /// A value with more bytes than the register is wide.
    OverlongValue,
    /// A number literal that cannot be read.
    Parse(ParseError),
    /// Bytes that are no valid UTF-8 where text was expected.
    InvalidText,
    /// A value map has no entry for the bytes.
    UnknownValue,
    /// A value map has no entry for the keyword.
    UnknownKey,
    /// A value map without entries.
    NoEntries,
    /// The device could not be reached.
    ChannelIo,
    /// No entry of that name.
    NotFound(String),
    /// A file was asked for an entry: the kind of the file and the name of
    /// the entry.
    NotADirectory(String, String),
    /// A write to what can only be read.
    ReadOnly,
    /// An operation that a kind of node does not offer: the operation and
    /// the kind.
    Unsupported(String, String),
    /// A configuration that cannot be read.
    ConfigParse,
}

/// An `Error` with its texts as sequences of characters.
pub enum ErrorView {
    BadAddress(Seq<char>),
    MissingWidth,
    OverlongValue,
    Parse(ParseError),
    InvalidText,
    UnknownValue,
    UnknownKey,
    NoEntries,
    ChannelIo,
    NotFound(Seq<char>),
    NotADirectory(Seq<char>, Seq<char>),
    ReadOnly,
    Unsupported(Seq<char>, Seq<char>),
    ConfigParse,
}

impl View for Error {
    type V = ErrorView;

    open spec fn view(&self) -> ErrorView {
        match self {
            Error::BadAddress(s) => ErrorView::BadAddress(s@),
            Error::MissingWidth => ErrorView::MissingWidth,
            Error::OverlongValue => ErrorView::OverlongValue,
            Error::Parse(e) => ErrorView::Parse(*e),
            Error::InvalidText => ErrorView::InvalidText,
            Error::UnknownValue => ErrorView::UnknownValue,
            Error::UnknownKey => ErrorView::UnknownKey,
            Error::NoEntries => ErrorView::NoEntries,
            Error::ChannelIo => ErrorView::ChannelIo,
            Error::NotFound(name) => ErrorView::NotFound(name@),
            Error::NotADirectory(kind, name) => ErrorView::NotADirectory(kind@, name@),
            Error::ReadOnly => ErrorView::ReadOnly,
            Error::Unsupported(op, kind) => ErrorView::Unsupported(op@, kind@),
            Error::ConfigParse => ErrorView::ConfigParse,
        }
    }
}

/// A text or an error, as characters.
pub open spec fn text_result(r: Result<String, Error>) -> Result<Seq<char>, ErrorView> {
    match r {
        Ok(s) => Ok(s@),
        Err(e) => Err(e@),
    }
}

/// Bytes or an error, as sequences.
pub open spec fn bytes_result(r: Result<Vec<u8>, Error>) -> Result<Seq<u8>, ErrorView> {
    match r {
        Ok(v) => Ok(v@),
        Err(e) => Err(e@),
    }
}

} // verus!

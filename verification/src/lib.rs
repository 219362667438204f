//! Control surface of a camera image sensor, exposed as a tree of
//! directories and files.
//!
//! The crate holds the decisions: how number literals and addresses are
//! read, which words stand for which bytes, what a path names and what has to be
//! done on a device. Talking to the devices is left to the caller.

pub mod address;
mod bigint;
pub mod bimap;
pub mod bytes;
pub mod channel;
pub mod digits;
mod endian;
pub mod error;
pub mod function;
pub mod fuseable;
pub mod keywords;
pub mod masks;
pub mod named_map;
pub mod parse_num;
pub mod register;
pub mod sensor;
pub mod serde_util;
pub mod setting;
pub mod text;
pub mod value;
pub mod value_table;
pub mod valuemap;

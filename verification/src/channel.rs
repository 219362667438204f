//! Channels: the ways to reach a device.
//!
//! A channel is held as its configuration. It does not talk to the device:
//! it tells which transfer a read or a write comes to, and the caller makes
//! the transfer.

use vstd::prelude::*;
use crate::address::{Address, AddressView};
use crate::bytes::be_value;
use crate::error::{Error, ErrorView};
use crate::fuseable::{entries_of, rest_of, Fuseable, Reading, ReadingView, Writing, WritingView};
use crate::text::same_text;

verus! {

/// A way to reach a device.
#[derive(Debug, Clone, Copy, PartialEq, Eq, Structural)]
pub enum CommChannel {
    /// An I2C bus as a character device: the number of the bus and the
    /// address of the device on it.
    I2cCdev { bus: u8, address: u8, mock: bool },
    /// Registers that are mapped into memory: where the mapping starts in
    /// physical memory and how long it is.
    MmapGpio { base: u64, len: u64, mock: bool },
}

/// What has to be done on a device.
#[derive(Debug, PartialEq, Eq)]
pub enum Transfer {
    /// Write `pointer` to the device `address` on the I2C bus `bus`, then
    /// read `count` bytes.
    I2cRead { bus: u8, address: u8, pointer: Vec<u8>, count: usize },
    /// Write `pointer` to the device `address` on the I2C bus `bus`, then
    /// write `payload`.
    I2cWrite { bus: u8, address: u8, pointer: Vec<u8>, payload: Vec<u8> },
    /// Copy `count` bytes from `offset` on in the mapping of `len` bytes at
    /// `base`.
    MemRead { base: u64, len: u64, offset: u64, count: usize },
    /// Copy `payload` to `offset` on in the mapping of `len` bytes at
    /// `base`.
    MemWrite { base: u64, len: u64, offset: u64, payload: Vec<u8> },
}

/// A `Transfer` with its bytes as sequences.
pub enum TransferView {
    I2cRead { bus: u8, address: u8, pointer: Seq<u8>, count: usize },
    I2cWrite { bus: u8, address: u8, pointer: Seq<u8>, payload: Seq<u8> },
    MemRead { base: u64, len: u64, offset: u64, count: usize },
    MemWrite { base: u64, len: u64, offset: u64, payload: Seq<u8> },
}

impl View for Transfer {
    type V = TransferView;

    open spec fn view(&self) -> TransferView {
        match self {
            Transfer::I2cRead { bus, address, pointer, count } => TransferView::I2cRead {
                bus: *bus,
                address: *address,
                pointer: pointer@,
                count: *count,
            },
            Transfer::I2cWrite { bus, address, pointer, payload } => TransferView::I2cWrite {
                bus: *bus,
                address: *address,
                pointer: pointer@,
                payload: payload@,
            },
            Transfer::MemRead { base, len, offset, count } => TransferView::MemRead {
                base: *base,
                len: *len,
                offset: *offset,
                count: *count,
            },
            Transfer::MemWrite { base, len, offset, payload } => TransferView::MemWrite {
                base: *base,
                len: *len,
                offset: *offset,
                payload: payload@,
            },
        }
    }
}

/// What a read through a channel comes to.
#[derive(Debug, PartialEq, Eq)]
pub enum ReadPlan {
    /// The channel only pretends: these are the bytes, and there are none.
    Mocked(Vec<u8>),
    /// The transfer that fetches the bytes.
    Transfer(Transfer),
}

/// What a write through a channel comes to.
#[derive(Debug, PartialEq, Eq)]
pub enum WritePlan {
    /// The channel only pretends: nothing is left to do.
    Mocked,
    /// The transfer that puts the bytes on the device.
    Transfer(Transfer),
}

/// A `ReadPlan` with its bytes as sequences.
pub enum ReadPlanView {
    Mocked(Seq<u8>),
    Transfer(TransferView),
}

/// A `WritePlan` with its bytes as sequences.
pub enum WritePlanView {
    Mocked,
    Transfer(TransferView),
}

impl View for ReadPlan {
    type V = ReadPlanView;

    open spec fn view(&self) -> ReadPlanView {
        match self {
            ReadPlan::Mocked(bytes) => ReadPlanView::Mocked(bytes@),
            ReadPlan::Transfer(t) => ReadPlanView::Transfer(t@),
        }
    }
}

impl View for WritePlan {
    type V = WritePlanView;

    open spec fn view(&self) -> WritePlanView {
        match self {
            WritePlan::Mocked => WritePlanView::Mocked,
            WritePlan::Transfer(t) => WritePlanView::Transfer(t@),
        }
    }
}

/// A plan to read or an error, with bytes and texts as sequences.
pub open spec fn read_plan_result(r: Result<ReadPlan, Error>) -> Result<ReadPlanView, ErrorView> {
    match r {
        Ok(plan) => Ok(plan@),
        Err(e) => Err(e@),
    }
}

/// A plan to write or an error, with bytes and texts as sequences.
pub open spec fn write_plan_result(r: Result<WritePlan, Error>) -> Result<WritePlanView, ErrorView> {
    match r {
        Ok(plan) => Ok(plan@),
        Err(e) => Err(e@),
    }
}

impl CommChannel {
    /// Whether the channel only pretends to reach the device.
    pub open spec fn mocked(&self) -> bool {
        match self {
            CommChannel::I2cCdev { mock, .. } => *mock,
            CommChannel::MmapGpio { mock, .. } => *mock,
        }
    }

    /// The channel with pretending switched on or off.
    pub open spec fn with_mock(&self, mock: bool) -> CommChannel {
        match self {
            CommChannel::I2cCdev { bus, address, .. } => CommChannel::I2cCdev {
                bus: *bus,
                address: *address,
                mock,
            },
            CommChannel::MmapGpio { base, len, .. } => CommChannel::MmapGpio {
                base: *base,
                len: *len,
                mock,
            },
        }
    }

    /// What reading the bytes at `address` comes to. A channel that
    /// pretends gives no bytes. On an I2C bus the base of the address is
    /// written as the register pointer and the bytes of the slice are read.
    /// In mapped memory the base is the offset of the bytes, which have to
    /// lie within the mapping.
    pub open spec fn read_plan(&self, address: AddressView) -> Result<ReadPlanView, ErrorView> {
        let count = ((address.slice_end - address.slice_start + 7) / 8) as usize;
        match self {
            CommChannel::I2cCdev { bus, address: device, mock } => if *mock {
                Ok(ReadPlanView::Mocked(Seq::empty()))
            } else {
                Ok(
                    ReadPlanView::Transfer(
                        TransferView::I2cRead {
                            bus: *bus,
                            address: *device,
                            pointer: address.base,
                            count,
                        },
                    ),
                )
            },
            CommChannel::MmapGpio { base, len, mock } => if *mock {
                Ok(ReadPlanView::Mocked(Seq::empty()))
            } else if address.base.len() <= 8 && be_value(address.base) + count <= *len {
                Ok(
                    ReadPlanView::Transfer(
                        TransferView::MemRead {
                            base: *base,
                            len: *len,
                            offset: be_value(address.base) as u64,
                            count,
                        },
                    ),
                )
            } else {
                Err(ErrorView::ChannelIo)
            },
        }
    }

    /// What writing `value` at `address` comes to. A channel that pretends
    /// leaves nothing to do. On an I2C bus the base of the address is
    /// written as the register pointer and the value after it. In mapped
    /// memory the base is the offset of the bytes, which have to lie within
    /// the mapping.
    pub open spec fn write_plan(&self, address: AddressView, value: Seq<u8>) -> Result<
        WritePlanView,
        ErrorView,
    > {
        match self {
            CommChannel::I2cCdev { bus, address: device, mock } => if *mock {
                Ok(WritePlanView::Mocked)
            } else {
                Ok(
                    WritePlanView::Transfer(
                        TransferView::I2cWrite {
                            bus: *bus,
                            address: *device,
                            pointer: address.base,
                            payload: value,
                        },
                    ),
                )
            },
            CommChannel::MmapGpio { base, len, mock } => if *mock {
                Ok(WritePlanView::Mocked)
            } else if address.base.len() <= 8 && be_value(address.base) + value.len() <= *len {
                Ok(
                    WritePlanView::Transfer(
                        TransferView::MemWrite {
                            base: *base,
                            len: *len,
                            offset: be_value(address.base) as u64,
                            payload: value,
                        },
                    ),
                )
            } else {
                Err(ErrorView::ChannelIo)
            },
        }
    }

    /// Switches pretending on or off.
    pub fn mock_mode(&mut self, mock: bool)
        ensures
            *final(self) == old(self).with_mock(mock),
    {
        let changed = match self {
            CommChannel::I2cCdev { bus, address, .. } => CommChannel::I2cCdev {
                bus: *bus,
                address: *address,
                mock,
            },
            CommChannel::MmapGpio { base, len, .. } => CommChannel::MmapGpio {
                base: *base,
                len: *len,
                mock,
            },
        };
        *self = changed;
    }

    /// Whether the channel only pretends to reach the device.
    pub fn get_mock_mode(&self) -> (r: bool)
        ensures
            r == self.mocked(),
    {
        match self {
            CommChannel::I2cCdev { mock, .. } => *mock,
            CommChannel::MmapGpio { mock, .. } => *mock,
        }
    }

    /// What reading the bytes at `address` comes to.
    pub fn read_value(&self, address: &Address) -> (r: Result<ReadPlan, Error>)
        requires
            address.wf(),
        ensures
            read_plan_result(r) == self.read_plan(address@),
    {
        if self.get_mock_mode() {
            return Ok(ReadPlan::Mocked(Vec::new()));
        }
        let count = address.bytes();
        match self {
            CommChannel::I2cCdev { bus, address: device, .. } => Ok(
                ReadPlan::Transfer(
                    Transfer::I2cRead {
                        bus: *bus,
                        address: *device,
                        pointer: address.base.clone(),
                        count,
                    },
                ),
            ),
            CommChannel::MmapGpio { base, len, .. } => {
                if address.base.len() > 8 {
                    return Err(Error::ChannelIo);
                }
                let offset = address.as_u64();
                if offset > *len || count as u64 > *len - offset {
                    return Err(Error::ChannelIo);
                }
                Ok(ReadPlan::Transfer(Transfer::MemRead { base: *base, len: *len, offset, count }))
            },
        }
    }

    /// What writing `value` at `address` comes to.
    pub fn write_value(&self, address: &Address, value: Vec<u8>) -> (r: Result<WritePlan, Error>)
        ensures
            write_plan_result(r) == self.write_plan(address@, value@),
    {
        if self.get_mock_mode() {
            return Ok(WritePlan::Mocked);
        }
        match self {
            CommChannel::I2cCdev { bus, address: device, .. } => Ok(
                WritePlan::Transfer(
                    Transfer::I2cWrite {
                        bus: *bus,
                        address: *device,
                        pointer: address.base.clone(),
                        payload: value,
                    },
                ),
            ),
            CommChannel::MmapGpio { base, len, .. } => {
                if address.base.len() > 8 {
                    return Err(Error::ChannelIo);
                }
                let offset = address.as_u64();
                if offset > *len || value.len() as u64 > *len - offset {
                    return Err(Error::ChannelIo);
                }
                Ok(
                    WritePlan::Transfer(
                        Transfer::MemWrite { base: *base, len: *len, offset, payload: value },
                    ),
                )
            },
        }
    }
}

/// The names of what a channel is configured with.
pub open spec fn channel_fields(channel: CommChannel) -> Seq<Seq<char>> {
    match channel {
        CommChannel::I2cCdev { .. } => seq!["bus"@, "address"@, "mock"@],
        CommChannel::MmapGpio { .. } => seq!["base"@, "len"@, "mock"@],
    }
}

impl Fuseable for CommChannel {
    open spec fn is_dir_spec(&self, path: Seq<Seq<char>>) -> Result<bool, ErrorView> {
        if path.len() == 0 {
            Ok(true)
        } else {
            match self {
                CommChannel::I2cCdev { bus, address, mock } => if path[0] == "bus"@ {
                    bus.is_dir_spec(path.skip(1))
                } else if path[0] == "address"@ {
                    address.is_dir_spec(path.skip(1))
                } else if path[0] == "mock"@ {
                    mock.is_dir_spec(path.skip(1))
                } else {
                    Err(ErrorView::NotFound(path[0]))
                },
                CommChannel::MmapGpio { base, len, mock } => if path[0] == "base"@ {
                    base.is_dir_spec(path.skip(1))
                } else if path[0] == "len"@ {
                    len.is_dir_spec(path.skip(1))
                } else if path[0] == "mock"@ {
                    mock.is_dir_spec(path.skip(1))
                } else {
                    Err(ErrorView::NotFound(path[0]))
                },
            }
        }
    }

    open spec fn read_spec(&self, path: Seq<Seq<char>>) -> Result<ReadingView, ErrorView> {
        if path.len() == 0 {
            Ok(ReadingView::Entries(channel_fields(*self)))
        } else {
            match self {
                CommChannel::I2cCdev { bus, address, mock } => if path[0] == "bus"@ {
                    bus.read_spec(path.skip(1))
                } else if path[0] == "address"@ {
                    address.read_spec(path.skip(1))
                } else if path[0] == "mock"@ {
                    mock.read_spec(path.skip(1))
                } else {
                    Err(ErrorView::NotFound(path[0]))
                },
                CommChannel::MmapGpio { base, len, mock } => if path[0] == "base"@ {
                    base.read_spec(path.skip(1))
                } else if path[0] == "len"@ {
                    len.read_spec(path.skip(1))
                } else if path[0] == "mock"@ {
                    mock.read_spec(path.skip(1))
                } else {
                    Err(ErrorView::NotFound(path[0]))
                },
            }
        }
    }

    open spec fn write_spec(&self, path: Seq<Seq<char>>, value: Seq<u8>) -> Result<
        WritingView,
        ErrorView,
    > {
        Err(ErrorView::Unsupported("write"@, "CommChannel"@))
    }

    fn is_dir(&self, path: &[&str]) -> (r: Result<bool, Error>) {
        if path.len() == 0 {
            return Ok(true);
        }
        let rest = rest_of(path);
        match self {
            CommChannel::I2cCdev { bus, address, mock } => if same_text(path[0], "bus") {
                bus.is_dir(rest)
            } else if same_text(path[0], "address") {
                address.is_dir(rest)
            } else if same_text(path[0], "mock") {
                mock.is_dir(rest)
            } else {
                Err(Error::NotFound(path[0].to_owned()))
            },
            CommChannel::MmapGpio { base, len, mock } => if same_text(path[0], "base") {
                base.is_dir(rest)
            } else if same_text(path[0], "len") {
                len.is_dir(rest)
            } else if same_text(path[0], "mock") {
                mock.is_dir(rest)
            } else {
                Err(Error::NotFound(path[0].to_owned()))
            },
        }
    }

    fn read<'a>(&'a self, path: &[&str]) -> (r: Result<Reading<'a>, Error>) {
        if path.len() == 0 {
            let names = match self {
                CommChannel::I2cCdev { .. } => entries_of(&["bus", "address", "mock"]),
                CommChannel::MmapGpio { .. } => entries_of(&["base", "len", "mock"]),
            };
            assert(crate::fuseable::names_view(names@) =~= channel_fields(*self));
            return Ok(Reading::Entries(names));
        }
        let rest = rest_of(path);
        match self {
            CommChannel::I2cCdev { bus, address, mock } => if same_text(path[0], "bus") {
                bus.read(rest)
            } else if same_text(path[0], "address") {
                address.read(rest)
            } else if same_text(path[0], "mock") {
                mock.read(rest)
            } else {
                Err(Error::NotFound(path[0].to_owned()))
            },
            CommChannel::MmapGpio { base, len, mock } => if same_text(path[0], "base") {
                base.read(rest)
            } else if same_text(path[0], "len") {
                len.read(rest)
            } else if same_text(path[0], "mock") {
                mock.read(rest)
            } else {
                Err(Error::NotFound(path[0].to_owned()))
            },
        }
    }

    fn write(&self, path: &[&str], value: Vec<u8>) -> (r: Result<Writing, Error>) {
        Err(Error::Unsupported("write".to_owned(), "CommChannel".to_owned()))
    }
}

} // verus!

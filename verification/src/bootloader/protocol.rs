//! Numbers on the wire, commands, and the bookkeeping types of the server.

use vstd::prelude::*;

use crate::actions::Action;

verus! {

/// Starts every response, and is doubled wherever it occurs in data.
pub const ESCAPE_CHAR: u8 = 0xFC;

pub const RES_PONG: u8 = 0x11;
pub const RES_BADADDR: u8 = 0x12;
pub const RES_INTERNAL_ERROR: u8 = 0x13;
pub const RES_BADARGS: u8 = 0x14;
pub const RES_OK: u8 = 0x15;
pub const RES_UNKNOWN: u8 = 0x16;
pub const RES_READ_RANGE: u8 = 0x20;
pub const RES_GET_ATTR: u8 = 0x22;
pub const RES_CRCIF: u8 = 0x23;
pub const RES_INFO: u8 = 0x25;

/// Bytes in one attribute record.
pub const RECORD_LEN: usize = 64;
/// Bytes of key at the start of a record.
pub const KEY_LEN: usize = 8;

/// Bytes in the message buffer: big enough for a command that carries a
/// 512-byte page.
pub const BUF_LEN: usize = 600;

/// Bytes in the answer to `Info`.
pub const INFO_LEN: usize = 195;
/// Where the version starts in the flags, and how long it is at most.
pub const VERSION_OFFSET: usize = 14;
pub const VERSION_LEN: usize = 8;
/// Where the kernel's start address lies in the flags.
pub const START_OFFSET: usize = 32;

/// A request from the host. `B` is a buffer: bytes in a running program, a
/// sequence of bytes in a contract.
#[allow(inconsistent_fields)]
pub enum Command<B> {
    Ping,
    Reset,
    Info,
    ReadRange { address: u32, length: u16 },
    WritePage { address: u32, data: B },
    ErasePage { address: u32 },
    CrcIntFlash { address: u32, length: u32 },
    GetAttr { index: u8 },
    SetAttr { index: u8, key: B, value: B },
    SetStartAddress { address: u32 },
    Exit,
    /// A command of the protocol that this server does not offer.
    Other,
}

/// What the decoder makes of one more byte.
pub enum Decoded<B> {
    /// No command is complete yet.
    Nothing,
    Command(Command<B>),
    BadArguments,
    /// Any other decoding error.
    Failed,
}

/// Which decoder to give a byte to.
#[derive(Copy, Clone)]
pub enum Decoder {
    /// A new one.
    Fresh,
    /// The one the last byte went to.
    Same,
    /// The one the last byte went to, after resetting it.
    Reset,
}

/// What to do while a message is being decoded.
pub enum Reception<B> {
    /// Give `byte` to the decoder and report what it makes of it.
    Decode { decoder: Decoder, byte: u8 },
    /// The message is dealt with.
    Act(Action<B>),
}

/// What the server is doing between receiving a command and answering it.
#[allow(inconsistent_fields)]
#[derive(Copy, Clone)]
pub enum State {
    Idle,
    Info,
    ErasePage,
    GetAttribute { index: u8 },
    SetAttribute { index: u8 },
    SetStartAddress { address: u32 },
    WriteFlashPage,
    ReadRange { address: u32, length: u16, remaining_length: u16 },
    Crc { address: u32, remaining_length: u32, crc: u32 },
}

impl View for Command<Vec<u8>> {
    type V = Command<Seq<u8>>;

    open spec fn view(&self) -> Command<Seq<u8>> {
        match *self {
            Command::Ping => Command::Ping,
            Command::Reset => Command::Reset,
            Command::Info => Command::Info,
            Command::ReadRange { address, length } => Command::ReadRange { address, length },
            Command::WritePage { address, data } => Command::WritePage { address, data: data@ },
            Command::ErasePage { address } => Command::ErasePage { address },
            Command::CrcIntFlash { address, length } => Command::CrcIntFlash { address, length },
            Command::GetAttr { index } => Command::GetAttr { index },
            Command::SetAttr { index, key, value } => Command::SetAttr {
                index,
                key: key@,
                value: value@,
            },
            Command::SetStartAddress { address } => Command::SetStartAddress { address },
            Command::Exit => Command::Exit,
            Command::Other => Command::Other,
        }
    }
}

impl View for Decoded<Vec<u8>> {
    type V = Decoded<Seq<u8>>;

    open spec fn view(&self) -> Decoded<Seq<u8>> {
        match *self {
            Decoded::Nothing => Decoded::Nothing,
            Decoded::Command(command) => Decoded::Command(command@),
            Decoded::BadArguments => Decoded::BadArguments,
            Decoded::Failed => Decoded::Failed,
        }
    }
}

impl View for Reception<Vec<u8>> {
    type V = Reception<Seq<u8>>;

    open spec fn view(&self) -> Reception<Seq<u8>> {
        match *self {
            Reception::Decode { decoder, byte } => Reception::Decode { decoder, byte },
            Reception::Act(action) => Reception::Act(action@),
        }
    }
}

} // verus!

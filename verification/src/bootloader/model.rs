//! What each event does to the server, as mathematics.

use vstd::prelude::*;

use crate::actions::{transmit, Action};
use crate::bytes::{le_bytes, write_at};
use crate::bootloader::protocol::{
    Command, Decoded, Decoder, Reception, State, ESCAPE_CHAR, INFO_LEN, KEY_LEN, RECORD_LEN,
    RES_BADADDR, RES_BADARGS, RES_CRCIF, RES_GET_ATTR, RES_INFO, RES_INTERNAL_ERROR, RES_OK,
    RES_PONG, RES_READ_RANGE, RES_UNKNOWN, START_OFFSET, VERSION_LEN, VERSION_OFFSET,
};
use crate::crc::{crc_of_bytes, CRC_SEED};

verus! {

/// A response without data.
pub open spec fn response(code: u8) -> Seq<u8> {
    seq![ESCAPE_CHAR, code]
}

/// One byte of data on the wire.
pub open spec fn escape_byte(byte: u8) -> Seq<u8> {
    if byte == ESCAPE_CHAR {
        seq![ESCAPE_CHAR, byte]
    } else {
        seq![byte]
    }
}

/// Data on the wire: every escape character doubled.
pub open spec fn escape(bytes: Seq<u8>) -> Seq<u8>
    decreases bytes.len(),
{
    if bytes.len() == 0 {
        Seq::empty()
    } else {
        escape(bytes.drop_last()) + escape_byte(bytes.last())
    }
}

/// How many of `bytes`, from index `from` on, go into a message of `room`
/// bytes of which `used` are taken. A byte goes in only while two places are
/// left, so that one that has to be escaped always fits.
pub open spec fn fitting(bytes: Seq<u8>, from: int, used: int, room: int) -> int
    decreases bytes.len() - from,
{
    if from >= bytes.len() || used >= room - 1 {
        0
    } else {
        1 + fitting(bytes, from + 1, used + escape_byte(bytes[from]).len(), room)
    }
}

/// The bytes before the first zero.
pub open spec fn until_zero(bytes: Seq<u8>) -> Seq<u8>
    decreases bytes.len(),
{
    if bytes.len() == 0 || bytes[0] == 0 {
        Seq::empty()
    } else {
        seq![bytes[0]] + until_zero(bytes.drop_first())
    }
}

/// A hexadecimal digit in ASCII.
pub open spec fn hex_digit(value: int) -> u8 {
    if value < 10 {
        (0x30 + value) as u8
    } else {
        (0x57 + value) as u8
    }
}

/// A byte as two hexadecimal digits.
pub open spec fn hex_byte(byte: u8) -> Seq<u8> {
    seq![hex_digit(byte as int / 16), hex_digit(byte as int % 16)]
}

/// `{"version":"`
pub open spec fn info_head() -> Seq<u8> {
    seq![0x7B, 0x22, 0x76, 0x65, 0x72, 0x73, 0x69, 0x6F, 0x6E, 0x22, 0x3A, 0x22]
}

/// `", "start_address":"0x`
pub open spec fn info_start() -> Seq<u8> {
    seq![
        0x22, 0x2C, 0x20, 0x22, 0x73, 0x74, 0x61, 0x72, 0x74, 0x5F, 0x61, 0x64, 0x64, 0x72, 0x65,
        0x73, 0x73, 0x22, 0x3A, 0x22, 0x30, 0x78,
    ]
}

/// `", "name":"Tock Bootloader"}`
pub open spec fn info_tail() -> Seq<u8> {
    seq![
        0x22, 0x2C, 0x20, 0x22, 0x6E, 0x61, 0x6D, 0x65, 0x22, 0x3A, 0x22, 0x54, 0x6F, 0x63, 0x6B,
        0x20, 0x42, 0x6F, 0x6F, 0x74, 0x6C, 0x6F, 0x61, 0x64, 0x65, 0x72, 0x22, 0x7D,
    ]
}

/// The JSON that describes this bootloader, from its flags: the version as
/// text, and the kernel's start address in hexadecimal.
pub open spec fn info_json(flags: Seq<u8>) -> Seq<u8> {
    info_head() + until_zero(
        flags.subrange(VERSION_OFFSET as int, VERSION_OFFSET + VERSION_LEN),
    ) + info_start() + hex_byte(flags[START_OFFSET + 3]) + hex_byte(flags[START_OFFSET + 2])
        + hex_byte(flags[START_OFFSET + 1]) + hex_byte(flags[START_OFFSET as int]) + info_tail()
}

/// The whole answer to `Info`: the length of the JSON, the JSON, zeros.
pub open spec fn info_message(flags: Seq<u8>) -> Seq<u8> {
    let json = info_json(flags);
    let text = response(RES_INFO) + seq![json.len() as u8] + json;
    Seq::new(
        INFO_LEN as nat,
        |i: int|
            if i < text.len() {
                text[i]
            } else {
                0
            },
    )
}

/// An attribute record: the key, the length of the value, the value, zeros.
pub open spec fn record(key: Seq<u8>, value: Seq<u8>) -> Seq<u8> {
    Seq::new(
        RECORD_LEN as nat,
        |i: int|
            if i < KEY_LEN {
                key[i]
            } else if i == KEY_LEN {
                (value.len() % 256) as u8
            } else if i - KEY_LEN - 1 < value.len() {
                value[i - KEY_LEN - 1]
            } else {
                0
            },
    )
}

/// A message being decoded.
pub struct Incoming<B> {
    pub buffer: B,
    /// How many bytes of the buffer are the message.
    pub len: usize,
    /// The byte the decoder has been given last.
    pub at: usize,
}

/// The server's state.
#[verifier::ext_equal]
pub struct BootModel {
    pub state: State,
    pub flags_address: usize,
    pub attributes_address: usize,
    /// First address a client may write or erase.
    pub protected_end: u32,
    pub page_len: usize,
    /// One flash page of RAM, absent while the flash has it.
    pub page_buffer: Option<Seq<u8>>,
    /// The message buffer, held while a command is carried out.
    pub buffer: Option<Seq<u8>>,
    pub incoming: Option<Incoming<Seq<u8>>>,
}

/// A state and what is asked for on reaching it.
pub type Outcome = (BootModel, Action<Seq<u8>>);

/// A state and what is to be done about the message being decoded.
pub type ReceptionOutcome = (BootModel, Reception<Seq<u8>>);

impl BootModel {
    /// A server that has heard nothing yet.
    pub open spec fn init(
        page_buffer: Seq<u8>,
        buffer: Seq<u8>,
        flags_address: usize,
        attributes_address: usize,
        protected_end: u32,
    ) -> BootModel {
        BootModel {
            state: State::Idle,
            flags_address,
            attributes_address,
            protected_end,
            page_len: page_buffer.len() as usize,
            page_buffer: Some(page_buffer),
            buffer: Some(buffer),
            incoming: None,
        }
    }

    /// What holds between any two events.
    pub open spec fn wf(self) -> bool {
        &&& self.page_len > 0
        &&& self.page_buffer matches Some(page) ==> page.len() == self.page_len
        &&& self.flags_address + START_OFFSET <= u32::MAX
        &&& self.attributes_address + 256 * RECORD_LEN <= u32::MAX
        &&& self.incoming matches Some(incoming) ==> incoming.at < incoming.len
            <= incoming.buffer.len()
    }

    /// Bytes in a page, as far as the server can tell.
    pub open spec fn page_size(self) -> int {
        match self.page_buffer {
            Some(page) => page.len() as int,
            None => 512,
        }
    }

    /// Where attribute record `index` lies.
    pub open spec fn attribute_at(self, index: u8) -> int {
        self.attributes_address + index * RECORD_LEN
    }

    pub open spec fn start(self) -> Outcome {
        match self.buffer {
            Some(buffer) => (BootModel { buffer: None, ..self }, Action::Listen { buffer }),
            None => (self, Action::Idle),
        }
    }

    /// Answer with the held buffer, if there is one.
    pub open spec fn answer(self, message: Seq<u8>) -> Outcome {
        match self.buffer {
            Some(buffer) => (BootModel { buffer: None, ..self }, transmit(buffer, message)),
            None => (self, Action::Idle),
        }
    }

    /// Have the flash read a page, if there is a page to read into.
    pub open spec fn read_page(self, page_number: int) -> Outcome {
        match self.page_buffer {
            Some(page) => (
                BootModel { page_buffer: None, ..self },
                Action::ReadPage { page_number: page_number as usize, page },
            ),
            None => (self, Action::Idle),
        }
    }

    /// Start working on a command that needs the page that holds `address`.
    pub open spec fn begin(self, state: State, buffer: Seq<u8>, address: int) -> Outcome {
        BootModel { state, buffer: Some(buffer), ..self }.read_page(address / self.page_size())
    }

    // -- Commands -----------------------------------------------------------

    pub open spec fn write_page(self, buffer: Seq<u8>, address: u32, data: Seq<u8>) -> Outcome {
        let idle = BootModel { state: State::Idle, ..self };
        match self.page_buffer {
            None => (self, Action::Idle),
            Some(page) => if page.len() != data.len() {
                (idle, transmit(buffer, response(RES_BADARGS)))
            } else if address < self.protected_end {
                (idle, transmit(buffer, response(RES_BADADDR)))
            } else {
                (
                    BootModel {
                        state: State::WriteFlashPage,
                        page_buffer: None,
                        buffer: Some(buffer),
                        ..self
                    },
                    Action::WritePage {
                        page_number: (address as int / (page.len() as int)) as usize,
                        page: data,
                    },
                )
            },
        }
    }

    pub open spec fn erase_page(self, buffer: Seq<u8>, address: u32) -> Outcome {
        if address < self.protected_end {
            (BootModel { state: State::Idle, ..self }, transmit(buffer, response(RES_BADADDR)))
        } else {
            (
                BootModel { state: State::ErasePage, buffer: Some(buffer), ..self },
                Action::ErasePage { page_number: (address as int / self.page_size()) as usize },
            )
        }
    }

    /// Carry out a command that decides what becomes of the message.
    pub open spec fn execute(self, buffer: Seq<u8>, command: Command<Seq<u8>>) -> Outcome {
        let holding = BootModel { buffer: Some(buffer), ..self };
        match command {
            Command::Ping => holding.answer(response(RES_PONG)),
            Command::Info => self.begin(State::Info, buffer, self.flags_address as int),
            Command::ReadRange { address, length } => self.begin(
                State::ReadRange { address, length, remaining_length: length },
                buffer,
                address as int,
            ),
            Command::WritePage { address, data } => self.write_page(buffer, address, data),
            Command::ErasePage { address } => self.erase_page(buffer, address),
            Command::CrcIntFlash { address, length } => self.begin(
                State::Crc { address, remaining_length: length, crc: CRC_SEED },
                buffer,
                address as int,
            ),
            Command::GetAttr { index } => self.begin(
                State::GetAttribute { index },
                buffer,
                self.attribute_at(index),
            ),
            // The record waits in the message buffer while its page is read.
            Command::SetAttr { index, key, value } => self.begin(
                State::SetAttribute { index },
                write_at(buffer, 0, record(key, value)),
                self.attribute_at(index),
            ),
            Command::SetStartAddress { address } => self.begin(
                State::SetStartAddress { address },
                buffer,
                self.flags_address as int,
            ),
            Command::Exit => (self, Action::Reset { then: Some(buffer) }),
            Command::Reset | Command::Other => holding.answer(response(RES_UNKNOWN)),
        }
    }

    // -- Events -------------------------------------------------------------

    /// `len` bytes of a message arrived in `buffer`, or the reception failed.
    pub open spec fn message_received(self, buffer: Seq<u8>, len: usize, ok: bool)
        -> ReceptionOutcome {
        if !ok || len == 0 {
            (self, Reception::Act(Action::Listen { buffer }))
        } else {
            (
                BootModel { incoming: Some(Incoming { buffer, len, at: 0 }), ..self },
                Reception::Decode { decoder: Decoder::Fresh, byte: buffer[0] },
            )
        }
    }

    /// Go on to the next byte of the message, or listen again at its end.
    pub open spec fn next_byte(self, incoming: Incoming<Seq<u8>>, decoder: Decoder)
        -> ReceptionOutcome {
        let at = incoming.at + 1;
        if at >= incoming.len {
            (self, Reception::Act(Action::Listen { buffer: incoming.buffer }))
        } else {
            (
                BootModel { incoming: Some(Incoming { at: at as usize, ..incoming }), ..self },
                Reception::Decode { decoder, byte: incoming.buffer[at] },
            )
        }
    }

    /// The decoder made `result` of the byte it was given. The first command
    /// or error decides; what follows it in the message is not looked at.
    pub open spec fn decoded(self, result: Decoded<Seq<u8>>) -> ReceptionOutcome {
        let free = BootModel { incoming: None, ..self };
        match self.incoming {
            None => (self, Reception::Act(Action::Idle)),
            Some(incoming) => match result {
                Decoded::Nothing => free.next_byte(incoming, Decoder::Same),
                Decoded::Command(Command::Reset) => free.next_byte(incoming, Decoder::Reset),
                Decoded::Command(command) => {
                    let (next, action) = free.execute(incoming.buffer, command);
                    (next, Reception::Act(action))
                },
                Decoded::BadArguments => {
                    let holding = BootModel { buffer: Some(incoming.buffer), ..free };
                    let (next, action) = holding.answer(response(RES_BADARGS));
                    (next, Reception::Act(action))
                },
                Decoded::Failed => {
                    let holding = BootModel { buffer: Some(incoming.buffer), ..free };
                    let (next, action) = holding.answer(response(RES_INTERNAL_ERROR));
                    (next, Reception::Act(action))
                },
            },
        }
    }

    /// A message went out, or failed to. A range takes as many messages as it
    /// needs.
    pub open spec fn message_transmitted(self, buffer: Seq<u8>, ok: bool) -> Outcome {
        if !ok {
            (self, Action::Idle)
        } else {
            match self.state {
                State::ReadRange { address, length, remaining_length } => if remaining_length
                    == 0 {
                    (BootModel { state: State::Idle, ..self }, Action::Listen { buffer })
                } else {
                    self.begin(self.state, buffer, address as int)
                },
                _ => (self, Action::Listen { buffer }),
            }
        }
    }

    /// The message that carries the next part of a range, and how many bytes
    /// of the range it carries. Only the first one has a header.
    pub open spec fn range_part(
        page: Seq<u8>,
        room: int,
        address: u32,
        length: u16,
        remaining_length: u16,
    ) -> (Seq<u8>, int) {
        let header = if length == remaining_length {
            response(RES_READ_RANGE)
        } else {
            Seq::empty()
        };
        let offset = address as int % (page.len() as int);
        let rest = page.len() - offset;
        let wanted = if rest <= remaining_length {
            rest
        } else {
            remaining_length as int
        };
        let bytes = page.subrange(offset, offset + wanted);
        let count = fitting(bytes, 0, header.len() as int, room);
        (header + escape(bytes.take(count)), count)
    }

    /// A page arrived from flash.
    pub open spec fn read_complete(self, page: Seq<u8>) -> Outcome {
        let page_len = page.len() as int;
        let back = BootModel { state: State::Idle, page_buffer: Some(page), ..self };
        match self.state {
            State::Info => {
                let flags = page.skip(self.flags_address as int % page_len);
                match self.buffer {
                    Some(_) => back.answer(info_message(flags)),
                    None => (BootModel { state: State::Idle, ..self }, Action::Idle),
                }
            },
            State::GetAttribute { index } => {
                let offset = self.attribute_at(index) % page_len;
                let attribute = page.subrange(offset, offset + RECORD_LEN);
                match self.buffer {
                    Some(_) => back.answer(response(RES_GET_ATTR) + escape(attribute)),
                    None => (BootModel { state: State::Idle, ..self }, Action::Idle),
                }
            },
            State::SetAttribute { index } => match self.buffer {
                Some(buffer) => (
                    self,
                    Action::WritePage {
                        page_number: (self.attribute_at(index) / page_len) as usize,
                        page: write_at(
                            page,
                            self.attribute_at(index) % page_len,
                            buffer.take(RECORD_LEN as int),
                        ),
                    },
                ),
                None => (self, Action::Idle),
            },
            State::SetStartAddress { address } => {
                let at = self.flags_address + START_OFFSET;
                (
                    self,
                    Action::WritePage {
                        page_number: (at / page_len) as usize,
                        page: write_at(page, at % page_len, le_bytes(address)),
                    },
                )
            },
            State::ReadRange { address, length, remaining_length } => match self.buffer {
                Some(buffer) => {
                    let (message, count) = Self::range_part(
                        page,
                        buffer.len() as int,
                        address,
                        length,
                        remaining_length,
                    );
                    BootModel {
                        state: State::ReadRange {
                            address: address.wrapping_add(count as u32),
                            length,
                            remaining_length: (remaining_length - count) as u16,
                        },
                        ..back
                    }.answer(message)
                },
                None => (self, Action::Idle),
            },
            State::Crc { address, remaining_length, crc } => {
                let offset = address as int % page_len;
                let rest = page_len - offset;
                let count = if rest <= remaining_length {
                    rest
                } else {
                    remaining_length as int
                };
                let next_crc = crc_of_bytes(crc, page.subrange(offset, offset + count));
                let next_address = address.wrapping_add(count as u32);
                if count == remaining_length {
                    match self.buffer {
                        Some(_) => back.answer(
                            response(RES_CRCIF) + le_bytes(next_crc ^ 0xFFFF_FFFF),
                        ),
                        None => (BootModel { state: State::Idle, ..self }, Action::Idle),
                    }
                } else {
                    (
                        BootModel {
                            state: State::Crc {
                                address: next_address,
                                remaining_length: (remaining_length - count) as u32,
                                crc: next_crc,
                            },
                            ..self
                        },
                        Action::ReadPage {
                            page_number: (next_address as int / page_len) as usize,
                            page,
                        },
                    )
                }
            },
            _ => (self, Action::Idle),
        }
    }

    /// Does what the current command looks at lie in one page, and does the
    /// message buffer hold what goes through it?
    pub open spec fn page_suffices(self) -> bool {
        let page_len = self.page_len as int;
        match self.state {
            State::Info => self.flags_address as int % page_len + START_OFFSET + 4 <= page_len,
            State::GetAttribute { index } => self.attribute_at(index) % page_len + RECORD_LEN
                <= page_len,
            State::SetAttribute { index } => {
                &&& self.attribute_at(index) % page_len + RECORD_LEN <= page_len
                &&& self.buffer matches Some(buffer) ==> RECORD_LEN <= buffer.len()
            },
            State::SetStartAddress { .. } => (self.flags_address + START_OFFSET) % page_len + 4
                <= page_len,
            State::ReadRange { length, remaining_length, .. } => self.buffer matches Some(buffer)
                ==> 1 <= buffer.len() && (length == remaining_length ==> 2 <= buffer.len()),
            _ => true,
        }
    }

    /// A page was written.
    pub open spec fn write_complete(self, page: Seq<u8>) -> Outcome {
        let back = BootModel { page_buffer: Some(page), ..self };
        match self.state {
            State::WriteFlashPage | State::SetAttribute { .. } | State::SetStartAddress { .. } =>
            BootModel { state: State::Idle, ..back }.answer(response(RES_OK)),
            _ => back.start(),
        }
    }

    /// A page was erased.
    pub open spec fn erase_complete(self) -> Outcome {
        match self.state {
            State::ErasePage => BootModel { state: State::Idle, ..self }.answer(
                response(RES_OK),
            ),
            _ => self.start(),
        }
    }
}

} // verus!

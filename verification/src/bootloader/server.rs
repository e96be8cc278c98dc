//! The server itself.

use vstd::prelude::*;

use crate::actions::{held, sendable, transmit, transmit_message, Action};
use crate::bootloader::model::{
    escape, escape_byte, fitting, hex_byte, hex_digit, info_head, info_json, info_message,
    info_start, info_tail, record, response, until_zero, BootModel, Incoming,
};
use crate::bootloader::protocol::{
    Command, Decoded, Decoder, Reception, State, ESCAPE_CHAR, INFO_LEN, KEY_LEN, RECORD_LEN,
    RES_BADADDR, RES_BADARGS, RES_CRCIF, RES_GET_ATTR, RES_INFO, RES_INTERNAL_ERROR, RES_OK,
    RES_PONG, RES_READ_RANGE, RES_UNKNOWN, START_OFFSET, VERSION_LEN, VERSION_OFFSET,
};
use crate::bytes::{copy_into, le_bytes, to_le_bytes, write_at};
use crate::crc::{update, CRC_SEED};
use crate::error::ErrorCode;

verus! {

/// What a message being decoded holds.
pub open spec fn incoming_view(incoming: Option<Incoming<Vec<u8>>>) -> Option<
    Incoming<Seq<u8>>,
> {
    match incoming {
        Some(Incoming { buffer, len, at }) => Some(Incoming { buffer: buffer@, len, at }),
        None => None,
    }
}

/// A message that a reception ends in sending lies within its buffer.
pub open spec fn reception_sendable(outcome: (BootModel, Reception<Seq<u8>>)) -> bool {
    outcome.1 matches Reception::Act(action) ==> sendable((outcome.0, action))
}

/// Send a response without data.
fn respond(buffer: Vec<u8>, code: u8) -> (action: Action<Vec<u8>>)
    requires
        buffer@.len() >= 2,
    ensures
        action@ == transmit(buffer@, response(code)),
{
    let message = [ESCAPE_CHAR, code];
    assert(message@ =~= response(code));
    transmit_message(buffer, message.as_slice())
}

/// Append `bytes` to `text`.
fn append(text: &mut Vec<u8>, bytes: &[u8])
    ensures
        final(text)@ == old(text)@ + bytes@,
{
    text.extend_from_slice(bytes);
    assert(text@ =~= old(text)@ + bytes@);
}

/// A hexadecimal digit in ASCII.
fn to_hex_digit(value: u8) -> (digit: u8)
    requires
        value < 16,
    ensures
        digit == hex_digit(value as int),
{
    if value < 10 {
        0x30 + value
    } else {
        0x57 + value
    }
}

/// Append a byte as two hexadecimal digits.
fn append_hex(text: &mut Vec<u8>, byte: u8)
    ensures
        final(text)@ == old(text)@ + hex_byte(byte),
{
    text.push(to_hex_digit(byte / 16));
    text.push(to_hex_digit(byte % 16));
    assert(text@ =~= old(text)@ + hex_byte(byte));
}

/// Escaping one more byte.
proof fn lemma_escape_push(bytes: Seq<u8>, n: int)
    requires
        0 <= n < bytes.len(),
    ensures
        escape(bytes.take(n + 1)) == escape(bytes.take(n)) + escape_byte(bytes[n]),
{
    assert(bytes.take(n + 1).drop_last() =~= bytes.take(n));
}

/// Escaping at most doubles.
pub proof fn lemma_escape_len(bytes: Seq<u8>)
    ensures
        bytes.len() <= escape(bytes).len() <= 2 * bytes.len(),
    decreases bytes.len(),
{
    if bytes.len() > 0 {
        lemma_escape_len(bytes.drop_last());
    }
}

/// The version text is the longest run of bytes before a zero.
proof fn lemma_until_zero(bytes: Seq<u8>, n: int)
    requires
        0 <= n <= bytes.len(),
        forall|i: int| 0 <= i < n ==> bytes[i] != 0,
        n == bytes.len() || bytes[n] == 0,
    ensures
        until_zero(bytes) == bytes.take(n),
    decreases n,
{
    if n > 0 {
        lemma_until_zero(bytes.drop_first(), n - 1);
        assert(bytes.take(n) =~= seq![bytes[0]] + bytes.drop_first().take(n - 1));
    } else {
        assert(bytes.take(0) =~= Seq::<u8>::empty());
    }
}

/// A part of a range fits the message it goes into.
pub proof fn lemma_fitting(bytes: Seq<u8>, from: int, used: int, room: int)
    requires
        0 <= from <= bytes.len(),
    ensures
        0 <= fitting(bytes, from, used, room) <= bytes.len() - from,
    decreases bytes.len() - from,
{
    if from < bytes.len() && used < room - 1 {
        lemma_fitting(bytes, from + 1, used + escape_byte(bytes[from]).len(), room);
    }
}

/// The answer to `Info`, from the page that holds the flags.
fn describe(page: &[u8], offset: usize) -> (message: Vec<u8>)
    requires
        offset + START_OFFSET + 4 <= page@.len(),
    ensures
        message@ == info_message(page@.skip(offset as int)),
{
    let ghost flags = page@.skip(offset as int);
    let head = [0x7B, 0x22, 0x76, 0x65, 0x72, 0x73, 0x69, 0x6F, 0x6E, 0x22, 0x3A, 0x22];
    let start = [
        0x22, 0x2C, 0x20, 0x22, 0x73, 0x74, 0x61, 0x72, 0x74, 0x5F, 0x61, 0x64, 0x64, 0x72, 0x65,
        0x73, 0x73, 0x22, 0x3A, 0x22, 0x30, 0x78,
    ];
    let tail = [
        0x22, 0x2C, 0x20, 0x22, 0x6E, 0x61, 0x6D, 0x65, 0x22, 0x3A, 0x22, 0x54, 0x6F, 0x63, 0x6B,
        0x20, 0x42, 0x6F, 0x6F, 0x74, 0x6C, 0x6F, 0x61, 0x64, 0x65, 0x72, 0x22, 0x7D,
    ];
    assert(head@ =~= info_head());
    assert(start@ =~= info_start());
    assert(tail@ =~= info_tail());
    assert(page.len() == page@.len());
    let mut text: Vec<u8> = Vec::new();
    append(&mut text, head.as_slice());
    // The version is at most 8 bytes long.
    let mut n: usize = 0;
    let ghost version = flags.subrange(VERSION_OFFSET as int, VERSION_OFFSET + VERSION_LEN);
    while n < VERSION_LEN && page[offset + VERSION_OFFSET + n] != 0
        invariant
            n <= VERSION_LEN,
            offset + START_OFFSET + 4 <= page@.len() <= usize::MAX,
            flags == page@.skip(offset as int),
            version == flags.subrange(VERSION_OFFSET as int, VERSION_OFFSET + VERSION_LEN),
            text@ == info_head() + version.take(n as int),
            forall|i: int| 0 <= i < n ==> version[i] != 0,
        decreases VERSION_LEN - n,
    {
        text.push(page[offset + VERSION_OFFSET + n]);
        n = n + 1;
        assert(text@ =~= info_head() + version.take(n as int));
    }
    proof {
        assert(n < VERSION_LEN ==> version[n as int] == 0);
        lemma_until_zero(version, n as int);
    }
    append(&mut text, start.as_slice());
    append_hex(&mut text, page[offset + START_OFFSET + 3]);
    append_hex(&mut text, page[offset + START_OFFSET + 2]);
    append_hex(&mut text, page[offset + START_OFFSET + 1]);
    append_hex(&mut text, page[offset + START_OFFSET]);
    append(&mut text, tail.as_slice());
    assert(text@ == info_json(flags));
    let mut message: Vec<u8> = vec![0; INFO_LEN];
    message[0] = ESCAPE_CHAR;
    message[1] = RES_INFO;
    message[2] = text.len() as u8;
    copy_into(&mut message, 3, text.as_slice());
    proof {
        let whole = response(RES_INFO) + seq![text@.len() as u8] + text@;
        assert forall|i: int| 0 <= i < INFO_LEN implies #[trigger] message@[i] == info_message(
            flags,
        )[i] by {
            if 3 <= i < 3 + text@.len() {
                assert(whole[i] == text@[i - 3]);
            }
        }
        assert(message@ =~= info_message(flags));
    }
    message
}

/// Put an attribute record at the start of the message buffer.
fn put_record(buffer: Vec<u8>, key: &[u8], value: &[u8]) -> (result: Vec<u8>)
    requires
        RECORD_LEN <= buffer@.len(),
        KEY_LEN <= key@.len(),
    ensures
        result@ == write_at(buffer@, 0, record(key@, value@)),
{
    let mut buffer = buffer;
    let ghost before = buffer@;
    let mut i: usize = 0;
    while i < RECORD_LEN
        invariant
            i <= RECORD_LEN <= buffer@.len(),
            KEY_LEN <= key@.len(),
            buffer@ == write_at(before, 0, record(key@, value@).take(i as int)),
        decreases RECORD_LEN - i,
    {
        buffer[i] = if i < KEY_LEN {
            key[i]
        } else if i == KEY_LEN {
            (value.len() % 256) as u8
        } else if i - KEY_LEN - 1 < value.len() {
            value[i - KEY_LEN - 1]
        } else {
            0
        };
        i = i + 1;
        assert(buffer@ =~= write_at(before, 0, record(key@, value@).take(i as int)));
    }
    assert(record(key@, value@).take(RECORD_LEN as int) =~= record(key@, value@));
    buffer
}

/// The server of the tockloader protocol.
pub struct Bootloader {
    state: State,
    flags_address: usize,
    attributes_address: usize,
    protected_end: u32,
    page_len: usize,
    page_buffer: Option<Vec<u8>>,
    buffer: Option<Vec<u8>>,
    incoming: Option<Incoming<Vec<u8>>>,
}

impl View for Bootloader {
    type V = BootModel;

    closed spec fn view(&self) -> BootModel {
        BootModel {
            state: self.state,
            flags_address: self.flags_address,
            attributes_address: self.attributes_address,
            protected_end: self.protected_end,
            page_len: self.page_len,
            page_buffer: held(self.page_buffer),
            buffer: held(self.buffer),
            incoming: incoming_view(self.incoming),
        }
    }
}

impl Bootloader {
    pub fn new(
        page_buffer: Vec<u8>,
        buffer: Vec<u8>,
        flags_address: usize,
        attributes_address: usize,
        protected_end: u32,
    ) -> (server: Bootloader)
        requires
            page_buffer@.len() > 0,
            flags_address + START_OFFSET <= u32::MAX,
            attributes_address + 256 * RECORD_LEN <= u32::MAX,
        ensures
            server@ == BootModel::init(
                page_buffer@,
                buffer@,
                flags_address,
                attributes_address,
                protected_end,
            ),
            server@.wf(),
    {
        Bootloader {
            state: State::Idle,
            flags_address,
            attributes_address,
            protected_end,
            page_len: page_buffer.len(),
            page_buffer: Some(page_buffer),
            buffer: Some(buffer),
            incoming: None,
        }
    }

    /// Start listening.
    pub fn start(&mut self) -> (action: Action<Vec<u8>>)
        requires
            old(self)@.wf(),
        ensures
            (final(self)@, action@) == old(self)@.start(),
            final(self)@.wf(),
    {
        match self.buffer.take() {
            Some(buffer) => Action::Listen { buffer },
            None => Action::Idle,
        }
    }

    /// Answer with the held buffer.
    fn send_response(&mut self, message: &[u8]) -> (action: Action<Vec<u8>>)
        requires
            old(self)@.buffer matches Some(buffer) ==> message@.len() <= buffer.len(),
        ensures
            (final(self)@, action@) == old(self)@.answer(message@),
    {
        match self.buffer.take() {
            Some(buffer) => transmit_message(buffer, message),
            None => Action::Idle,
        }
    }

    /// Start working on a command that needs the page that holds `address`.
    fn begin(&mut self, state: State, buffer: Vec<u8>, address: usize) -> (action: Action<Vec<u8>>)
        requires
            old(self)@.wf(),
        ensures
            (final(self)@, action@) == old(self)@.begin(state, buffer@, address as int),
    {
        self.state = state;
        self.buffer = Some(buffer);
        match self.page_buffer.take() {
            Some(page) => Action::ReadPage { page_number: address / page.len(), page },
            None => Action::Idle,
        }
    }

    fn write_page(&mut self, buffer: Vec<u8>, address: u32, data: Vec<u8>) -> (action: Action<
        Vec<u8>,
    >)
        requires
            old(self)@.wf(),
            sendable(old(self)@.write_page(buffer@, address, data@)),
        ensures
            (final(self)@, action@) == old(self)@.write_page(buffer@, address, data@),
    {
        match self.page_buffer.take() {
            None => Action::Idle,
            Some(page) => {
                if page.len() != data.len() {
                    self.page_buffer = Some(page);
                    self.state = State::Idle;
                    respond(buffer, RES_BADARGS)
                } else if address < self.protected_end {
                    self.page_buffer = Some(page);
                    self.state = State::Idle;
                    respond(buffer, RES_BADADDR)
                } else {
                    let page_number: usize = address as usize / page.len();
                    let mut page = page;
                    copy_into(&mut page, 0, data.as_slice());
                    assert(page@ =~= data@);
                    self.state = State::WriteFlashPage;
                    self.buffer = Some(buffer);
                    Action::WritePage { page_number, page }
                }
            },
        }
    }

    fn erase_page(&mut self, buffer: Vec<u8>, address: u32) -> (action: Action<Vec<u8>>)
        requires
            old(self)@.wf(),
            sendable(old(self)@.erase_page(buffer@, address)),
        ensures
            (final(self)@, action@) == old(self)@.erase_page(buffer@, address),
    {
        if address < self.protected_end {
            self.state = State::Idle;
            return respond(buffer, RES_BADADDR);
        }
        self.state = State::ErasePage;
        self.buffer = Some(buffer);
        let page_size: usize = match &self.page_buffer {
            Some(page) => page.len(),
            None => 512,
        };
        Action::ErasePage { page_number: address as usize / page_size }
    }

    /// Carry out a command that decides what becomes of the message.
    fn execute(&mut self, buffer: Vec<u8>, command: Command<Vec<u8>>) -> (action: Action<Vec<u8>>)
        requires
            old(self)@.wf(),
            command@ matches Command::SetAttr { index, key, value } ==> KEY_LEN <= key.len()
                && RECORD_LEN <= buffer@.len(),
            sendable(old(self)@.execute(buffer@, command@)),
        ensures
            (final(self)@, action@) == old(self)@.execute(buffer@, command@),
    {
        match command {
            Command::Ping => {
                self.buffer = None;
                respond(buffer, RES_PONG)
            },
            Command::Info => {
                let address: usize = self.flags_address;
                self.begin(State::Info, buffer, address)
            },
            Command::ReadRange { address, length } => self.begin(
                State::ReadRange { address, length, remaining_length: length },
                buffer,
                address as usize,
            ),
            Command::WritePage { address, data } => self.write_page(buffer, address, data),
            Command::ErasePage { address } => self.erase_page(buffer, address),
            Command::CrcIntFlash { address, length } => self.begin(
                State::Crc { address, remaining_length: length, crc: CRC_SEED },
                buffer,
                address as usize,
            ),
            Command::GetAttr { index } => {
                let address: usize = self.attributes_address + index as usize * RECORD_LEN;
                self.begin(State::GetAttribute { index }, buffer, address)
            },
            Command::SetAttr { index, key, value } => {
                let buffer = put_record(buffer, key.as_slice(), value.as_slice());
                let address: usize = self.attributes_address + index as usize * RECORD_LEN;
                self.begin(State::SetAttribute { index }, buffer, address)
            },
            Command::SetStartAddress { address } => {
                let flags_address: usize = self.flags_address;
                self.begin(State::SetStartAddress { address }, buffer, flags_address)
            },
            Command::Exit => Action::Reset { then: Some(buffer) },
            Command::Reset | Command::Other => {
                self.buffer = None;
                respond(buffer, RES_UNKNOWN)
            },
        }
    }

    /// `len` bytes of a message arrived in `buffer`, or the reception failed.
    pub fn message_received(
        &mut self,
        buffer: Vec<u8>,
        len: usize,
        result: Result<(), ErrorCode>,
    ) -> (reception: Reception<Vec<u8>>)
        requires
            old(self)@.wf(),
            result is Ok ==> len <= buffer@.len(),
        ensures
            (final(self)@, reception@) == old(self)@.message_received(buffer@, len, result is Ok),
            final(self)@.wf(),
    {
        if result.is_err() || len == 0 {
            return Reception::Act(Action::Listen { buffer });
        }
        let byte: u8 = buffer[0];
        self.incoming = Some(Incoming { buffer, len, at: 0 });
        Reception::Decode { decoder: Decoder::Fresh, byte }
    }

    /// Go on to the next byte of the message, or listen again at its end.
    fn next_byte(&mut self, incoming: Incoming<Vec<u8>>, decoder: Decoder) -> (reception: Reception<
        Vec<u8>,
    >)
        requires
            old(self)@.wf(),
            incoming.at < incoming.len <= incoming.buffer@.len(),
        ensures
            (final(self)@, reception@) == old(self)@.next_byte(
                (Incoming { buffer: incoming.buffer@, len: incoming.len, at: incoming.at }),
                decoder,
            ),
            final(self)@.wf(),
    {
        let at: usize = incoming.at + 1;
        if at >= incoming.len {
            return Reception::Act(Action::Listen { buffer: incoming.buffer });
        }
        let byte: u8 = incoming.buffer[at];
        self.incoming = Some(Incoming { buffer: incoming.buffer, len: incoming.len, at });
        Reception::Decode { decoder, byte }
    }

    /// The decoder made `result` of the byte it was given.
    pub fn decoded(&mut self, result: Decoded<Vec<u8>>) -> (reception: Reception<Vec<u8>>)
        requires
            old(self)@.wf(),
            result@ matches Decoded::Command(Command::SetAttr { index, key, value }) ==> KEY_LEN
                <= key.len() && (old(self)@.incoming matches Some(incoming) ==> RECORD_LEN
                <= incoming.buffer.len()),
            reception_sendable(old(self)@.decoded(result@)),
        ensures
            (final(self)@, reception@) == old(self)@.decoded(result@),
            final(self)@.wf(),
    {
        let incoming = match self.incoming.take() {
            None => {
                return Reception::Act(Action::Idle);
            },
            Some(incoming) => incoming,
        };
        match result {
            Decoded::Nothing => self.next_byte(incoming, Decoder::Same),
            Decoded::Command(Command::Reset) => self.next_byte(incoming, Decoder::Reset),
            Decoded::Command(command) => Reception::Act(self.execute(incoming.buffer, command)),
            Decoded::BadArguments => {
                self.buffer = None;
                Reception::Act(respond(incoming.buffer, RES_BADARGS))
            },
            Decoded::Failed => {
                self.buffer = None;
                Reception::Act(respond(incoming.buffer, RES_INTERNAL_ERROR))
            },
        }
    }

    /// A message went out, or failed to.
    pub fn message_transmitted(&mut self, buffer: Vec<u8>, result: Result<(), ErrorCode>) -> (action:
        Action<Vec<u8>>)
        requires
            old(self)@.wf(),
        ensures
            (final(self)@, action@) == old(self)@.message_transmitted(buffer@, result is Ok),
            final(self)@.wf(),
    {
        if result.is_err() {
            return Action::Idle;
        }
        match self.state {
            State::ReadRange { address, length, remaining_length } => {
                // Some of the range has been sent: either done, or set up the
                // next read.
                if remaining_length == 0 {
                    self.state = State::Idle;
                    Action::Listen { buffer }
                } else {
                    self.begin(
                        State::ReadRange { address, length, remaining_length },
                        buffer,
                        address as usize,
                    )
                }
            },
            _ => Action::Listen { buffer },
        }
    }

    /// The page of the flags arrived, for `Info`.
    fn info_read(&mut self, page: Vec<u8>) -> (action: Action<Vec<u8>>)
        requires
            old(self)@.wf(),
            old(self)@.state is Info,
            old(self)@.page_suffices(),
            page@.len() == old(self)@.page_len,
            sendable(old(self)@.read_complete(page@)),
        ensures
            (final(self)@, action@) == old(self)@.read_complete(page@),
    {
        self.state = State::Idle;
        match self.buffer.take() {
            None => Action::Idle,
            Some(buffer) => {
                let offset: usize = self.flags_address % page.len();
                let message = describe(page.as_slice(), offset);
                self.page_buffer = Some(page);
                transmit_message(buffer, message.as_slice())
            },
        }
    }

    /// The page of an attribute arrived, to be answered with.
    fn attribute_read(&mut self, index: u8, page: Vec<u8>) -> (action: Action<Vec<u8>>)
        requires
            old(self)@.wf(),
            old(self)@.state == (State::GetAttribute { index }),
            old(self)@.page_suffices(),
            page@.len() == old(self)@.page_len,
            sendable(old(self)@.read_complete(page@)),
        ensures
            (final(self)@, action@) == old(self)@.read_complete(page@),
    {
        self.state = State::Idle;
        match self.buffer.take() {
            None => Action::Idle,
            Some(buffer) => {
                let address: usize = self.attributes_address + index as usize * RECORD_LEN;
                let offset: usize = address % page.len();
                let ghost attribute = page@.subrange(offset as int, offset + RECORD_LEN);
                let mut message: Vec<u8> = Vec::new();
                message.push(ESCAPE_CHAR);
                message.push(RES_GET_ATTR);
                assert(attribute.take(0) =~= Seq::<u8>::empty());
                assert(message@ =~= response(RES_GET_ATTR) + escape(attribute.take(0)));
                assert(page.len() == page@.len());
                let mut i: usize = 0;
                while i < RECORD_LEN
                    invariant
                        i <= RECORD_LEN,
                        offset + RECORD_LEN <= page@.len() <= usize::MAX,
                        attribute == page@.subrange(offset as int, offset + RECORD_LEN),
                        message@ == response(RES_GET_ATTR) + escape(attribute.take(i as int)),
                    decreases RECORD_LEN - i,
                {
                    let byte: u8 = page[offset + i];
                    proof {
                        lemma_escape_push(attribute, i as int);
                    }
                    if byte == ESCAPE_CHAR {
                        // Need to escape the escape character.
                        message.push(ESCAPE_CHAR);
                    }
                    message.push(byte);
                    i = i + 1;
                    assert(message@ =~= response(RES_GET_ATTR) + escape(attribute.take(i as int)));
                }
                assert(attribute.take(RECORD_LEN as int) =~= attribute);
                self.page_buffer = Some(page);
                assert(message@ == response(RES_GET_ATTR) + escape(attribute));
                proof {
                    lemma_escape_len(attribute);
                }
                transmit_message(buffer, message.as_slice())
            },
        }
    }

    /// The page of an attribute arrived, to be changed.
    fn attribute_set(&mut self, index: u8, page: Vec<u8>) -> (action: Action<Vec<u8>>)
        requires
            old(self)@.wf(),
            old(self)@.state == (State::SetAttribute { index }),
            old(self)@.page_suffices(),
            page@.len() == old(self)@.page_len,
        ensures
            (final(self)@, action@) == old(self)@.read_complete(page@),
    {
        match &self.buffer {
            None => Action::Idle,
            Some(buffer) => {
                let address: usize = self.attributes_address + index as usize * RECORD_LEN;
                let page_number: usize = address / page.len();
                let offset: usize = address % page.len();
                let mut page = page;
                let record = vstd::slice::slice_subrange(buffer.as_slice(), 0, RECORD_LEN);
                copy_into(&mut page, offset, record);
                Action::WritePage { page_number, page }
            },
        }
    }

    /// The page of the start address arrived, to be changed.
    fn start_address_set(&mut self, address: u32, page: Vec<u8>) -> (action: Action<Vec<u8>>)
        requires
            old(self)@.wf(),
            old(self)@.state == (State::SetStartAddress { address }),
            old(self)@.page_suffices(),
            page@.len() == old(self)@.page_len,
        ensures
            (final(self)@, action@) == old(self)@.read_complete(page@),
    {
        let at: usize = self.flags_address + START_OFFSET;
        let page_number: usize = at / page.len();
        let offset: usize = at % page.len();
        let mut page = page;
        copy_into(&mut page, offset, to_le_bytes(address).as_slice());
        Action::WritePage { page_number, page }
    }

    /// A page of a range arrived: send what fits.
    fn range_read(
        &mut self,
        address: u32,
        length: u16,
        remaining_length: u16,
        page: Vec<u8>,
    ) -> (action: Action<Vec<u8>>)
        requires
            old(self)@.wf(),
            old(self)@.state == (State::ReadRange { address, length, remaining_length }),
            old(self)@.page_suffices(),
            page@.len() == old(self)@.page_len,
        ensures
            (final(self)@, action@) == old(self)@.read_complete(page@),
    {
        match self.buffer.take() {
            None => Action::Idle,
            Some(buffer) => {
                let mut buffer = buffer;
                let ghost before = buffer@;
                let room: usize = buffer.len();
                let mut index: usize = 0;
                let ghost header = if length == remaining_length {
                    response(RES_READ_RANGE)
                } else {
                    Seq::empty()
                };
                if length == remaining_length {
                    buffer[0] = ESCAPE_CHAR;
                    buffer[1] = RES_READ_RANGE;
                    index = 2;
                }
                let page_size: usize = page.len();
                let offset: usize = address as usize % page_size;
                // Either the rest of the page or how much is left.
                let mut wanted: usize = page_size - offset;
                if wanted > remaining_length as usize {
                    wanted = remaining_length as usize;
                }
                let ghost bytes = page@.subrange(offset as int, offset + wanted);
                let mut copied: usize = 0;
                proof {
                    assert(bytes.take(0) =~= Seq::<u8>::empty());
                    assert(buffer@ =~= write_at(before, 0, header + escape(bytes.take(0))));
                }
                // Keep at least two open bytes in the buffer.
                while copied < wanted && index < room - 1
                    invariant
                        room >= 1,
                        room == before.len(),
                        buffer@.len() == room,
                        copied <= wanted,
                        offset + wanted <= page@.len() == page_size,
                        bytes == page@.subrange(offset as int, offset + wanted),
                        index <= room,
                        index == header.len() + escape(bytes.take(copied as int)).len(),
                        buffer@ == write_at(
                            before,
                            0,
                            header + escape(bytes.take(copied as int)),
                        ),
                        fitting(bytes, 0, header.len() as int, room as int) == copied + fitting(
                            bytes,
                            copied as int,
                            index as int,
                            room as int,
                        ),
                    decreases wanted - copied,
                {
                    let byte: u8 = page[offset + copied];
                    proof {
                        lemma_escape_push(bytes, copied as int);
                    }
                    if byte == ESCAPE_CHAR {
                        // Need to escape the escape character.
                        buffer[index] = ESCAPE_CHAR;
                        index = index + 1;
                    }
                    buffer[index] = byte;
                    index = index + 1;
                    copied = copied + 1;
                    assert(buffer@ =~= write_at(
                        before,
                        0,
                        header + escape(bytes.take(copied as int)),
                    ));
                }
                self.state = State::ReadRange {
                    address: address.wrapping_add(copied as u32),
                    length,
                    remaining_length: remaining_length - copied as u16,
                };
                self.page_buffer = Some(page);
                Action::Transmit { buffer, len: index }
            },
        }
    }

    /// A page to checksum arrived.
    fn crc_read(&mut self, address: u32, remaining_length: u32, crc: u32, page: Vec<u8>) -> (action:
        Action<Vec<u8>>)
        requires
            old(self)@.wf(),
            old(self)@.state == (State::Crc { address, remaining_length, crc }),
            page@.len() == old(self)@.page_len,
            sendable(old(self)@.read_complete(page@)),
        ensures
            (final(self)@, action@) == old(self)@.read_complete(page@),
    {
        let page_size: usize = page.len();
        let offset: usize = address as usize % page_size;
        let mut count: usize = page_size - offset;
        if count as u64 > remaining_length as u64 {
            count = remaining_length as usize;
        }
        let next_crc: u32 = update(crc, page.as_slice(), offset, offset + count);
        if count == remaining_length as usize {
            self.state = State::Idle;
            match self.buffer.take() {
                None => Action::Idle,
                Some(buffer) => {
                    let value = to_le_bytes(next_crc ^ 0xFFFF_FFFF);
                    let message = [
                        ESCAPE_CHAR,
                        RES_CRCIF,
                        value[0],
                        value[1],
                        value[2],
                        value[3],
                    ];
                    assert(message@ =~= response(RES_CRCIF) + le_bytes(next_crc ^ 0xFFFF_FFFF));
                    self.page_buffer = Some(page);
                    transmit_message(buffer, message.as_slice())
                },
            }
        } else {
            let next_address: u32 = address.wrapping_add(count as u32);
            self.state = State::Crc {
                address: next_address,
                remaining_length: remaining_length - count as u32,
                crc: next_crc,
            };
            Action::ReadPage { page_number: next_address as usize / page_size, page }
        }
    }

    /// A page arrived from flash.
    pub fn read_complete(&mut self, page: Vec<u8>) -> (action: Action<Vec<u8>>)
        requires
            old(self)@.wf(),
            page@.len() == old(self)@.page_len,
            old(self)@.page_suffices(),
            old(self)@.state !is ReadRange ==> sendable(old(self)@.read_complete(page@)),
        ensures
            (final(self)@, action@) == old(self)@.read_complete(page@),
            final(self)@.wf(),
    {
        match self.state {
            State::Info => self.info_read(page),
            State::GetAttribute { index } => self.attribute_read(index, page),
            State::SetAttribute { index } => self.attribute_set(index, page),
            State::SetStartAddress { address } => self.start_address_set(address, page),
            State::ReadRange { address, length, remaining_length } => self.range_read(
                address,
                length,
                remaining_length,
                page,
            ),
            State::Crc { address, remaining_length, crc } => self.crc_read(
                address,
                remaining_length,
                crc,
                page,
            ),
            _ => Action::Idle,
        }
    }

    /// A page was written.
    pub fn write_complete(&mut self, page: Vec<u8>) -> (action: Action<Vec<u8>>)
        requires
            old(self)@.wf(),
            page@.len() == old(self)@.page_len,
            sendable(old(self)@.write_complete(page@)),
        ensures
            (final(self)@, action@) == old(self)@.write_complete(page@),
            final(self)@.wf(),
    {
        self.page_buffer = Some(page);
        match self.state {
            State::WriteFlashPage | State::SetAttribute { .. } | State::SetStartAddress { .. } => {
                self.state = State::Idle;
                let message = [ESCAPE_CHAR, RES_OK];
                assert(message@ =~= response(RES_OK));
                self.send_response(message.as_slice())
            },
            _ => self.start(),
        }
    }

    /// A page was erased.
    pub fn erase_complete(&mut self) -> (action: Action<Vec<u8>>)
        requires
            old(self)@.wf(),
            sendable(old(self)@.erase_complete()),
        ensures
            (final(self)@, action@) == old(self)@.erase_complete(),
            final(self)@.wf(),
    {
        match self.state {
            State::ErasePage => {
                self.state = State::Idle;
                let message = [ESCAPE_CHAR, RES_OK];
                assert(message@ =~= response(RES_OK));
                self.send_response(message.as_slice())
            },
            _ => self.start(),
        }
    }
}

} // verus!

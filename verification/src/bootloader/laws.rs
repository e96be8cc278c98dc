//! What the server promises as a whole.

use vstd::prelude::*;

use crate::actions::{sendable, transmit, Action};
use crate::bootloader::entry::{entry, is_kernel_address, Entry, ERASED_WORD};
use crate::bootloader::model::{
    escape, escape_byte, fitting, record, response, BootModel, Incoming, Outcome,
    ReceptionOutcome,
};
use crate::bootloader::protocol::{
    Command, Decoded, Decoder, Reception, State, ESCAPE_CHAR, INFO_LEN, RECORD_LEN, RES_BADADDR,
    RES_CRCIF, RES_GET_ATTR, RES_OK, RES_READ_RANGE, START_OFFSET,
};
use crate::bootloader::server::{lemma_escape_len, lemma_fitting, reception_sendable};
use crate::bytes::{law_le_round_trip, le_bytes, le_u32, write_at};
use crate::crc::{crc32, crc_of_bytes, law_crc_in_pieces, CRC_SEED};
use crate::flash::{lemma_page_part, lemma_written_page, page_at, written};
use crate::paging::{lemma_join, lemma_page_order, lemma_split, lemma_start_order};

verus! {

// -- What the host sees of data --------------------------------------------

/// What a host makes of escaped data.
pub open spec fn unescape(bytes: Seq<u8>) -> Seq<u8>
    decreases bytes.len(),
{
    if bytes.len() == 0 {
        Seq::empty()
    } else if bytes[0] == ESCAPE_CHAR && bytes.len() > 1 {
        seq![bytes[1]] + unescape(bytes.skip(2))
    } else {
        seq![bytes[0]] + unescape(bytes.skip(1))
    }
}

/// Escaping is done byte by byte, so it can be done in parts.
pub proof fn law_escape_in_parts(head: Seq<u8>, tail: Seq<u8>)
    ensures
        escape(head + tail) == escape(head) + escape(tail),
    decreases tail.len(),
{
    if tail.len() == 0 {
        assert(head + tail =~= head);
        assert(escape(head) + escape(tail) =~= escape(head));
    } else {
        law_escape_in_parts(head, tail.drop_last());
        assert((head + tail).drop_last() =~= head + tail.drop_last());
        assert(escape(head + tail) =~= escape(head) + escape(tail));
    }
}

/// Escaping one byte.
proof fn lemma_escape_one(byte: u8)
    ensures
        escape(seq![byte]) == escape_byte(byte),
{
    let rest = seq![byte].drop_last();
    assert(rest =~= Seq::<u8>::empty());
    assert(escape(rest) =~= Seq::<u8>::empty());
    assert(escape(seq![byte]) =~= escape_byte(byte));
}

/// The host can undo the escaping, whatever the data.
pub proof fn law_escaping_can_be_undone(bytes: Seq<u8>)
    ensures
        unescape(escape(bytes)) == bytes,
    decreases bytes.len(),
{
    if bytes.len() > 0 {
        let first = seq![bytes[0]];
        let rest = bytes.drop_first();
        assert(bytes =~= first + rest);
        law_escape_in_parts(first, rest);
        lemma_escape_one(bytes[0]);
        law_escaping_can_be_undone(rest);
        let all = escape(bytes);
        if bytes[0] == ESCAPE_CHAR {
            assert(all.skip(2) =~= escape(rest));
        } else {
            assert(all.skip(1) =~= escape(rest));
        }
    }
}

// -- Decoding ---------------------------------------------------------------

/// Does a result leave the message undecided?
pub open spec fn undecided(result: Decoded<Seq<u8>>) -> bool {
    result is Nothing || result == Decoded::Command(Command::<Seq<u8>>::Reset)
}

/// The server after the decoder has reported `results`, one per byte.
pub open spec fn fed(model: BootModel, results: Seq<Decoded<Seq<u8>>>) -> ReceptionOutcome
    decreases results.len(),
{
    if results.len() == 0 {
        (model, Reception::Act(Action::Idle))
    } else {
        fed(model, results.drop_last()).0.decoded(results.last())
    }
}

/// The decoder is given the bytes of a message in order until one decides: as
/// long as none has, the next byte asked about is the next byte of the
/// message, and past its end the server listens again and nothing has
/// happened.
pub proof fn law_bytes_are_decoded_in_order(
    model: BootModel,
    buffer: Seq<u8>,
    len: usize,
    results: Seq<Decoded<Seq<u8>>>,
)
    requires
        0 < len <= buffer.len(),
        0 < results.len() <= len,
        forall|i: int| 0 <= i < results.len() ==> #[trigger] undecided(results[i]),
    ensures
        ({
            let received = model.message_received(buffer, len, true);
            let after = fed(received.0, results);
            let decoder = if results.last() is Nothing {
                Decoder::Same
            } else {
                Decoder::Reset
            };
            &&& received.1 == (Reception::Decode::<Seq<u8>> {
                decoder: Decoder::Fresh,
                byte: buffer[0],
            })
            &&& results.len() < len ==> after == (
                BootModel {
                    incoming: Some(Incoming { buffer, len, at: results.len() as usize }),
                    ..model
                },
                Reception::Decode::<Seq<u8>> { decoder, byte: buffer[results.len() as int] },
            )
            &&& results.len() == len ==> after == (
                BootModel { incoming: None, ..model },
                Reception::Act(Action::Listen { buffer }),
            )
        }),
    decreases results.len(),
{
    let received = model.message_received(buffer, len, true).0;
    let before = results.drop_last();
    assert(undecided(results[results.len() - 1]));
    if before.len() > 0 {
        assert forall|i: int| 0 <= i < before.len() implies #[trigger] undecided(before[i]) by {
            assert(undecided(results[i]));
        }
        law_bytes_are_decoded_in_order(model, buffer, len, before);
    } else {
        assert(fed(received, before).0 == received);
    }
}

// -- Protection -------------------------------------------------------------

/// A page the bootloader's own bookkeeping lives in: that of an attribute
/// record, or that of the kernel's start address.
pub open spec fn is_own_page(model: BootModel, page_number: int) -> bool {
    let page_len = model.page_len as int;
    ||| exists|index: u8| page_number == #[trigger] model.attribute_at(index) / page_len
    ||| page_number == (model.flags_address + START_OFFSET) / page_len
}

/// No command writes or erases below the protected end: whatever a command
/// has written or erased is at or above it.
pub proof fn law_commands_respect_the_protected_end(
    model: BootModel,
    buffer: Seq<u8>,
    command: Command<Seq<u8>>,
)
    requires
        model.wf(),
        model.protected_end as int % model.page_size() == 0,
    ensures
        ({
            let (_, action) = model.execute(buffer, command);
            &&& action matches Action::WritePage { page_number, .. } ==> model.protected_end
                <= page_number * model.page_size()
            &&& action matches Action::ErasePage { page_number } ==> model.protected_end
                <= page_number * model.page_size()
        }),
{
    let size = model.page_size();
    let end = model.protected_end as int;
    match command {
        Command::WritePage { address, .. } | Command::ErasePage { address } => {
            if address >= model.protected_end {
                let at = address as int;
                lemma_split(end, size);
                lemma_split(at, size);
                lemma_page_order(end, at, size);
                lemma_start_order(end / size, at / size, size);
            }
        },
        _ => {},
    }
}

/// A write or an erase aimed below the protected end is answered with "bad
/// address", and the flash is left alone.
pub proof fn law_bad_address_is_refused(
    model: BootModel,
    buffer: Seq<u8>,
    address: u32,
    data: Seq<u8>,
)
    requires
        model.wf(),
        model.page_buffer is Some,
        address < model.protected_end,
        data.len() == model.page_len,
    ensures
        model.execute(buffer, Command::WritePage { address, data }) == (
            BootModel { state: State::Idle, ..model },
            transmit(buffer, response(RES_BADADDR)),
        ),
        model.execute(buffer, Command::ErasePage { address }) == (
            BootModel { state: State::Idle, ..model },
            transmit(buffer, response(RES_BADADDR)),
        ),
{
}

/// A page that arrives is written back only to where the bootloader's own
/// bookkeeping lives, and only on a request to change that.
pub proof fn law_pages_read_go_back_only_to_own_pages(model: BootModel, page: Seq<u8>)
    requires
        model.wf(),
        page.len() == model.page_len,
    ensures
        model.read_complete(page).1 matches Action::WritePage { page_number, .. } ==> {
            &&& model.state is SetAttribute || model.state is SetStartAddress
            &&& is_own_page(model, page_number as int)
        },
        model.read_complete(page).1 !is ErasePage,
{
    let page_len = model.page_len as int;
    match model.state {
        State::SetAttribute { index } => {
            lemma_split(model.attribute_at(index), page_len);
        },
        State::SetStartAddress { .. } => {
            lemma_split(model.flags_address + START_OFFSET, page_len);
        },
        _ => {},
    }
}

// -- Reading a range --------------------------------------------------------

/// Everything sent of a range, from a page on its way from flash: the page is
/// sent as far as it fits, and then the next one is read.
pub open spec fn range_sent(
    model: BootModel,
    page_number: int,
    flash: Seq<u8>,
    messages: nat,
) -> (Seq<u8>, Outcome)
    decreases messages,
{
    let (sending, action) = model.read_complete(
        page_at(flash, page_number, model.page_len as int),
    );
    match action {
        Action::Transmit { buffer, len } => {
            let (next, then) = sending.message_transmitted(buffer, true);
            match then {
                Action::ReadPage { page_number: next_page, page: _ } => if messages == 0 {
                    (buffer.take(len as int), (next, then))
                } else {
                    let (rest, end) = range_sent(
                        next,
                        next_page as int,
                        flash,
                        (messages - 1) as nat,
                    );
                    (buffer.take(len as int) + rest, end)
                },
                _ => (buffer.take(len as int), (next, then)),
            }
        },
        _ => (Seq::empty(), (sending, action)),
    }
}

/// How much of a message a part of a range takes.
pub proof fn lemma_part_fits(bytes: Seq<u8>, from: int, used: int, room: int)
    requires
        0 <= from <= bytes.len(),
        used <= room,
    ensures
        used + escape(bytes.subrange(from, from + fitting(bytes, from, used, room))).len() <= room,
    decreases bytes.len() - from,
{
    let count = fitting(bytes, from, used, room);
    lemma_fitting(bytes, from, used, room);
    if count == 0 {
        assert(bytes.subrange(from, from) =~= Seq::<u8>::empty());
    } else {
        let first = seq![bytes[from]];
        let size = escape_byte(bytes[from]).len() as int;
        lemma_part_fits(bytes, from + 1, used + size, room);
        let rest = bytes.subrange(from + 1, from + count);
        assert(bytes.subrange(from, from + count) =~= first + rest);
        law_escape_in_parts(first, rest);
        lemma_escape_one(bytes[from]);
    }
}

/// One message of a range: how many bytes of the range it carries, and what
/// comes after it.
proof fn lemma_range_message(model: BootModel, flash: Seq<u8>, page_number: int) -> (count: int)
    requires
        model.wf(),
        model.state is ReadRange,
        model.buffer is Some,
        4 <= model.buffer->0.len() <= usize::MAX,
        page_number == model.state->ReadRange_address as int / (model.page_len as int),
        model.state->ReadRange_remaining_length <= model.state->length,
        model.state->ReadRange_address < flash.len(),
        model.state->ReadRange_address + model.state->ReadRange_remaining_length <= flash.len()
            <= u32::MAX,
        flash.len() as int % (model.page_len as int) == 0,
    ensures
        ({
            let address = model.state->ReadRange_address as int;
            let length = model.state->length;
            let remaining = model.state->ReadRange_remaining_length as int;
            let header = if length == remaining {
                response(RES_READ_RANGE)
            } else {
                Seq::empty()
            };
            let message = header + escape(flash.subrange(address, address + count));
            let buffer = write_at(model.buffer->0, 0, message);
            let (sending, action) = model.read_complete(
                page_at(flash, page_number, model.page_len as int),
            );
            let (next, then) = sending.message_transmitted(buffer, true);
            &&& 0 <= count <= remaining
            &&& remaining > 0 ==> count > 0
            &&& message.len() <= buffer.len() == model.buffer->0.len()
            &&& buffer.take(message.len() as int) == message
            &&& action == transmit(model.buffer->0, message)
            &&& count == remaining ==> next.state is Idle && then is Listen
            &&& count < remaining ==> {
                &&& next.wf()
                &&& next.buffer == Some(buffer)
                &&& next.page_len == model.page_len
                &&& next.state == (State::ReadRange {
                    address: (address + count) as u32,
                    length,
                    remaining_length: (remaining - count) as u16,
                })
                &&& then matches Action::ReadPage { page_number: next_page, page: _ }
                &&& next_page == (address + count) / (model.page_len as int)
            }
        }),
{
    let address = model.state->ReadRange_address as int;
    let length = model.state->length;
    let remaining = model.state->ReadRange_remaining_length as int;
    let page_len = model.page_len as int;
    let offset = address % page_len;
    let room = model.buffer->0.len() as int;
    let header = if length == remaining {
        response(RES_READ_RANGE)
    } else {
        Seq::empty()
    };
    lemma_split(address, page_len);
    let wanted = if page_len - offset <= remaining {
        page_len - offset
    } else {
        remaining
    };
    lemma_page_part(flash, address, wanted, page_len);
    let page = page_at(flash, page_number, page_len);
    let bytes = page.subrange(offset, offset + wanted);
    let count = fitting(bytes, 0, header.len() as int, room);
    lemma_fitting(bytes, 0, header.len() as int, room);
    lemma_part_fits(bytes, 0, header.len() as int, room);
    assert(bytes.subrange(0, count) =~= bytes.take(count));
    assert(bytes.take(count) =~= flash.subrange(address, address + count));
    let message = header + escape(bytes.take(count));
    let buffer = write_at(model.buffer->0, 0, message);
    assert(buffer.take(message.len() as int) =~= message);
    if remaining > 0 {
        assert(count >= 1) by {
            assert(bytes.len() > 0);
            assert(header.len() < room - 1);
            let size = escape_byte(bytes[0]).len() as int;
            lemma_fitting(bytes, 1, header.len() + size, room);
        }
    }
    lemma_split(address + count, page_len);
    count
}

/// Reading a range sends a header once and then exactly the bytes of the
/// range, escaped, over as many messages as it takes, and the server listens
/// again at the end. A message buffer of four bytes is enough.
pub proof fn law_range_is_sent_in_full(
    model: BootModel,
    flash: Seq<u8>,
    page_number: int,
    messages: nat,
)
    requires
        model.wf(),
        model.state is ReadRange,
        model.buffer is Some,
        4 <= model.buffer->0.len() <= usize::MAX,
        page_number == model.state->ReadRange_address as int / (model.page_len as int),
        model.state->ReadRange_remaining_length <= model.state->length,
        model.state->ReadRange_address < flash.len(),
        model.state->ReadRange_address + model.state->ReadRange_remaining_length <= flash.len()
            <= u32::MAX,
        flash.len() as int % (model.page_len as int) == 0,
        messages >= model.state->ReadRange_remaining_length,
    ensures
        ({
            let address = model.state->ReadRange_address as int;
            let remaining = model.state->ReadRange_remaining_length as int;
            let header = if model.state->length == remaining {
                response(RES_READ_RANGE)
            } else {
                Seq::empty()
            };
            let (sent, end) = range_sent(model, page_number, flash, messages);
            &&& sent == header + escape(flash.subrange(address, address + remaining))
            &&& end.0.state is Idle
            &&& end.1 is Listen
        }),
    decreases messages,
{
    let address = model.state->ReadRange_address as int;
    let remaining = model.state->ReadRange_remaining_length as int;
    let page_len = model.page_len as int;
    let header = if model.state->length == remaining {
        response(RES_READ_RANGE)
    } else {
        Seq::empty()
    };
    let count = lemma_range_message(model, flash, page_number);
    if count < remaining {
        let head = flash.subrange(address, address + count);
        let tail = flash.subrange(address + count, address + remaining);
        let buffer = write_at(model.buffer->0, 0, header + escape(head));
        let sending = model.read_complete(page_at(flash, page_number, page_len)).0;
        let next = sending.message_transmitted(buffer, true).0;
        law_range_is_sent_in_full(
            next,
            flash,
            (address + count) / page_len,
            (messages - 1) as nat,
        );
        law_escape_in_parts(head, tail);
        assert(head + tail =~= flash.subrange(address, address + remaining));
        assert(header + escape(head) + (Seq::<u8>::empty() + escape(tail)) =~= header + escape(
            flash.subrange(address, address + remaining),
        ));
    }
}

/// What a page write puts in flash is what reading it back sends: any part of
/// the page, escaped, under the header of a range.
pub proof fn law_range_gives_back_the_page_written(
    model: BootModel,
    buffer: Seq<u8>,
    address: u32,
    data: Seq<u8>,
    flash: Seq<u8>,
    question: Seq<u8>,
    offset: int,
    length: u16,
    messages: nat,
)
    requires
        model.wf(),
        model.page_buffer is Some,
        data.len() == model.page_len,
        model.protected_end <= address < flash.len() <= u32::MAX,
        flash.len() as int % (model.page_len as int) == 0,
        4 <= question.len() <= usize::MAX,
        0 <= offset < model.page_len,
        offset + length <= model.page_len,
        messages >= length,
    ensures
        ({
            let page_number = address as int / (model.page_len as int);
            let start = page_number * model.page_len;
            let (writing, write) = model.execute(buffer, Command::WritePage { address, data });
            let after = written(flash, page_number, data);
            let (idle, answer) = writing.write_complete(data);
            let (reading, read) = idle.execute(
                question,
                Command::ReadRange { address: (start + offset) as u32, length },
            );
            let (sent, end) = range_sent(reading, page_number, after, messages);
            &&& write == (Action::WritePage { page_number: page_number as usize, page: data })
            &&& answer == transmit(buffer, response(RES_OK))
            &&& read == (Action::ReadPage { page_number: page_number as usize, page: data })
            &&& sent == response(RES_READ_RANGE) + escape(data.subrange(offset, offset + length))
            &&& end.0.state is Idle
            &&& end.1 is Listen
        }),
{
    let page_len = model.page_len as int;
    let page_number = address as int / page_len;
    let start = page_number * page_len;
    lemma_page_part(flash, address as int, 0, page_len);
    lemma_written_page(flash, page_number, data, page_number);
    let after = written(flash, page_number, data);
    lemma_join(start + offset, page_number, offset, page_len);
    let (writing, _) = model.execute(buffer, Command::WritePage { address, data });
    let (idle, _) = writing.write_complete(data);
    let (reading, _) = idle.execute(
        question,
        Command::ReadRange { address: (start + offset) as u32, length },
    );
    law_range_is_sent_in_full(reading, after, page_number, messages);
    assert(after.subrange(start + offset, start + offset + length) =~= data.subrange(
        offset,
        offset + length,
    )) by {
        assert forall|i: int| 0 <= i < length implies #[trigger] after.subrange(
            start + offset,
            start + offset + length,
        )[i] == data.subrange(offset, offset + length)[i] by {
            assert(page_at(after, page_number, page_len)[offset + i] == after[start + (offset
                + i)]);
        }
    }
}

// -- Buffers ----------------------------------------------------------------

/// Do the flags, and each of the attribute records, lie within one page?
pub open spec fn laid_out(model: BootModel) -> bool {
    &&& model.flags_address as int % (model.page_len as int) + START_OFFSET + 4 <= model.page_len
    &&& model.attributes_address as int % (RECORD_LEN as int) == 0
    &&& model.page_len as int % (RECORD_LEN as int) == 0
}

/// A record among records that start at a multiple of their length, in a page
/// of so many of them, ends within the page.
proof fn lemma_record_in_page(at: int, page_len: int)
    requires
        0 <= at,
        at % 64 == 0,
        0 < page_len,
        page_len % 64 == 0,
    ensures
        at % page_len + 64 <= page_len,
{
    let rest = at % page_len;
    let q = at / page_len;
    let m = page_len / 64;
    lemma_split(at, page_len);
    assert(q * page_len == 64 * (q * m)) by (nonlinear_arith)
        requires
            page_len == 64 * m,
    ;
    assert(rest == 64 * (at / 64 - q * m));
}

/// Every answer fits, and every page suffices, whatever the server is doing:
/// it is enough that the flags and the records are laid out in pages and that
/// message buffers are as long as the longest answer.
pub proof fn law_answers_fit(model: BootModel, result: Decoded<Seq<u8>>, page: Seq<u8>)
    requires
        model.wf(),
        laid_out(model),
        page.len() == model.page_len,
        model.buffer matches Some(buffer) ==> INFO_LEN <= buffer.len() <= usize::MAX,
        model.incoming matches Some(incoming) ==> INFO_LEN <= incoming.buffer.len() <= usize::MAX,
    ensures
        reception_sendable(model.decoded(result)),
        model.page_suffices(),
        sendable(model.read_complete(page)),
        sendable(model.write_complete(page)),
        sendable(model.erase_complete()),
{
    let page_len = model.page_len as int;
    match model.state {
        State::GetAttribute { index } => {
            lemma_record_in_page(model.attribute_at(index), page_len);
            let offset = model.attribute_at(index) % page_len;
            lemma_escape_len(page.subrange(offset, offset + RECORD_LEN));
        },
        State::SetAttribute { index } => {
            lemma_record_in_page(model.attribute_at(index), page_len);
        },
        State::SetStartAddress { .. } => {
            let flags = model.flags_address as int;
            lemma_split(flags, page_len);
            lemma_join(
                flags + START_OFFSET,
                flags / page_len,
                flags % page_len + START_OFFSET,
                page_len,
            );
        },
        State::ReadRange { address, length, remaining_length } => {
            if model.buffer is Some {
                let room = model.buffer->0.len() as int;
                let used = if length == remaining_length {
                    2int
                } else {
                    0
                };
                let offset = address as int % page_len;
                lemma_split(address as int, page_len);
                let wanted = if page_len - offset <= remaining_length {
                    page_len - offset
                } else {
                    remaining_length as int
                };
                let bytes = page.subrange(offset, offset + wanted);
                let count = fitting(bytes, 0, used, room);
                lemma_fitting(bytes, 0, used, room);
                lemma_part_fits(bytes, 0, used, room);
                assert(bytes.subrange(0, count) =~= bytes.take(count));
            }
        },
        _ => {},
    }
}

// -- Checksums --------------------------------------------------------------

/// What the server does about a checksum, from a page on its way from flash.
pub open spec fn checksummed(
    model: BootModel,
    page_number: int,
    flash: Seq<u8>,
    pages: nat,
) -> Outcome
    decreases pages,
{
    let (next, action) = model.read_complete(page_at(flash, page_number, model.page_len as int));
    match action {
        Action::ReadPage { page_number: next_page, page: _ } => if pages == 0 {
            (next, action)
        } else {
            checksummed(next, next_page as int, flash, (pages - 1) as nat)
        },
        _ => (next, action),
    }
}

/// A checksum request is answered with the CRC-32 of exactly the range, least
/// significant byte first. Stated of a running checksum; a request starts one
/// from the seed, so the answer is then the CRC-32 of the range.
pub proof fn law_checksum_is_of_the_range(
    model: BootModel,
    flash: Seq<u8>,
    page_number: int,
    pages: nat,
)
    requires
        model.wf(),
        model.state is Crc,
        model.buffer is Some,
        page_number == model.state->Crc_address as int / (model.page_len as int),
        model.state->Crc_address < flash.len(),
        model.state->Crc_address + model.state->Crc_remaining_length <= flash.len() <= u32::MAX,
        flash.len() as int % (model.page_len as int) == 0,
        pages >= model.state->Crc_remaining_length,
    ensures
        ({
            let address = model.state->Crc_address as int;
            let remaining = model.state->Crc_remaining_length as int;
            let range = flash.subrange(address, address + remaining);
            let (end, action) = checksummed(model, page_number, flash, pages);
            &&& end.state is Idle
            &&& action == transmit(
                model.buffer->0,
                response(RES_CRCIF) + le_bytes(
                    crc_of_bytes(model.state->crc, range) ^ 0xFFFF_FFFF,
                ),
            )
            &&& model.state->crc == CRC_SEED ==> action == transmit(
                model.buffer->0,
                response(RES_CRCIF) + le_bytes(crc32(range)),
            )
        }),
    decreases pages,
{
    let address = model.state->Crc_address as int;
    let remaining = model.state->Crc_remaining_length as int;
    let crc = model.state->crc;
    let page_len = model.page_len as int;
    let offset = address % page_len;
    lemma_split(address, page_len);
    let count = if page_len - offset <= remaining {
        page_len - offset
    } else {
        remaining
    };
    lemma_page_part(flash, address, count, page_len);
    let page = page_at(flash, page_number, page_len);
    let (next, action) = model.read_complete(page);
    if count < remaining {
        lemma_split(address + count, page_len);
        law_checksum_is_of_the_range(
            next,
            flash,
            (address + count) / page_len,
            (pages - 1) as nat,
        );
        law_crc_in_pieces(
            crc,
            flash.subrange(address, address + count),
            flash.subrange(address + count, address + remaining),
        );
        assert(flash.subrange(address, address + count) + flash.subrange(
            address + count,
            address + remaining,
        ) =~= flash.subrange(address, address + remaining));
    }
}

// -- The attribute table and the start address ------------------------------

/// The flash after a command that reads a page, changes it and writes it
/// back, and how it is answered.
pub open spec fn rewritten(
    model: BootModel,
    buffer: Seq<u8>,
    command: Command<Seq<u8>>,
    flash: Seq<u8>,
) -> (Outcome, Seq<u8>) {
    let (reading, action) = model.execute(buffer, command);
    match action {
        Action::ReadPage { page_number, page: _ } => {
            let (writing, then) = reading.read_complete(
                page_at(flash, page_number as int, model.page_len as int),
            );
            match then {
                Action::WritePage { page_number: target, page } => (
                    writing.write_complete(page),
                    written(flash, target as int, page),
                ),
                _ => ((writing, then), flash),
            }
        },
        _ => ((reading, action), flash),
    }
}

/// A page of a changed flash holds what it held, but for the bytes put over
/// it.
proof fn lemma_rewritten_bytes(
    flash: Seq<u8>,
    at: int,
    bytes: Seq<u8>,
    page_len: int,
)
    requires
        0 < page_len,
        0 <= at,
        0 < bytes.len(),
        at % page_len + bytes.len() <= page_len,
        at + bytes.len() <= flash.len(),
        flash.len() as int % page_len == 0,
    ensures
        ({
            let page = write_at(page_at(flash, at / page_len, page_len), at % page_len, bytes);
            let after = written(flash, at / page_len, page);
            &&& page.len() == page_len
            &&& after.len() == flash.len()
            &&& after.subrange(at, at + bytes.len()) == bytes
            &&& page_at(after, at / page_len, page_len) == page
        }),
{
    lemma_page_part(flash, at, bytes.len() as int, page_len);
    let page_number = at / page_len;
    let offset = at % page_len;
    let page = write_at(page_at(flash, page_number, page_len), offset, bytes);
    let after = written(flash, page_number, page);
    lemma_written_page(flash, page_number, page, page_number);
    assert forall|i: int| 0 <= i < bytes.len() implies #[trigger] after[at + i] == bytes[i] by {
        assert(page_at(after, page_number, page_len)[offset + i] == after[page_number * page_len
            + (offset + i)]);
    }
    assert(after.subrange(at, at + bytes.len()) =~= bytes);
}

/// Setting an attribute puts the record in flash and is answered "ok".
pub proof fn law_set_attribute_stores_the_record(
    model: BootModel,
    buffer: Seq<u8>,
    index: u8,
    key: Seq<u8>,
    value: Seq<u8>,
    flash: Seq<u8>,
)
    requires
        model.wf(),
        model.page_buffer is Some,
        buffer.len() >= RECORD_LEN,
        model.attribute_at(index) % (model.page_len as int) + RECORD_LEN <= model.page_len,
        model.attribute_at(index) + RECORD_LEN <= flash.len(),
        flash.len() as int % (model.page_len as int) == 0,
    ensures
        ({
            let at = model.attribute_at(index);
            let (outcome, after) = rewritten(
                model,
                buffer,
                Command::SetAttr { index, key, value },
                flash,
            );
            let waiting = write_at(buffer, 0, record(key, value));
            &&& after.len() == flash.len()
            &&& after.subrange(at, at + RECORD_LEN) == record(key, value)
            &&& outcome.0.state is Idle
            &&& outcome.1 == transmit(waiting, response(RES_OK))
        }),
{
    let at = model.attribute_at(index);
    let page_len = model.page_len as int;
    let waiting = write_at(buffer, 0, record(key, value));
    assert(waiting.take(RECORD_LEN as int) =~= record(key, value));
    lemma_page_part(flash, at, RECORD_LEN as int, page_len);
    lemma_rewritten_bytes(flash, at, record(key, value), page_len);
}

/// Reading an attribute answers with its record in flash.
pub proof fn law_get_attribute_shows_the_record(
    model: BootModel,
    buffer: Seq<u8>,
    index: u8,
    flash: Seq<u8>,
)
    requires
        model.wf(),
        model.page_buffer is Some,
        model.attribute_at(index) % (model.page_len as int) + RECORD_LEN <= model.page_len,
        model.attribute_at(index) + RECORD_LEN <= flash.len(),
        flash.len() as int % (model.page_len as int) == 0,
    ensures
        ({
            let at = model.attribute_at(index);
            let (outcome, after) = rewritten(model, buffer, Command::GetAttr { index }, flash);
            &&& after == flash
            &&& outcome.1 == transmit(
                buffer,
                response(RES_GET_ATTR) + escape(flash.subrange(at, at + RECORD_LEN)),
            )
        }),
{
    let at = model.attribute_at(index);
    lemma_page_part(flash, at, RECORD_LEN as int, model.page_len as int);
}

/// What is set as an attribute is what reading it gives back: the key, the
/// length of the value, the value, and zeros.
pub proof fn law_get_attribute_gives_back_the_set(
    model: BootModel,
    buffer: Seq<u8>,
    index: u8,
    key: Seq<u8>,
    value: Seq<u8>,
    flash: Seq<u8>,
    question: Seq<u8>,
)
    requires
        model.wf(),
        model.page_buffer is Some,
        buffer.len() >= RECORD_LEN,
        model.attribute_at(index) % (model.page_len as int) + RECORD_LEN <= model.page_len,
        model.attribute_at(index) + RECORD_LEN <= flash.len(),
        flash.len() as int % (model.page_len as int) == 0,
    ensures
        ({
            let (set, after) = rewritten(
                model,
                buffer,
                Command::SetAttr { index, key, value },
                flash,
            );
            let (got, _) = rewritten(set.0, question, Command::GetAttr { index }, after);
            got.1 == transmit(question, response(RES_GET_ATTR) + escape(record(key, value)))
        }),
{
    law_set_attribute_stores_the_record(model, buffer, index, key, value, flash);
    let (set, after) = rewritten(model, buffer, Command::SetAttr { index, key, value }, flash);
    let at = model.attribute_at(index);
    lemma_page_part(flash, at, RECORD_LEN as int, model.page_len as int);
    law_get_attribute_shows_the_record(set.0, question, index, after);
}

/// Setting the start address puts it where the entry decision looks for it: a
/// kernel programmed there is the one the next boot starts.
pub proof fn law_next_boot_starts_the_address_set(
    model: BootModel,
    buffer: Seq<u8>,
    address: u32,
    flash: Seq<u8>,
    kernel_region_start: u32,
)
    requires
        model.wf(),
        model.page_buffer is Some,
        model.flags_address as int % (model.page_len as int) + START_OFFSET + 4
            <= model.page_len,
        model.flags_address + START_OFFSET + 4 <= flash.len(),
        flash.len() as int % (model.page_len as int) == 0,
    ensures
        ({
            let (outcome, after) = rewritten(
                model,
                buffer,
                Command::SetStartAddress { address },
                flash,
            );
            &&& after.len() == flash.len()
            &&& le_u32(after, model.flags_address + START_OFFSET) == address
            &&& outcome.0.state is Idle
            &&& outcome.1 == transmit(buffer, response(RES_OK))
            &&& is_kernel_address(address, kernel_region_start) && le_u32(after, address as int)
                != ERASED_WORD ==> entry(
                false,
                after,
                model.flags_address as u32,
                kernel_region_start,
            ) == Entry::Jump(address)
        }),
{
    let page_len = model.page_len as int;
    let flags = model.flags_address as int;
    let at = flags + START_OFFSET;
    lemma_split(flags, page_len);
    lemma_join(at, flags / page_len, flags % page_len + START_OFFSET, page_len);
    lemma_page_part(flash, at, 4, page_len);
    lemma_rewritten_bytes(flash, at, le_bytes(address), page_len);
    law_le_round_trip(address);
    let (_, after) = rewritten(model, buffer, Command::SetStartAddress { address }, flash);
    let stored = after.subrange(at, at + 4);
    assert(stored == le_bytes(address));
    assert(forall|i: int| 0 <= i < 4 ==> after[at + i] == #[trigger] stored[i]);
    assert(le_u32(after, at) == le_u32(stored, 0)) by {
        assert(after[at] == stored[0]);
        assert(after[at + 1] == stored[1]);
        assert(after[at + 2] == stored[2]);
        assert(after[at + 3] == stored[3]);
    }
}

} // verus!

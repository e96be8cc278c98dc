//! What each command does, from the command to the answer on the wire.
//!
//! The laws here start with a command of the host and run the server together
//! with its flash until the host has its answer.

use vstd::prelude::*;

use crate::actions::{law_message_is_sent, sends, transmit, Action};
use crate::bootloader::laws::{
    checksummed, law_checksum_is_of_the_range, law_escape_in_parts, law_escaping_can_be_undone,
    law_get_attribute_shows_the_record, law_range_is_sent_in_full, lemma_part_fits, range_sent,
    rewritten, unescape,
};
use crate::bootloader::model::{
    escape, escape_byte, fitting, hex_byte, info_head, info_json, info_message, info_start,
    info_tail, record, response, until_zero, BootModel,
};
use crate::bootloader::protocol::{Command, Decoded, Decoder, Reception};
use crate::bootloader::server::{lemma_escape_len, lemma_fitting};
use crate::bytes::{law_bytes_say_the_integer, le_bytes, little_endian, write_at};
use crate::crc::crc32;
use crate::flash::{lemma_page_part, lemma_written_page, page_at, written};
use crate::paging::{lemma_join, lemma_split};

verus! {

/// Is the server ready for a command that needs a page, with all of the flash
/// in whole pages?
pub open spec fn at_hand(model: BootModel, flash: Seq<u8>) -> bool {
    &&& model.wf()
    &&& model.page_buffer is Some
    &&& flash.len() as int % (model.page_len as int) == 0
    &&& flash.len() <= u32::MAX
}

/// A response without data is two bytes on the wire.
proof fn lemma_response(buffer: Seq<u8>, code: u8)
    requires
        2 <= buffer.len(),
    ensures
        sends(transmit(buffer, response(code)), seq![0xFC, code]),
{
    law_message_is_sent(buffer, response(code));
}

/// A new server listens with its buffer, and has nothing at hand.
pub proof fn law_new_server_listens(
    page: Seq<u8>,
    buffer: Seq<u8>,
    flags_address: usize,
    attributes_address: usize,
    protected_end: u32,
)
    requires
        page.len() <= usize::MAX,
    ensures
        ({
            let fresh = BootModel::init(
                page,
                buffer,
                flags_address,
                attributes_address,
                protected_end,
            );
            let (next, action) = fresh.start();
            &&& action == (Action::Listen { buffer })
            &&& next.state is Idle
            &&& next.page_buffer == Some(page) && next.page_len == page.len()
            &&& next.buffer is None && next.incoming is None
            &&& next.flags_address == flags_address
            &&& next.attributes_address == attributes_address
            &&& next.protected_end == protected_end
        }),
{
}

/// Commands that need no flash: a ping is answered, an exit resets the board
/// and listens again should that return, and a command that is not offered is
/// answered as unknown.
pub proof fn law_commands_without_flash(model: BootModel, buffer: Seq<u8>)
    requires
        2 <= buffer.len(),
    ensures
        sends(model.execute(buffer, Command::Ping).1, seq![0xFC, 0x11]),
        model.execute(buffer, Command::Exit) == (model, Action::Reset { then: Some(buffer) }),
        sends(model.execute(buffer, Command::Other).1, seq![0xFC, 0x16]),
        model.execute(buffer, Command::Ping).0 == (BootModel { buffer: None, ..model }),
        model.execute(buffer, Command::Other).0 == (BootModel { buffer: None, ..model }),
{
    lemma_response(buffer, 0x11);
    lemma_response(buffer, 0x16);
}

/// A message that cannot be decoded is answered: bad arguments as such, and any
/// other trouble as an internal error.
pub proof fn law_undecodable_message_is_answered(model: BootModel)
    requires
        model.incoming is Some && 2 <= model.incoming->0.buffer.len(),
    ensures
        ({
            let (next, bad) = model.decoded(Decoded::BadArguments);
            let (other, failed) = model.decoded(Decoded::Failed);
            &&& bad matches Reception::Act(action) && sends(action, seq![0xFC, 0x14])
            &&& failed matches Reception::Act(trouble) && sends(trouble, seq![0xFC, 0x13])
            &&& next == (BootModel { incoming: None, buffer: None, ..model })
            &&& other == next
        }),
{
    lemma_response(model.incoming->0.buffer, 0x14);
    lemma_response(model.incoming->0.buffer, 0x13);
}

/// A command that has been decoded is carried out with the buffer it came in.
pub proof fn law_command_is_carried_out(model: BootModel, command: Command<Seq<u8>>)
    requires
        model.incoming is Some,
        !(command is Reset),
    ensures
        ({
            let (next, reception) = model.decoded(Decoded::Command(command));
            let (done, action) = BootModel { incoming: None, ..model }.execute(
                model.incoming->0.buffer,
                command,
            );
            next == done && reception == Reception::Act(action)
        }),
{
}

/// After an answer the server listens again; one that could not be sent is the
/// end of it.
pub proof fn law_server_listens_after_an_answer(model: BootModel, buffer: Seq<u8>)
    requires
        !(model.state is ReadRange),
    ensures
        model.message_transmitted(buffer, true) == (model, Action::Listen { buffer }),
        model.message_transmitted(buffer, false) == (model, Action::<Seq<u8>>::Idle),
{
}

// -- Reading ----------------------------------------------------------------

/// ReadRange: the host gets FC 20 and then exactly the bytes of the range that
/// the command names, escaped, over as many messages as it takes. What the host
/// makes of them is the range.
pub proof fn law_read_range_sends_the_range(
    model: BootModel,
    flash: Seq<u8>,
    buffer: Seq<u8>,
    address: u32,
    length: u16,
)
    requires
        at_hand(model, flash),
        4 <= buffer.len() <= usize::MAX,
        address < flash.len(),
        address + length <= flash.len(),
    ensures
        ({
            let page = address as int / (model.page_len as int);
            let range = flash.subrange(address as int, address + length);
            let (reading, read) = model.execute(buffer, Command::ReadRange { address, length });
            let (sent, end) = range_sent(reading, page, flash, length as nat);
            &&& read == (Action::ReadPage {
                page_number: page as usize,
                page: model.page_buffer->0,
            })
            &&& sent[0] == 0xFC && sent[1] == 0x20
            &&& sent.skip(2) == escape(range)
            &&& unescape(sent.skip(2)) == range
            &&& end.0.state is Idle
            &&& end.1 is Listen
        }),
{
    let range = flash.subrange(address as int, address + length);
    let page = address as int / (model.page_len as int);
    let (reading, _) = model.execute(buffer, Command::ReadRange { address, length });
    law_range_is_sent_in_full(reading, flash, page, length as nat);
    let sent = range_sent(reading, page, flash, length as nat).0;
    assert(sent.skip(2) =~= escape(range));
    law_escaping_can_be_undone(range);
}

/// What escaping does: every 0xFC is doubled, and nothing else happens.
pub proof fn law_escaping_doubles_the_escape(bytes: Seq<u8>, byte: u8)
    ensures
        escape(Seq::<u8>::empty()) == Seq::<u8>::empty(),
        escape(bytes.push(byte)) == escape(bytes) + if byte == 0xFC {
            seq![0xFCu8, 0xFC]
        } else {
            seq![byte]
        },
{
    assert(bytes.push(byte).drop_last() =~= bytes);
}

/// CrcIntFlash: the host gets FC 23 and the CRC-32 of exactly the bytes that
/// the command names, least significant byte first, however many there are.
pub proof fn law_crc_is_of_the_range_asked_for(
    model: BootModel,
    flash: Seq<u8>,
    buffer: Seq<u8>,
    address: u32,
    length: u32,
)
    requires
        at_hand(model, flash),
        6 <= buffer.len(),
        address < flash.len(),
        address + length <= flash.len(),
    ensures
        ({
            let page = address as int / (model.page_len as int);
            let (reading, read) = model.execute(
                buffer,
                Command::CrcIntFlash { address, length },
            );
            let (end, answer) = checksummed(reading, page, flash, length as nat);
            &&& read == (Action::ReadPage {
                page_number: page as usize,
                page: model.page_buffer->0,
            })
            &&& end.state is Idle
            &&& answer matches Action::Transmit { buffer: sent, len: 6 }
            &&& sent[0] == 0xFC && sent[1] == 0x23
            &&& little_endian(sent.subrange(2, 6)) == crc32(
                flash.subrange(address as int, address + length),
            )
        }),
{
    let page = address as int / (model.page_len as int);
    let (reading, _) = model.execute(buffer, Command::CrcIntFlash { address, length });
    law_checksum_is_of_the_range(reading, flash, page, length as nat);
    let crc = crc32(flash.subrange(address as int, address + length));
    let message = response(0x23) + le_bytes(crc);
    law_message_is_sent(buffer, message);
    law_bytes_say_the_integer(crc, 0);
    let sent = checksummed(reading, page, flash, length as nat).1->Transmit_buffer;
    assert(message[0] == 0xFC && message[1] == 0x23);
    assert(sent.subrange(2, 6) =~= le_bytes(crc));
}

// -- Writing ----------------------------------------------------------------

/// WritePage: data that is not one page is refused as bad arguments, and an
/// address below the protected end as a bad address, without touching flash.
/// Anything else is written to the page that holds the address, and answered
/// when that is done.
pub proof fn law_write_page_writes_the_page(
    model: BootModel,
    buffer: Seq<u8>,
    address: u32,
    data: Seq<u8>,
)
    requires
        model.wf(),
        model.page_buffer is Some,
        2 <= buffer.len(),
    ensures
        ({
            let (next, action) = model.execute(buffer, Command::WritePage { address, data });
            if data.len() != model.page_len {
                sends(action, seq![0xFC, 0x14]) && next.state is Idle
            } else if address < model.protected_end {
                sends(action, seq![0xFC, 0x12]) && next.state is Idle
            } else {
                let (done, answer) = next.write_complete(data);
                &&& action matches Action::WritePage { page_number, page }
                &&& page_number == address as int / (model.page_len as int)
                &&& page == data
                &&& sends(answer, seq![0xFC, 0x15])
                &&& done.state is Idle && done.buffer is None
                &&& done.page_buffer == Some(data)
            }
        }),
{
    lemma_response(buffer, 0x14);
    lemma_response(buffer, 0x12);
    lemma_response(buffer, 0x15);
    lemma_split(address as int, model.page_len as int);
}

/// ErasePage: an address below the protected end is refused as a bad address
/// without touching flash. Otherwise the page that holds the address is erased,
/// and that is answered when it is done.
pub proof fn law_erase_page_erases_the_page(model: BootModel, buffer: Seq<u8>, address: u32)
    requires
        model.wf(),
        model.page_buffer is Some,
        2 <= buffer.len(),
    ensures
        ({
            let (next, action) = model.execute(buffer, Command::ErasePage { address });
            if address < model.protected_end {
                sends(action, seq![0xFC, 0x12]) && next.state is Idle
            } else {
                let (done, answer) = next.erase_complete();
                &&& action matches Action::ErasePage { page_number }
                &&& page_number == address as int / (model.page_len as int)
                &&& sends(answer, seq![0xFC, 0x15])
                &&& done.state is Idle && done.buffer is None
            }
        }),
{
    lemma_response(buffer, 0x12);
    lemma_response(buffer, 0x15);
    lemma_split(address as int, model.page_len as int);
}

// -- The attribute table -----------------------------------------------------

/// Does attribute `index` lie in flash, within one page?
pub open spec fn attribute_lies(model: BootModel, flash: Seq<u8>, index: u8) -> bool {
    let at = model.attributes_address + 64 * index;
    &&& at % (model.page_len as int) + 64 <= model.page_len
    &&& at + 64 <= flash.len()
}

/// GetAttr: the host gets FC 22 and the sixty-four bytes of the index-th record
/// of the table, escaped, and the flash is as it was.
pub proof fn law_attribute_is_read_from_its_place(
    model: BootModel,
    flash: Seq<u8>,
    buffer: Seq<u8>,
    index: u8,
)
    requires
        at_hand(model, flash),
        130 <= buffer.len(),
        attribute_lies(model, flash, index),
    ensures
        ({
            let at = model.attributes_address + 64 * index;
            let (outcome, after) = rewritten(model, buffer, Command::GetAttr { index }, flash);
            let shown = escape(flash.subrange(at, at + 64));
            &&& after == flash
            &&& outcome.0.state is Idle
            &&& outcome.1 matches Action::Transmit { buffer: sent, len }
            &&& len == 2 + shown.len()
            &&& sent[0] == 0xFC && sent[1] == 0x22
            &&& sent.subrange(2, len as int) == shown
            &&& unescape(sent.subrange(2, len as int)) == flash.subrange(at, at + 64)
        }),
{
    let at = model.attributes_address + 64 * index;
    assert(model.attribute_at(index) == at);
    let bytes = flash.subrange(at, at + 64);
    law_get_attribute_shows_the_record(model, buffer, index, flash);
    lemma_escape_len(bytes);
    let message = response(0x22) + escape(bytes);
    law_message_is_sent(buffer, message);
    let (outcome, _) = rewritten(model, buffer, Command::GetAttr { index }, flash);
    let sent = outcome.1->Transmit_buffer;
    assert(message[0] == 0xFC && message[1] == 0x22);
    assert(sent.subrange(2, message.len() as int) =~= escape(bytes));
    law_escaping_can_be_undone(bytes);
    lemma_page_part(flash, at, 64, model.page_len as int);
}

/// A page that is written back with `bytes` put over part of it.
spec fn patched(flash: Seq<u8>, at: int, bytes: Seq<u8>, page_len: int) -> Seq<u8> {
    written(
        flash,
        at / page_len,
        write_at(page_at(flash, at / page_len, page_len), at % page_len, bytes),
    )
}

/// It holds the bytes there, and otherwise what it held.
proof fn lemma_patched_in_page(flash: Seq<u8>, at: int, bytes: Seq<u8>, page_len: int)
    requires
        0 < page_len,
        0 <= at,
        0 < bytes.len(),
        at % page_len + bytes.len() <= page_len,
        at + bytes.len() <= flash.len(),
        flash.len() as int % page_len == 0,
    ensures
        ({
            let after = patched(flash, at, bytes, page_len);
            let start = at / page_len * page_len;
            &&& after.len() == flash.len()
            &&& start <= at && at + bytes.len() <= start + page_len
            &&& forall|i: int| 0 <= i < bytes.len() ==> #[trigger] after[at + i] == bytes[i]
            &&& forall|i: int|
                start <= i < start + page_len && !(at <= i < at + bytes.len())
                    ==> #[trigger] after[i] == flash[i]
        }),
{
    let page_number = at / page_len;
    let start = page_number * page_len;
    lemma_page_part(flash, at, bytes.len() as int, page_len);
    let page = page_at(flash, page_number, page_len);
    let wanted = write_at(page, at % page_len, bytes);
    let after = patched(flash, at, bytes, page_len);
    lemma_written_page(flash, page_number, wanted, page_number);
    assert forall|i: int| start <= i < start + page_len implies #[trigger] after[i] == wanted[i
        - start] by {
        assert(page_at(after, page_number, page_len)[i - start] == after[i]);
    }
}

/// What setting an attribute makes of the flash.
proof fn lemma_attribute_set(
    model: BootModel,
    flash: Seq<u8>,
    buffer: Seq<u8>,
    index: u8,
    key: Seq<u8>,
    value: Seq<u8>,
)
    requires
        at_hand(model, flash),
        64 <= buffer.len(),
        attribute_lies(model, flash, index),
    ensures
        ({
            let at = model.attributes_address + 64 * index;
            let (outcome, after) = rewritten(
                model,
                buffer,
                Command::SetAttr { index, key, value },
                flash,
            );
            &&& sends(outcome.1, seq![0xFC, 0x15])
            &&& outcome.0.state is Idle
            &&& after == patched(flash, at, record(key, value), model.page_len as int)
        }),
{
    let at = model.attributes_address + 64 * index;
    assert(model.attribute_at(index) == at);
    let bytes = record(key, value);
    let waiting = write_at(buffer, 0, bytes);
    lemma_response(waiting, 0x15);
    lemma_page_part(flash, at, 64, model.page_len as int);
    assert(waiting.take(64) =~= bytes);
}

/// What setting the start address makes of the flash.
proof fn lemma_start_set(model: BootModel, flash: Seq<u8>, buffer: Seq<u8>, address: u32)
    requires
        at_hand(model, flash),
        2 <= buffer.len(),
        model.flags_address as int % (model.page_len as int) + 36 <= model.page_len,
        model.flags_address + 36 <= flash.len(),
    ensures
        ({
            let at = model.flags_address + 32;
            let page_len = model.page_len as int;
            let (outcome, after) = rewritten(
                model,
                buffer,
                Command::SetStartAddress { address },
                flash,
            );
            &&& at % page_len + 4 <= page_len
            &&& sends(outcome.1, seq![0xFC, 0x15])
            &&& outcome.0.state is Idle
            &&& after == patched(flash, at, le_bytes(address), page_len)
        }),
{
    let flags = model.flags_address as int;
    let at = flags + 32;
    let page_len = model.page_len as int;
    lemma_split(flags, page_len);
    lemma_join(at, flags / page_len, flags % page_len + 32, page_len);
    lemma_page_part(flash, at, 4, page_len);
    lemma_response(buffer, 0x15);
}

/// SetAttr: the index-th record of the table comes to hold the key, the length
/// of the value, the value as far as fifty-five bytes go, and zeros, and the
/// rest of its page what it held. The host is told when that is done.
pub proof fn law_attribute_is_written_to_its_place(
    model: BootModel,
    flash: Seq<u8>,
    buffer: Seq<u8>,
    index: u8,
    key: Seq<u8>,
    value: Seq<u8>,
)
    requires
        at_hand(model, flash),
        64 <= buffer.len(),
        key.len() == 8,
        attribute_lies(model, flash, index),
    ensures
        ({
            let at = model.attributes_address + 64 * index;
            let page_len = model.page_len as int;
            let start = at / page_len * page_len;
            let (outcome, after) = rewritten(
                model,
                buffer,
                Command::SetAttr { index, key, value },
                flash,
            );
            &&& sends(outcome.1, seq![0xFC, 0x15])
            &&& outcome.0.state is Idle
            &&& after.len() == flash.len()
            &&& forall|i: int| 0 <= i < 8 ==> #[trigger] after[at + i] == key[i]
            &&& after[at + 8] == value.len() % 256
            &&& forall|i: int|
                0 <= i < 55 ==> #[trigger] after[at + 9 + i] == if i < value.len() {
                    value[i]
                } else {
                    0
                }
            &&& forall|i: int|
                start <= i < start + page_len && !(at <= i < at + 64) ==> #[trigger] after[i]
                    == flash[i]
        }),
{
    let at = model.attributes_address + 64 * index;
    let page_len = model.page_len as int;
    let bytes = record(key, value);
    lemma_attribute_set(model, flash, buffer, index, key, value);
    lemma_patched_in_page(flash, at, bytes, page_len);
    let after = rewritten(model, buffer, Command::SetAttr { index, key, value }, flash).1;
    assert forall|i: int| 0 <= i < 8 implies #[trigger] after[at + i] == key[i] by {
        assert(bytes[i] == key[i]);
    }
    assert(after[at + 8] == bytes[8]);
    assert forall|i: int| 0 <= i < 55 implies #[trigger] after[at + 9 + i] == if i < value.len() {
        value[i]
    } else {
        0
    } by {
        assert(after[at + (9 + i)] == bytes[9 + i]);
    }
}

/// The records are apart: setting one attribute leaves what is read of any
/// other in the same page. (A write to a page in use erases the other pages of
/// its block.)
pub proof fn law_attributes_are_apart(
    model: BootModel,
    flash: Seq<u8>,
    buffer: Seq<u8>,
    index: u8,
    key: Seq<u8>,
    value: Seq<u8>,
    question: Seq<u8>,
    other: u8,
)
    requires
        at_hand(model, flash),
        64 <= buffer.len(),
        130 <= question.len(),
        key.len() == 8,
        index != other,
        attribute_lies(model, flash, index),
        attribute_lies(model, flash, other),
        (model.attributes_address + 64 * index) / (model.page_len as int) == (
        model.attributes_address + 64 * other) / (model.page_len as int),
    ensures
        ({
            let (set, after) = rewritten(
                model,
                buffer,
                Command::SetAttr { index, key, value },
                flash,
            );
            let before = rewritten(model, question, Command::GetAttr { index: other }, flash).0;
            let then = rewritten(set.0, question, Command::GetAttr { index: other }, after).0;
            before.1 == then.1
        }),
{
    let at = model.attributes_address + 64 * other;
    let page_len = model.page_len as int;
    law_attribute_is_written_to_its_place(model, flash, buffer, index, key, value);
    let (set, after) = rewritten(model, buffer, Command::SetAttr { index, key, value }, flash);
    assert(model.attribute_at(other) == at);
    lemma_split(at, page_len);
    assert(after.subrange(at, at + 64) =~= flash.subrange(at, at + 64));
    law_get_attribute_shows_the_record(model, question, other, flash);
    lemma_page_part(flash, model.attribute_at(index), 64, page_len);
    law_get_attribute_shows_the_record(set.0, question, other, after);
}

/// SetStartAddress: the four bytes at offset 32 of the flags come to hold the
/// address, least significant byte first, and the rest of their page what it
/// held. The host is told when that is done.
#[verifier::rlimit(30)]
pub proof fn law_start_address_is_written_to_the_flags(
    model: BootModel,
    flash: Seq<u8>,
    buffer: Seq<u8>,
    address: u32,
)
    requires
        at_hand(model, flash),
        2 <= buffer.len(),
        model.flags_address as int % (model.page_len as int) + 36 <= model.page_len,
        model.flags_address + 36 <= flash.len(),
    ensures
        ({
            let at = model.flags_address + 32;
            let page_len = model.page_len as int;
            let start = at / page_len * page_len;
            let (outcome, after) = rewritten(
                model,
                buffer,
                Command::SetStartAddress { address },
                flash,
            );
            &&& sends(outcome.1, seq![0xFC, 0x15])
            &&& outcome.0.state is Idle
            &&& after.len() == flash.len()
            &&& little_endian(after.subrange(at, at + 4)) == address
            &&& forall|i: int|
                start <= i < start + page_len && !(at <= i < at + 4) ==> #[trigger] after[i]
                    == flash[i]
        }),
{
    let at = model.flags_address + 32;
    let page_len = model.page_len as int;
    lemma_start_set(model, flash, buffer, address);
    law_bytes_say_the_integer(address, 0);
    lemma_patched_in_page(flash, at, le_bytes(address), page_len);
    let after = rewritten(model, buffer, Command::SetStartAddress { address }, flash).1;
    let stored = after.subrange(at, at + 4);
    assert forall|i: int| 0 <= i < 4 implies stored[i] == #[trigger] le_bytes(address)[i] by {
        assert(after[at + i] == le_bytes(address)[i]);
    }
    assert(stored =~= le_bytes(address));
}

// -- Info ---------------------------------------------------------------------

/// The value of a hexadecimal digit in ASCII, in lower case.
pub open spec fn digit_value(digit: u8) -> int {
    if 0x30 <= digit <= 0x39 {
        digit - 0x30
    } else if 0x61 <= digit <= 0x66 {
        digit - 0x61 + 10
    } else {
        -1
    }
}

/// The number that hexadecimal digits write down.
pub open spec fn hex_value(digits: Seq<u8>) -> int
    decreases digits.len(),
{
    if digits.len() == 0 {
        0
    } else {
        16 * hex_value(digits.drop_last()) + digit_value(digits.last())
    }
}

/// A byte in hexadecimal is two digits that say it.
proof fn lemma_hex_byte(byte: u8)
    ensures
        hex_byte(byte).len() == 2,
        digit_value(hex_byte(byte)[0]) == byte as int / 16,
        digit_value(hex_byte(byte)[1]) == byte as int % 16,
{
}

/// The text before the first zero, by its length.
proof fn lemma_text(bytes: Seq<u8>, n: int)
    requires
        0 <= n <= bytes.len(),
        forall|i: int| 0 <= i < n ==> bytes[i] != 0,
        n == bytes.len() || bytes[n] == 0,
    ensures
        until_zero(bytes) == bytes.take(n),
    decreases n,
{
    if n > 0 {
        let rest = bytes.drop_first();
        assert forall|i: int| 0 <= i < n - 1 implies rest[i] != 0 by {
            assert(bytes[i + 1] != 0);
        }
        lemma_text(rest, n - 1);
        assert(seq![bytes[0]] + rest.take(n - 1) =~= bytes.take(n));
    } else {
        assert(bytes.take(0) =~= Seq::<u8>::empty());
    }
}

/// `{"version":"`
#[verifier::opaque]
pub open spec fn text_head() -> Seq<u8> {
    seq![0x7B, 0x22, 0x76, 0x65, 0x72, 0x73, 0x69, 0x6F, 0x6E, 0x22, 0x3A, 0x22]
}

/// `", "start_address":"0x`
#[verifier::opaque]
pub open spec fn text_middle() -> Seq<u8> {
    seq![
        0x22, 0x2C, 0x20, 0x22, 0x73, 0x74, 0x61, 0x72, 0x74, 0x5F, 0x61, 0x64, 0x64, 0x72, 0x65,
        0x73, 0x73, 0x22, 0x3A, 0x22, 0x30, 0x78,
    ]
}

/// `", "name":"Tock Bootloader"}`
#[verifier::opaque]
pub open spec fn text_tail() -> Seq<u8> {
    seq![
        0x22, 0x2C, 0x20, 0x22, 0x6E, 0x61, 0x6D, 0x65, 0x22, 0x3A, 0x22, 0x54, 0x6F, 0x63, 0x6B,
        0x20, 0x42, 0x6F, 0x6F, 0x74, 0x6C, 0x6F, 0x61, 0x64, 0x65, 0x72, 0x22, 0x7D,
    ]
}

/// The server writes these texts.
proof fn lemma_texts()
    ensures
        info_head() == text_head() && text_head().len() == 12,
        info_start() == text_middle() && text_middle().len() == 22,
        info_tail() == text_tail() && text_tail().len() == 28,
{
    reveal(text_head);
    reveal(text_middle);
    reveal(text_tail);
    assert(info_head() =~= text_head());
    assert(info_start() =~= text_middle());
    assert(info_tail() =~= text_tail());
}

/// Does the answer to Info describe the bootloader whose flags these are, with
/// `v` bytes of version: FC 25, the length of the text, the text, and zeros?
#[verifier::opaque]
pub open spec fn describes(message: Seq<u8>, flags: Seq<u8>, v: int) -> bool {
    &&& message[0] == 0xFC && message[1] == 0x25 && message[2] == 70 + v
    &&& message.subrange(3, 15) == text_head()
    &&& message.subrange(15, 15 + v) == flags.subrange(14, 14 + v)
    &&& message.subrange(15 + v, 37 + v) == text_middle()
    &&& hex_value(message.subrange(37 + v, 45 + v)) == little_endian(
        flags.subrange(32, 36),
            )
    &&& forall|i: int|
        37 + v <= i < 45 + v ==> 0 <= digit_value(#[trigger] message[i]) < 16
    &&& message.subrange(45 + v, 73 + v) == text_tail()
    &&& forall|i: int| 73 + v <= i < 195 ==> #[trigger] message[i] == 0
}

/// The text that describes the bootloader, part by part.
proof fn lemma_info_parts(flags: Seq<u8>, v: int)
    requires
        36 <= flags.len(),
        0 <= v <= 8,
        forall|i: int| 0 <= i < v ==> #[trigger] flags[14 + i] != 0,
        v == 8 || flags[14 + v] == 0,
    ensures
        info_message(flags).len() == 195,
        info_message(flags)[0] == 0xFC && info_message(flags)[1] == 0x25,
        info_message(flags)[2] == 70 + v,
        info_json(flags) == text_head() + flags.subrange(14, 14 + v) + text_middle() + (hex_byte(
            flags[35],
        ) + hex_byte(flags[34]) + hex_byte(flags[33]) + hex_byte(flags[32])) + text_tail(),
        info_json(flags).len() == 70 + v,
        forall|i: int|
            0 <= i < 70 + v ==> info_message(flags)[3 + i] == #[trigger] info_json(flags)[i],
        forall|i: int| 73 + v <= i < 195 ==> #[trigger] info_message(flags)[i] == 0,
{
    lemma_texts();
    let name = flags.subrange(14, 22);
    assert forall|i: int| 0 <= i < v implies name[i] != 0 by {
        assert(flags[14 + i] != 0);
    }
    lemma_text(name, v);
    assert(name.take(v) =~= flags.subrange(14, 14 + v));
    let json = info_json(flags);
    assert(json =~= info_head() + flags.subrange(14, 14 + v) + info_start() + (hex_byte(
        flags[35],
    ) + hex_byte(flags[34]) + hex_byte(flags[33]) + hex_byte(flags[32])) + info_tail());
    let text = response(0x25) + seq![json.len() as u8] + json;
    assert forall|i: int| 0 <= i < 70 + v implies info_message(flags)[3 + i]
        == #[trigger] json[i] by {
        assert(text[3 + i] == json[i]);
    }
}

/// The parts of a text that is put together from five, seen in the message
/// that carries it from its third byte on.
proof fn lemma_assembled(
    message: Seq<u8>,
    text: Seq<u8>,
    a: Seq<u8>,
    b: Seq<u8>,
    c: Seq<u8>,
    d: Seq<u8>,
    e: Seq<u8>,
)
    requires
        text == a + b + c + d + e,
        3 + text.len() <= message.len(),
        forall|i: int| 0 <= i < text.len() ==> message[3 + i] == #[trigger] text[i],
    ensures
        ({
            let to_b = 3 + a.len();
            let to_c = to_b + b.len();
            let to_d = to_c + c.len();
            let to_e = to_d + d.len();
            &&& message.subrange(3, to_b as int) == a
            &&& message.subrange(to_b as int, to_c as int) == b
            &&& message.subrange(to_c as int, to_d as int) == c
            &&& message.subrange(to_d as int, to_e as int) == d
            &&& message.subrange(to_e as int, (to_e + e.len()) as int) == e
        }),
{
    let to_b = 3 + a.len() as int;
    let to_c = to_b + b.len();
    let to_d = to_c + c.len();
    let to_e = to_d + d.len();
    let end = to_e + e.len();
    assert forall|i: int| 3 <= i < end implies #[trigger] message[i] == text[i - 3] by {
        assert(message[3 + (i - 3)] == text[i - 3]);
    }
    assert(message.subrange(3, to_b) =~= a);
    assert(message.subrange(to_b, to_c) =~= b);
    assert(message.subrange(to_c, to_d) =~= c);
    assert(message.subrange(to_d, to_e) =~= d);
    assert(message.subrange(to_e, end) =~= e);
}

/// The digits of four bytes are digits.
proof fn lemma_digits(digits: Seq<u8>, b0: u8, b1: u8, b2: u8, b3: u8)
    requires
        digits == hex_byte(b3) + hex_byte(b2) + hex_byte(b1) + hex_byte(b0),
    ensures
        digits.len() == 8,
        forall|i: int| 0 <= i < 8 ==> 0 <= digit_value(#[trigger] digits[i]) < 16,
{
    lemma_hex_byte(b0);
    lemma_hex_byte(b1);
    lemma_hex_byte(b2);
    lemma_hex_byte(b3);
    assert(digits[0] == hex_byte(b3)[0] && digits[1] == hex_byte(b3)[1]);
    assert(digits[2] == hex_byte(b2)[0] && digits[3] == hex_byte(b2)[1]);
    assert(digits[4] == hex_byte(b1)[0] && digits[5] == hex_byte(b1)[1]);
    assert(digits[6] == hex_byte(b0)[0] && digits[7] == hex_byte(b0)[1]);
}

/// The message that answers Info, part by part.
#[verifier::rlimit(40)]
proof fn lemma_info_message(flags: Seq<u8>, v: int)
    requires
        36 <= flags.len(),
        0 <= v <= 8,
        forall|i: int| 0 <= i < v ==> #[trigger] flags[14 + i] != 0,
        v == 8 || flags[14 + v] == 0,
    ensures
        info_message(flags).len() == 195,
        describes(info_message(flags), flags, v),
{
    reveal(describes);
    lemma_texts();
    lemma_info_parts(flags, v);
    let message = info_message(flags);
    let version = flags.subrange(14, 14 + v);
    let digits = hex_byte(flags[35]) + hex_byte(flags[34]) + hex_byte(flags[33]) + hex_byte(
        flags[32],
    );
    let stored = flags.subrange(32, 36);
    lemma_digits(digits, flags[32], flags[33], flags[34], flags[35]);
    lemma_hex_of_word(digits, stored, flags[32], flags[33], flags[34], flags[35]);
    lemma_assembled(
        message,
        info_json(flags),
        text_head(),
        version,
        text_middle(),
        digits,
        text_tail(),
    );
    let shown = message.subrange(37 + v, 45 + v);
    assert forall|i: int| 37 + v <= i < 45 + v implies 0 <= digit_value(#[trigger] message[i])
        < 16 by {
        assert(shown[i - 37 - v] == message[i]);
        assert(shown[i - 37 - v] == digits[i - 37 - v]);
    }
}

/// Flags that agree in the version and the start address are described alike.
proof fn lemma_described_alike(message: Seq<u8>, flags: Seq<u8>, other: Seq<u8>, v: int)
    requires
        describes(message, flags, v),
        flags.subrange(14, 14 + v) == other.subrange(14, 14 + v),
        flags.subrange(32, 36) == other.subrange(32, 36),
    ensures
        describes(message, other, v),
{
    reveal(describes);
}

/// Info: the host gets FC 25, the length of a JSON text, the text, and zeros up
/// to 195 bytes. The text is
/// `{"version":"V", "start_address":"0xA", "name":"Tock Bootloader"}`, with V
/// the `version_len` bytes at offset 14 of the flags before the first zero,
/// eight at most, and A the start address at offset 32 in eight lower-case
/// hexadecimal digits.
pub proof fn law_info_describes_the_bootloader(
    model: BootModel,
    flash: Seq<u8>,
    buffer: Seq<u8>,
    version_len: int,
)
    requires
        at_hand(model, flash),
        195 <= buffer.len(),
        model.flags_address as int % (model.page_len as int) + 36 <= model.page_len,
        model.flags_address + 36 <= flash.len(),
        0 <= version_len <= 8,
        forall|i: int|
            0 <= i < version_len ==> #[trigger] flash[model.flags_address + (14 + i)] != 0,
        version_len == 8 || flash[model.flags_address + 14 + version_len] == 0,
    ensures
        ({
            let at = model.flags_address as int;
            let (outcome, after) = rewritten(model, buffer, Command::Info, flash);
            &&& after == flash
            &&& outcome.0.state is Idle
            &&& outcome.1 matches Action::Transmit { buffer: sent, len: 195 }
            &&& describes(sent.take(195), flash.subrange(at, at + 36), version_len)
        }),
{
    let at = model.flags_address as int;
    let page_len = model.page_len as int;
    let v = version_len;
    lemma_split(at, page_len);
    lemma_page_part(flash, at, 36, page_len);
    let page = page_at(flash, at / page_len, page_len);
    let flags = page.skip(at % page_len);
    let short = flash.subrange(at, at + 36);
    assert forall|i: int| 0 <= i < 36 implies #[trigger] flags[i] == flash[at + i] by {}
    assert forall|i: int| 0 <= i < v implies #[trigger] flags[14 + i] != 0 by {
        assert(flash[at + (14 + i)] != 0);
    }
    lemma_info_message(flags, v);
    assert(flags.subrange(14, 14 + v) =~= short.subrange(14, 14 + v));
    assert(flags.subrange(32, 36) =~= short.subrange(32, 36));
    let message = info_message(flags);
    law_message_is_sent(buffer, message);
    let sent = rewritten(model, buffer, Command::Info, flash).0.1->Transmit_buffer;
    assert(sent.take(195) =~= message);
    lemma_described_alike(message, flags, short, v);
}

/// Eight digits, two for each of four bytes, say the number that the bytes
/// write down, least significant first.
proof fn lemma_hex_of_word(digits: Seq<u8>, stored: Seq<u8>, b0: u8, b1: u8, b2: u8, b3: u8)
    requires
        digits == hex_byte(b3) + hex_byte(b2) + hex_byte(b1) + hex_byte(b0),
        stored.len() == 4,
        stored[0] == b0 && stored[1] == b1 && stored[2] == b2 && stored[3] == b3,
    ensures
        hex_value(digits) == little_endian(stored),
{
    lemma_hex_byte(b0);
    lemma_hex_byte(b1);
    lemma_hex_byte(b2);
    lemma_hex_byte(b3);
    reveal_with_fuel(hex_value, 9);
    reveal_with_fuel(little_endian, 5);
    let d1 = digits.drop_last();
    let d2 = d1.drop_last();
    let d3 = d2.drop_last();
    let d4 = d3.drop_last();
    let d5 = d4.drop_last();
    let d6 = d5.drop_last();
    let d7 = d6.drop_last();
    assert(digits.last() == hex_byte(b0)[1] && d1.last() == hex_byte(b0)[0]);
    assert(d2.last() == hex_byte(b1)[1] && d3.last() == hex_byte(b1)[0]);
    assert(d4.last() == hex_byte(b2)[1] && d5.last() == hex_byte(b2)[0]);
    assert(d6.last() == hex_byte(b3)[1] && d7.last() == hex_byte(b3)[0]);
    let s1 = stored.drop_first();
    let s2 = s1.drop_first();
    let s3 = s2.drop_first();
    assert(s1[0] == b1 && s2[0] == b2 && s3[0] == b3);
    assert(little_endian(s3) == b3);
    assert(little_endian(s2) == b2 + 256 * little_endian(s3));
    assert(little_endian(s1) == b1 + 256 * little_endian(s2));
    assert(hex_value(d6) == digit_value(d7.last()) * 16 + digit_value(d6.last()));
    assert(hex_value(d6) == b3);
    assert(hex_value(d4) == 256 * hex_value(d6) + b2);
    assert(hex_value(d2) == 256 * hex_value(d4) + b1);
}

/// A message that was not received, or is empty, is dropped. Any other is
/// decoded from its first byte on, by a decoder of its own.
pub proof fn law_message_is_decoded_or_dropped(
    model: BootModel,
    buffer: Seq<u8>,
    len: usize,
    ok: bool,
)
    ensures
        ({
            let (next, reception) = model.message_received(buffer, len, ok);
            &&& !ok || len == 0 ==> next == model && reception == Reception::Act(
                Action::Listen { buffer },
            )
            &&& ok && len > 0 ==> {
                &&& reception == (Reception::<Seq<u8>>::Decode {
                    decoder: Decoder::Fresh,
                    byte: buffer[0],
                })
                &&& next.incoming matches Some(incoming)
                &&& incoming.buffer == buffer && incoming.len == len && incoming.at == 0
                &&& next == (BootModel { incoming: next.incoming, ..model })
            }
        }),
{
}

/// Bytes go into a message while there is room for two more.
proof fn lemma_message_is_filled(bytes: Seq<u8>, from: int, used: int, room: int)
    requires
        0 <= from <= bytes.len(),
        used <= room,
    ensures
        ({
            let count = fitting(bytes, from, used, room);
            from + count < bytes.len() ==> used + escape(
                bytes.subrange(from, from + count),
            ).len() >= room - 1
        }),
    decreases bytes.len() - from,
{
    let count = fitting(bytes, from, used, room);
    lemma_fitting(bytes, from, used, room);
    if from >= bytes.len() || used >= room - 1 {
        assert(bytes.subrange(from, from) =~= Seq::<u8>::empty());
    } else {
        let first = seq![bytes[from]];
        let size = escape_byte(bytes[from]).len() as int;
        lemma_message_is_filled(bytes, from + 1, used + size, room);
        lemma_fitting(bytes, from + 1, used + size, room);
        assert(count == 1 + fitting(bytes, from + 1, used + size, room));
        let rest = bytes.subrange(from + 1, from + count);
        assert(bytes.subrange(from, from + count) =~= first + rest);
        law_escape_in_parts(first, rest);
        law_escaping_doubles_the_escape(Seq::empty(), bytes[from]);
        assert(Seq::<u8>::empty().push(bytes[from]) =~= first);
        assert(escape(Seq::<u8>::empty()) + escape_byte(bytes[from]) =~= escape_byte(bytes[from]));
    }
}

/// A range takes no more messages than it has to: a message of it ends where
/// the range or the page does, or has no room left for an escaped byte.
pub proof fn law_range_messages_are_full(model: BootModel, page: Seq<u8>)
    requires
        model.wf(),
        model.state is ReadRange,
        model.buffer is Some && 4 <= model.buffer->0.len() <= usize::MAX,
        model.state->ReadRange_remaining_length <= model.state->length,
        page.len() == model.page_len,
    ensures
        ({
            let room = model.buffer->0.len();
            let address = model.state->ReadRange_address as int;
            let remaining = model.state->ReadRange_remaining_length as int;
            let rest = model.page_len - address % (model.page_len as int);
            let (next, action) = model.read_complete(page);
            let left = next.state->ReadRange_remaining_length as int;
            &&& action matches Action::Transmit { buffer, len }
            &&& len <= room
            &&& next.state is ReadRange
            &&& left == 0 || remaining - left == rest || room - 1 <= len
        }),
{
    let room = model.buffer->0.len() as int;
    let address = model.state->ReadRange_address as int;
    let remaining = model.state->ReadRange_remaining_length as int;
    let page_len = model.page_len as int;
    let offset = address % page_len;
    lemma_split(address, page_len);
    let wanted = if page_len - offset <= remaining {
        page_len - offset
    } else {
        remaining
    };
    let used = if model.state->length == remaining {
        2int
    } else {
        0
    };
    let bytes = page.subrange(offset, offset + wanted);
    let count = fitting(bytes, 0, used, room);
    lemma_fitting(bytes, 0, used, room);
    lemma_part_fits(bytes, 0, used, room);
    lemma_message_is_filled(bytes, 0, used, room);
    assert(bytes.subrange(0, count) =~= bytes.take(count));
}

/// While the flash has the page buffer, a command that needs it does nothing,
/// and a page is taken to be 512 bytes long.
pub proof fn law_commands_without_a_page(
    model: BootModel,
    buffer: Seq<u8>,
    address: u32,
    data: Seq<u8>,
    length: u16,
    index: u8,
)
    requires
        model.page_buffer is None,
        model.protected_end <= address,
    ensures
        model.execute(buffer, Command::WritePage { address, data }) == (
            model,
            Action::<Seq<u8>>::Idle,
        ),
        model.execute(buffer, Command::ErasePage { address }).1 == (Action::<
            Seq<u8>,
        >::ErasePage { page_number: (address as int / 512) as usize }),
        model.execute(buffer, Command::ReadRange { address, length }).1 is Idle,
        model.execute(buffer, Command::GetAttr { index }).1 is Idle,
        model.execute(buffer, Command::Info).1 is Idle,
{
}

} // verus!

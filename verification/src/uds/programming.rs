//! Programming the board, from the bytes of the first request to the flash.
//!
//! The laws here start where a tester starts, with a request on the wire, and
//! end with what the flash holds and what went back. Addresses and sizes are
//! those the request spells out.

use vstd::prelude::*;

use crate::actions::{law_message_is_sent, sends, Action};
use crate::bytes::{
    be_bytes, be_bytes_u16, be_u16, be_u32, big_endian, law_bytes_say_the_integer,
    law_integers_are_what_their_bytes_say, law_write_at_changes_its_range_only, le_bytes,
    le_u32, little_endian, write_at,
};
use crate::crc::crc32;
use crate::paging::lemma_split;
use crate::uds::answers::{in_bounds, law_transfer_exit_request, law_transfer_request, reaches};
use crate::uds::codes::{ROUTINE_CHECK_MEMORY, ROUTINE_ERASE_MEMORY};
use crate::uds::exchanges::{
    answered, asks_identifier_read, asks_identifier_write, asks_routine, carries, covers,
    downloaded, exchanged, fetches, identifier_at, identifier_patch, identifier_rewritable,
    is_blank, law_check_memory_reports_the_crc, law_download_puts_the_image_in_flash,
    law_erase_memory_erases_the_range, law_identifier_read_shows_its_bytes,
    law_identifier_write_changes_only_its_bytes, law_upload_returns_the_range, page_end,
    rewritable, routine_run, uploaded,
};
use crate::uds::model::{identifier_value, negative, UdsModel};
use crate::uds::server::{lemma_block_start, lemma_message_received_wf};

verus! {

// -- Transfers ------------------------------------------------------------

/// Does `request` open a transfer of `size` bytes from `address` on: a
/// download for 0x34, an upload for 0x35?
pub open spec fn opens(request: Seq<u8>, len: int, sid: u8, address: int, size: int) -> bool {
    &&& 11 <= len <= request.len()
    &&& 15 <= request.len()
    &&& request[0] == sid && request[1] == 0x00 && request[2] == 0x44
    &&& big_endian(request.subrange(3, 7)) == address
    &&& big_endian(request.subrange(7, 11)) == size
}

/// Is the server ready to open a transfer?
pub open spec fn can_open(model: UdsModel) -> bool {
    &&& model.wf()
    &&& model.buffer is None
    &&& model.vars.job is Idle
    &&& model.vars.security is Unlocked
    &&& model.vars.transfer is Closed
}

/// The server with the transfer open that was asked for.
proof fn lemma_opened(
    model: UdsModel,
    flash: Seq<u8>,
    request: Seq<u8>,
    len: int,
    address: int,
    size: int,
)
    requires
        can_open(model),
        opens(request, len, 0x34, address, size) && address % (model.limits.page_len as int) == 0
            || opens(request, len, 0x35, address, size),
        in_bounds(model, address, size),
    ensures
        ({
            let opened = exchanged(model, request, len, flash);
            &&& sends(opened.action, seq![(request[0] + 0x40) as u8, 0x20, 0x02, 0x02])
            &&& opened.flash == flash
            &&& opened.model.wf()
            &&& opened.model.buffer is None
            &&& opened.model.limits == model.limits
            &&& opened.model.vars.job is Idle
            &&& request[0] == 0x34 ==> opened.model.vars.transfer is Download
            &&& request[0] == 0x35 ==> opened.model.vars.transfer is Upload
            &&& opened.model.vars.transfer_address == address
            &&& opened.model.vars.transfer_remaining == size
            &&& opened.model.vars.next_block_sequence == 1
        }),
{
    law_transfer_request(model, request, len);
    lemma_message_received_wf(model, request, len, true);
    let (next, action) = model.message_received(request, len, true);
    assert(answered(model, request, len, flash).model == next);
}

/// Flashing an image: RequestDownload for `address` and the image's size, the
/// image block by block, and RequestTransferExit. Into erased flash, that puts
/// the image at the address asked for and changes no other byte, and no
/// transfer is left open.
pub proof fn law_image_lands_where_it_was_asked_for(
    model: UdsModel,
    flash: Seq<u8>,
    open: Seq<u8>,
    open_len: int,
    address: int,
    image: Seq<u8>,
    blocks: Seq<(Seq<u8>, int)>,
    exit: Seq<u8>,
    exit_len: int,
)
    requires
        can_open(model),
        model.limits.page_len <= 512,
        opens(open, open_len, 0x34, address, image.len() as int),
        in_bounds(model, address, image.len() as int),
        address % (model.limits.page_len as int) == 0,
        covers(flash, model.limits),
        is_blank(
            flash,
            address,
            page_end(address + image.len(), model.limits.page_len as int),
        ),
        carries(blocks, image, 1, model.limits.page_len as int),
        0 < exit_len <= exit.len() && 15 <= exit.len(),
        exit[0] == 0x37,
    ensures
        ({
            let opened = exchanged(model, open, open_len, flash);
            let (filled, after) = downloaded(opened.model, flash, blocks);
            let (closed, goodbye) = filled.message_received(exit, exit_len, true);
            &&& sends(opened.action, seq![0x74, 0x20, 0x02, 0x02])
            &&& after.len() == flash.len()
            &&& forall|i: int|
                0 <= i < image.len() ==> #[trigger] after[address + i] == image[i]
            &&& forall|i: int|
                0 <= i < flash.len() && !(address <= i < address + image.len())
                    ==> #[trigger] after[i] == flash[i]
            &&& sends(goodbye, seq![0x77])
            &&& closed.vars.transfer is Closed
        }),
{
    lemma_opened(model, flash, open, open_len, address, image.len() as int);
    let opened = exchanged(model, open, open_len, flash);
    law_download_puts_the_image_in_flash(opened.model, flash, blocks, image);
    let (filled, after) = downloaded(opened.model, flash, blocks);
    law_transfer_exit_request(filled, exit, exit_len);
}

/// A block that is taken is acknowledged with its number, and its data is
/// exactly what the page at the transfer's address is written with, erased
/// bytes after it.
pub proof fn law_block_is_written_and_acknowledged(
    model: UdsModel,
    request: Seq<u8>,
    len: int,
)
    requires
        reaches(model, request, len),
        model.vars.transfer is Download,
        request[0] == 0x36 && request[1] == model.vars.next_block_sequence,
        0 < len - 2 <= 512,
        len - 2 <= model.limits.page_len,
        len - 2 <= model.vars.transfer_remaining,
    ensures
        ({
            let (asked, write) = model.message_received(request, len, true);
            &&& write matches Action::WritePage { page_number, page }
            &&& page_number == model.vars.transfer_address as int / (model.limits.page_len as int)
            &&& page.len() == model.limits.page_len
            &&& forall|i: int|
                0 <= i < page.len() ==> #[trigger] page[i] == if i < len - 2 {
                    request[2 + i]
                } else {
                    0xFF
                }
            &&& sends(asked.write_complete(page, true).1, seq![0x76, request[1]])
            &&& asked.write_complete(page, true).0.vars.job is Idle
        }),
{
    let (asked, write) = model.message_received(request, len, true);
    let message = seq![0x76u8, request[1]];
    law_message_is_sent(request, message);
    assert(asked.vars.next_block_sequence.wrapping_sub(1) == request[1]);
    lemma_split(model.vars.transfer_address as int, model.limits.page_len as int);
}

/// Reading flash back: RequestUpload for `address` and `size`, and then one
/// block after the other, hands over exactly those bytes.
pub proof fn law_upload_hands_over_what_was_asked_for(
    model: UdsModel,
    flash: Seq<u8>,
    open: Seq<u8>,
    open_len: int,
    address: int,
    size: int,
    questions: Seq<(Seq<u8>, int)>,
)
    requires
        can_open(model),
        opens(open, open_len, 0x35, address, size),
        in_bounds(model, address, size),
        covers(flash, model.limits),
        fetches(questions, address, size, 1, model.limits.page_len as int),
    ensures
        ({
            let opened = exchanged(model, open, open_len, flash);
            &&& sends(opened.action, seq![0x75, 0x20, 0x02, 0x02])
            &&& uploaded(opened.model, flash, questions) == flash.subrange(
                address,
                address + size,
            )
        }),
{
    lemma_opened(model, flash, open, open_len, address, size);
    let opened = exchanged(model, open, open_len, flash);
    law_upload_returns_the_range(opened.model, flash, questions);
}

// -- Routines -------------------------------------------------------------

/// Does `request` start the routine `high` `low` on `size` bytes from
/// `address` on?
pub open spec fn starts_routine(
    request: Seq<u8>,
    len: int,
    high: u8,
    low: u8,
    address: int,
    size: int,
) -> bool {
    &&& 12 <= len <= request.len()
    &&& 15 <= request.len()
    &&& request[0] == 0x31 && request[1] == 0x01 && request[2] == high && request[3] == low
    &&& big_endian(request.subrange(4, 8)) == address
    &&& big_endian(request.subrange(8, 12)) == size
}

/// EraseMemory: every byte of the range asked for is erased, and no block of
/// sixteen pages that holds none of it is touched.
pub proof fn law_erase_covers_what_was_asked_for(
    model: UdsModel,
    flash: Seq<u8>,
    request: Seq<u8>,
    len: int,
    address: int,
    size: int,
)
    requires
        model.wf(),
        model.buffer is None,
        model.vars.security is Unlocked,
        starts_routine(request, len, 0xFF, 0x00, address, size),
        in_bounds(model, address, size),
        covers(flash, model.limits),
    ensures
        ({
            let block = 16 * model.limits.page_len;
            let end = routine_run(model, request, len, flash, (size + 1) as nat);
            &&& sends(end.action, seq![0x71, 0x01, 0xFF, 0x00])
            &&& end.model.vars.job is Idle
            &&& end.flash.len() == flash.len()
            &&& forall|i: int| address <= i < address + size ==> #[trigger] end.flash[i] == 0xFF
            &&& forall|i: int|
                0 <= i < flash.len() && (i / block < address / block || i / block > (address
                    + size - 1) / block) ==> #[trigger] end.flash[i] == flash[i]
        }),
{
    law_integers_are_what_their_bytes_say(request, 4);
    law_integers_are_what_their_bytes_say(request, 8);
    assert(be_u16(request, 2) == 0xFF00);
    assert(asks_routine(model, request, len, ROUTINE_ERASE_MEMORY));
    law_erase_memory_erases_the_range(model, request, len, flash);
    let end = routine_run(model, request, len, flash, (size + 1) as nat);
    let pending = write_at(request, 0, seq![0x7Fu8, 0x31, 0x78]);
    let message = seq![0x71u8, 0x01] + be_bytes_u16(0xFF00);
    assert(message =~= seq![0x71, 0x01, 0xFF, 0x00]);
    law_message_is_sent(pending, message);
}

/// CheckMemory: the answer is the CRC-32 of exactly the bytes asked about, most
/// significant byte first, and the flash is as it was.
pub proof fn law_checksum_is_of_what_was_asked_for(
    model: UdsModel,
    flash: Seq<u8>,
    request: Seq<u8>,
    len: int,
    address: int,
    size: int,
)
    requires
        model.wf(),
        model.buffer is None,
        model.vars.security is Unlocked,
        starts_routine(request, len, 0x02, 0x02, address, size),
        in_bounds(model, address, size),
        covers(flash, model.limits),
    ensures
        ({
            let end = routine_run(model, request, len, flash, size as nat);
            &&& end.flash == flash
            &&& end.model.vars.job is Idle
            &&& end.action matches Action::Transmit { buffer, len: 8 }
            &&& buffer[0] == 0x71 && buffer[1] == 0x01 && buffer[2] == 0x02 && buffer[3] == 0x02
            &&& big_endian(buffer.subrange(4, 8)) == crc32(
                flash.subrange(address, address + size),
            )
        }),
{
    law_integers_are_what_their_bytes_say(request, 4);
    law_integers_are_what_their_bytes_say(request, 8);
    assert(be_u16(request, 2) == 0x0202);
    assert(asks_routine(model, request, len, ROUTINE_CHECK_MEMORY));
    law_check_memory_reports_the_crc(model, request, len, flash);
    let end = routine_run(model, request, len, flash, size as nat);
    let crc = crc32(flash.subrange(address, address + size));
    let pending = write_at(request, 0, seq![0x7Fu8, 0x31, 0x78]);
    let message = seq![0x71u8, 0x01] + be_bytes_u16(0x0202) + be_bytes(crc);
    law_message_is_sent(pending, message);
    law_bytes_say_the_integer(crc, 0);
    assert(message[0] == 0x71 && message[1] == 0x01 && message[2] == 0x02 && message[3] == 0x02);
    assert(end.action->Transmit_buffer.subrange(4, 8) =~= be_bytes(crc));
}

/// Why a rewrite of `size` bytes at `at` is turned down, if it is: the erase
/// block around them holds the bootloader's own code, or it does not hold all
/// of them, or it does not fit the staging buffer.
pub open spec fn rewrite_refusal(model: UdsModel, at: int, size: int) -> Option<u8> {
    let page_len = model.limits.page_len as int;
    let first = at / page_len / 16 * 16;
    if first * page_len < model.limits.text_end {
        Some(0x22)
    } else if at + size > first * page_len + 16 * page_len || model.stage.len() < 16 * page_len {
        Some(0x72)
    } else {
        None
    }
}

/// A rewrite is announced, or turned down and then nothing is at hand: for
/// record i the bytes are the sixty-four at the i-th record of the table, for
/// the start address the four at offset 32 of the flags.
#[verifier::rlimit(40)]
pub proof fn law_rewrite_is_announced_or_refused(
    model: UdsModel,
    request: Seq<u8>,
    len: int,
    index: int,
)
    requires
        reaches(model, request, len),
        model.vars.job is Idle,
        model.vars.security is Unlocked,
        request[0] == 0x2E && request[1] == 0xF2,
        3 <= len <= 67,
        request[2] == 0xA0 + index && 0 <= index < 16 || request[2] == 0x01 && len == 7
            && model.limits.write_floor <= big_endian(request.subrange(3, 7))
            < model.limits.flash_end,
    ensures
        ({
            let (next, action) = model.message_received(request, len, true);
            let refusal = if request[2] == 0x01 {
                rewrite_refusal(model, model.limits.flags_address + 32, 4)
            } else {
                rewrite_refusal(model, model.limits.attributes_address + 64 * index, 64)
            };
            match refusal {
                Some(code) => sends(action, seq![0x7F, 0x2E, code]) && next.vars == model.vars,
                None => sends(action, seq![0x7F, 0x2E, 0x78]) && next.vars.job is StageRead,
            }
        }),
{
    law_integers_are_what_their_bytes_say(request, 3);
    let did = be_u16(request, 1);
    assert(did == 0xF200 + request[2]);
    law_message_is_sent(request, negative(0x2E, 0x22));
    law_message_is_sent(request, negative(0x2E, 0x72));
    law_message_is_sent(request, negative(0x2E, 0x78));
    if request[2] != 0x01 {
        assert(identifier_at(model, did) == model.limits.attributes_address + 64 * index);
    }
}

/// A record that lies across two pages, or that its answer has no room for, is
/// not read: the failure is reported and nothing changes.
pub proof fn law_unreadable_record_is_reported(
    model: UdsModel,
    request: Seq<u8>,
    len: int,
    index: int,
)
    requires
        reaches(model, request, len),
        3 <= len,
        0 <= index < 16,
        request[0] == 0x22 && request[1] == 0xF2 && request[2] == 0xA0 + index,
    ensures
        ({
            let page_len = model.limits.page_len as int;
            let at = model.limits.attributes_address + 64 * index;
            let (next, action) = model.message_received(request, len, true);
            if at % page_len + 64 > page_len || request.len() < 67 {
                next == model && sends(action, seq![0x7F, 0x22, 0x72])
            } else {
                &&& action matches Action::ReadPage { page_number, page: _ }
                &&& page_number == at / page_len
            }
        }),
{
    let did = be_u16(request, 1);
    let at = model.limits.attributes_address + 64 * index;
    assert(did == 0xF2A0 + index);
    law_message_is_sent(request, negative(0x22, 0x72));
    assert(identifier_at(model, did) == at);
    lemma_split(at, model.limits.page_len as int);
}

// -- Identifiers that live in flash ----------------------------------------

/// Where record `index` lies.
pub open spec fn record_at(model: UdsModel, index: int) -> int {
    model.limits.attributes_address + 64 * index
}

/// Can `index`, in one page, be read here?
pub open spec fn record_readable(model: UdsModel, index: int, flash: Seq<u8>) -> bool {
    let page_len = model.limits.page_len as int;
    &&& 0 <= index < 16
    &&& record_at(model, index) % page_len + 64 <= page_len
    &&& record_at(model, index) + 64 <= flash.len()
    &&& flash.len() as int % page_len == 0
}

/// Does `request` read record `index`, in a buffer that the answer fits in?
pub open spec fn reads_record(request: Seq<u8>, len: int, index: int) -> bool {
    &&& 3 <= len <= request.len()
    &&& 67 <= request.len()
    &&& request[0] == 0x22 && request[1] == 0xF2 && request[2] == 0xA0 + index
}

/// Reading identifier 0xF2A0 + i, for each i from 0 to 15, answers with the
/// sixty-four bytes at the i-th record of the attribute table, locked or not.
pub proof fn law_record_is_read_from_its_place(
    model: UdsModel,
    flash: Seq<u8>,
    request: Seq<u8>,
    len: int,
    index: int,
)
    requires
        model.wf(),
        model.buffer is None,
        record_readable(model, index, flash),
        reads_record(request, len, index),
    ensures
        ({
            let at = model.limits.attributes_address + 64 * index;
            let end = answered(model, request, len, flash);
            &&& end.flash == flash
            &&& end.action matches Action::Transmit { buffer, len: 67 }
            &&& buffer[0] == 0x62 && buffer[1] == 0xF2 && buffer[2] == 0xA0 + index
            &&& forall|j: int| 0 <= j < 64 ==> #[trigger] buffer[3 + j] == flash[at + j]
        }),
{
    let did = be_u16(request, 1);
    let at = model.limits.attributes_address + 64 * index;
    assert(did == 0xF2A0 + index);
    assert(identifier_at(model, did) == at);
    assert(asks_identifier_read(model, request, len));
    law_identifier_read_shows_its_bytes(model, request, len, flash);
    let value = flash.subrange(at, at + 64);
    let message = identifier_value(did, value);
    law_message_is_sent(request, message);
    assert(message[0] == 0x62 && message[1] == 0xF2 && message[2] == 0xA0 + index);
    let buffer = answered(model, request, len, flash).action->Transmit_buffer;
    assert forall|j: int| 0 <= j < 64 implies #[trigger] buffer[3 + j] == flash[at + j] by {
        assert(message[3 + j] == value[j]);
    }
}

/// Can `patch` be put at `at` by rewriting the erase block around it: the block
/// does not hold the bootloader's own code, lies in flash, holds all of the
/// patch and fits the staging buffer, and its pages can be put back in
/// ascending order?
pub open spec fn patchable(model: UdsModel, flash: Seq<u8>, at: int, patch: Seq<u8>) -> bool {
    let page_len = model.limits.page_len as int;
    let first = at / page_len / 16 * 16;
    let wanted = Seq::new(
        flash.len(),
        |i: int|
            if at <= i < at + patch.len() {
                patch[i - at]
            } else {
                flash[i]
            },
    );
    &&& model.limits.text_end <= first * page_len
    &&& at + patch.len() <= (first + 16) * page_len <= flash.len()
    &&& 16 * page_len <= model.stage.len()
    &&& rewritable(
        flash,
        wanted.subrange(first * page_len, (first + 16) * page_len),
        first,
        page_len,
    )
}

/// What [`patchable`] means for the identifier that lies there.
proof fn lemma_patchable(model: UdsModel, flash: Seq<u8>, request: Seq<u8>, len: int)
    requires
        model.wf(),
        model.buffer is None,
        asks_identifier_write(model, request, len),
        patchable(
            model,
            flash,
            identifier_at(model, be_u16(request, 1)),
            identifier_patch(request, len),
        ),
    ensures
        identifier_rewritable(model, request, len, flash),
{
    let at = identifier_at(model, be_u16(request, 1));
    let patch = identifier_patch(request, len);
    let page_len = model.limits.page_len as int;
    let first = at / page_len / 16 * 16;
    assert((first + 16) * page_len == first * page_len + 16 * page_len) by (nonlinear_arith);
    let wanted = Seq::new(
        flash.len(),
        |i: int|
            if at <= i < at + patch.len() {
                patch[i - at]
            } else {
                flash[i]
            },
    );
    assert(wanted =~= write_at(flash, at, patch));
    lemma_block_start(at, page_len);
}

/// Does `request` write `data` to record `index`?
pub open spec fn writes_record(request: Seq<u8>, len: int, index: int, data: Seq<u8>) -> bool {
    &&& 15 <= request.len()
    &&& len == 3 + data.len() && len <= request.len() && data.len() <= 64
    &&& request[0] == 0x2E && request[1] == 0xF2 && request[2] == 0xA0 + index
    &&& request.subrange(3, len) == data
}

/// A record as it is stored: the data, and zeros up to sixty-four bytes.
pub open spec fn stored_record(data: Seq<u8>) -> Seq<u8> {
    data + Seq::new((64 - data.len()) as nat, |i: int| 0u8)
}

/// Writing identifier 0xF2A0 + i, for each i from 0 to 15, puts the data and
/// zeros after it at the i-th record of the attribute table, and changes no
/// other byte of flash.
pub proof fn law_record_is_written_to_its_place(
    model: UdsModel,
    flash: Seq<u8>,
    request: Seq<u8>,
    len: int,
    index: int,
    data: Seq<u8>,
)
    requires
        model.wf(),
        model.buffer is None,
        model.vars.security is Unlocked,
        0 <= index < 16,
        writes_record(request, len, index, data),
        patchable(
            model,
            flash,
            model.limits.attributes_address + 64 * index,
            stored_record(data),
        ),
    ensures
        ({
            let at = model.limits.attributes_address + 64 * index;
            let end = routine_run(model, request, len, flash, 32);
            &&& sends(end.action, seq![0x6E, 0xF2, (0xA0 + index) as u8])
            &&& end.model.wf()
            &&& end.model.buffer is None
            &&& end.model.limits == model.limits
            &&& end.flash.len() == flash.len()
            &&& forall|j: int|
                0 <= j < 64 ==> #[trigger] end.flash[at + j] == if j < data.len() {
                    data[j]
                } else {
                    0
                }
            &&& forall|i: int|
                0 <= i < flash.len() && !(at <= i < at + 64) ==> #[trigger] end.flash[i]
                    == flash[i]
        }),
{
    let did = be_u16(request, 1);
    let at = model.limits.attributes_address + 64 * index;
    assert(did == 0xF2A0 + index);
    assert(identifier_at(model, did) == at);
    let patch = identifier_patch(request, len);
    assert(patch =~= stored_record(data));
    lemma_patchable(model, flash, request, len);
    law_identifier_write_changes_only_its_bytes(model, request, len, flash);
    let pending = write_at(request, 0, seq![0x7Fu8, 0x2E, 0x78]);
    let message = seq![0x6Eu8] + be_bytes_u16(did);
    assert(message =~= seq![0x6E, 0xF2, (0xA0 + index) as u8]);
    law_message_is_sent(pending, message);
    let end = routine_run(model, request, len, flash, 32);
    let page_len = model.limits.page_len as int;
    assert(at + 64 <= flash.len());
    assert forall|j: int| 0 <= j < 64 implies #[trigger] end.flash[at + j] == if j < data.len() {
        data[j]
    } else {
        0
    } by {
        assert(end.flash[at + j] == patch[j]);
    }
}

/// The records are apart: writing one leaves what reading any other gives, and
/// reading the one written gives the data with zeros after it.
pub proof fn law_records_are_apart(
    model: UdsModel,
    flash: Seq<u8>,
    request: Seq<u8>,
    len: int,
    index: int,
    data: Seq<u8>,
    question: Seq<u8>,
    question_len: int,
    other: int,
)
    requires
        model.wf(),
        model.buffer is None,
        model.vars.security is Unlocked,
        0 <= index < 16,
        writes_record(request, len, index, data),
        patchable(
            model,
            flash,
            model.limits.attributes_address + 64 * index,
            stored_record(data),
        ),
        record_readable(model, other, flash),
        reads_record(question, question_len, other),
    ensures
        ({
            let end = routine_run(model, request, len, flash, 32);
            let before = answered(model, question, question_len, flash);
            let after = answered(end.model, question, question_len, end.flash);
            &&& before.action matches Action::Transmit { buffer: old_answer, len: 67 }
            &&& after.action matches Action::Transmit { buffer: new_answer, len: 67 }
            &&& forall|j: int|
                0 <= j < 64 ==> #[trigger] new_answer[3 + j] == if other != index {
                    old_answer[3 + j]
                } else if j < data.len() {
                    data[j]
                } else {
                    0
                }
        }),
{
    law_record_is_written_to_its_place(model, flash, request, len, index, data);
    law_record_is_read_from_its_place(model, flash, question, question_len, other);
    let end = routine_run(model, request, len, flash, 32);
    law_record_is_read_from_its_place(end.model, end.flash, question, question_len, other);
    let at = model.limits.attributes_address + 64 * other;
    let mine = model.limits.attributes_address + 64 * index;
    let old_answer = answered(model, question, question_len, flash).action->Transmit_buffer;
    let new_answer = answered(
        end.model,
        question,
        question_len,
        end.flash,
    ).action->Transmit_buffer;
    assert forall|j: int| 0 <= j < 64 implies #[trigger] new_answer[3 + j] == if other != index {
        old_answer[3 + j]
    } else if j < data.len() {
        data[j]
    } else {
        0
    } by {
        assert(new_answer[3 + j] == end.flash[at + j]);
        assert(old_answer[3 + j] == flash[at + j]);
        if other == index {
            assert(end.flash[mine + j] == if j < data.len() {
                data[j]
            } else {
                0
            });
        }
    }
}

/// Does `request` read the kernel's start address?
pub open spec fn reads_start(request: Seq<u8>, len: int) -> bool {
    &&& 3 <= len <= request.len()
    &&& 7 <= request.len()
    &&& request[0] == 0x22 && request[1] == 0xF2 && request[2] == 0x01
}

/// Reading identifier 0xF201 answers with the number that the four bytes at
/// offset 32 of the flags write down, least significant first there and most
/// significant first on the wire.
pub proof fn law_start_address_is_read_from_the_flags(
    model: UdsModel,
    flash: Seq<u8>,
    request: Seq<u8>,
    len: int,
)
    requires
        model.wf(),
        model.buffer is None,
        reads_start(request, len),
        (model.limits.flags_address + 32) % (model.limits.page_len as int) + 4
            <= model.limits.page_len,
        model.limits.flags_address + 36 <= flash.len(),
        flash.len() as int % (model.limits.page_len as int) == 0,
    ensures
        ({
            let at = model.limits.flags_address + 32;
            let end = answered(model, request, len, flash);
            &&& end.flash == flash
            &&& end.action matches Action::Transmit { buffer, len: 7 }
            &&& buffer[0] == 0x62 && buffer[1] == 0xF2 && buffer[2] == 0x01
            &&& big_endian(buffer.subrange(3, 7)) == little_endian(flash.subrange(at, at + 4))
        }),
{
    let did = be_u16(request, 1);
    let at = model.limits.flags_address + 32;
    assert(did == 0xF201);
    assert(identifier_at(model, did) == at);
    law_identifier_read_shows_its_bytes(model, request, len, flash);
    let value = flash.subrange(at, at + 4);
    let message = identifier_value(did, value.reverse());
    law_message_is_sent(request, message);
    assert(message[0] == 0x62 && message[1] == 0xF2 && message[2] == 0x01);
    let buffer = answered(model, request, len, flash).action->Transmit_buffer;
    assert(buffer.subrange(3, 7) =~= value.reverse());
    lemma_reversed(value);
}

/// Four bytes say the same number in either order.
proof fn lemma_reversed(bytes: Seq<u8>)
    requires
        bytes.len() == 4,
    ensures
        big_endian(bytes.reverse()) == little_endian(bytes),
{
    law_integers_are_what_their_bytes_say(bytes, 0);
    law_integers_are_what_their_bytes_say(bytes.reverse(), 0);
    assert(bytes.subrange(0, 4) =~= bytes);
    assert(bytes.reverse().subrange(0, 4) =~= bytes.reverse());
    assert(be_u32(bytes.reverse(), 0) == le_u32(bytes, 0));
}

/// Writing identifier 0xF201 puts the address, least significant byte first, at
/// offset 32 of the flags, and changes no other byte of flash.
#[verifier::rlimit(60)]
pub proof fn law_start_address_is_written_to_the_flags(
    model: UdsModel,
    flash: Seq<u8>,
    request: Seq<u8>,
    address: u32,
)
    requires
        model.wf(),
        model.buffer is None,
        model.vars.security is Unlocked,
        15 <= request.len(),
        request[0] == 0x2E && request[1] == 0xF2 && request[2] == 0x01,
        big_endian(request.subrange(3, 7)) == address,
        model.limits.write_floor <= address < model.limits.flash_end,
        patchable(
            model,
            flash,
            model.limits.flags_address + 32,
            seq![request[6], request[5], request[4], request[3]],
        ),
    ensures
        ({
            let at = model.limits.flags_address + 32;
            let end = routine_run(model, request, 7, flash, 32);
            &&& sends(end.action, seq![0x6E, 0xF2, 0x01])
            &&& end.flash.len() == flash.len()
            &&& little_endian(end.flash.subrange(at, at + 4)) == address
            &&& forall|i: int|
                0 <= i < flash.len() && !(at <= i < at + 4) ==> #[trigger] end.flash[i]
                    == flash[i]
        }),
{
    let did = be_u16(request, 1);
    let at = model.limits.flags_address + 32;
    assert(did == 0xF201);
    assert(identifier_at(model, did) == at);
    law_integers_are_what_their_bytes_say(request, 3);
    let patch = identifier_patch(request, 7);
    assert(patch =~= seq![request[6], request[5], request[4], request[3]]);
    lemma_patchable(model, flash, request, 7);
    law_identifier_write_changes_only_its_bytes(model, request, 7, flash);
    let pending = write_at(request, 0, seq![0x7Fu8, 0x2E, 0x78]);
    let message = seq![0x6Eu8] + be_bytes_u16(did);
    assert(message =~= seq![0x6E, 0xF2, 0x01]);
    law_message_is_sent(pending, message);
    let end = routine_run(model, request, 7, flash, 32);
    assert(at + 4 <= flash.len());
    law_bytes_say_the_integer(address, 0);
    assert(patch == le_bytes(address));
    law_write_at_changes_its_range_only(flash, at, patch);
}

/// A start address that lies across two pages is not read: the failure is
/// reported and nothing changes. Any other is read from the page it is in.
pub proof fn law_unreadable_start_address_is_reported(
    model: UdsModel,
    request: Seq<u8>,
    len: int,
)
    requires
        reaches(model, request, len),
        reads_start(request, len),
    ensures
        ({
            let page_len = model.limits.page_len as int;
            let at = model.limits.flags_address + 32;
            let (next, action) = model.message_received(request, len, true);
            if at % page_len + 4 > page_len {
                next == model && sends(action, seq![0x7F, 0x22, 0x72])
            } else {
                &&& action matches Action::ReadPage { page_number, page: _ }
                &&& page_number == at / page_len
            }
        }),
{
    let did = be_u16(request, 1);
    let at = model.limits.flags_address + 32;
    assert(did == 0xF201);
    law_message_is_sent(request, negative(0x22, 0x72));
    lemma_split(at, model.limits.page_len as int);
}

} // verus!

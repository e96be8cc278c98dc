//! What the server promises as a whole.
//!
//! Each law is about every well-formed state and every event, or about what
//! a whole exchange with a tester leaves in flash.

use vstd::prelude::*;

use crate::actions::{sendable, transmit, Action};
use crate::bytes::{be_bytes, be_u16, be_u32, write_at};
use crate::paging::{
    lemma_join, lemma_page_order, lemma_round_up, lemma_split, lemma_start_order,
};
use crate::uds::codes::{
    ATTRIBUTE_RECORD, DID_ATTRIBUTE_BASE, DID_ATTRIBUTE_LAST, DID_KERNEL_START_ADDRESS, Job, Limits,
    NRC_CONDITIONS_NOT_CORRECT, NRC_INCORRECT_LENGTH, NRC_INVALID_KEY, NRC_REQUEST_SEQUENCE_ERROR,
    NRC_RESPONSE_PENDING, NRC_SECURITY_ACCESS_DENIED, NRC_UPLOAD_DOWNLOAD_NOT_ACCEPTED,
    SECURITY_KEY_XOR, SESSION_DEFAULT, SESSION_PROGRAMMING, SID_DIAGNOSTIC_SESSION_CONTROL,
    SID_READ_DATA_BY_IDENTIFIER, SID_REQUEST_DOWNLOAD, SID_REQUEST_TRANSFER_EXIT,
    SID_REQUEST_UPLOAD, SID_ROUTINE_CONTROL, SID_SECURITY_ACCESS, SID_TESTER_PRESENT,
    SID_TRANSFER_DATA, SID_WRITE_DATA_BY_IDENTIFIER, Security, Transfer,
};
use crate::uds::model::{negative, positive, Outcome, UdsModel};

verus! {

/// Anything that can happen to a server.
pub enum Event {
    Received { buffer: Seq<u8>, len: int, ok: bool },
    Transmitted { buffer: Seq<u8> },
    ReadRefused { page: Seq<u8> },
    WriteRefused { page: Seq<u8> },
    EraseRefused,
    ReadComplete { page: Seq<u8> },
    WriteComplete { page: Seq<u8>, ok: bool },
    EraseComplete { ok: bool },
}

/// What a server does on an event.
pub open spec fn on(model: UdsModel, event: Event) -> Outcome {
    match event {
        Event::Received { buffer, len, ok } => model.message_received(buffer, len, ok),
        Event::Transmitted { buffer } => model.message_transmitted(buffer),
        Event::ReadRefused { page } => model.read_refused(page),
        Event::WriteRefused { page } => model.write_refused(page),
        Event::EraseRefused => model.erase_refused(),
        Event::ReadComplete { page } => model.read_complete(page),
        Event::WriteComplete { page, ok } => model.write_complete(page, ok),
        Event::EraseComplete { ok } => model.erase_complete(ok),
    }
}

/// Can the event happen in this state? Each of the two buffers is in one place
/// at a time, and a page comes back as long as it left.
pub open spec fn possible(model: UdsModel, event: Event) -> bool {
    &&& model.wf()
    &&& match event {
        Event::Received { buffer, len, ok } => model.buffer is None && (ok ==> 0 <= len
            <= buffer.len()),
        Event::Transmitted { buffer } => model.buffer is None,
        Event::ReadRefused { page } | Event::WriteRefused { page } | Event::ReadComplete { page }
        | Event::WriteComplete { page, .. } => model.page_buffer is None && page.len()
            == model.limits.page_len,
        Event::EraseRefused | Event::EraseComplete { .. } => true,
    }
}

/// The flash page an action would change.
pub open spec fn changed_page(action: Action<Seq<u8>>) -> Option<int> {
    match action {
        Action::WritePage { page_number, page: _ } => Some(page_number as int),
        Action::ErasePage { page_number } => Some(page_number as int),
        _ => None,
    }
}

/// May the server change this page at all: either it touches the range that
/// transfers and erases are confined to, or it lies above the bootloader's
/// own code.
pub open spec fn may_change(limits: Limits, page_number: int) -> bool {
    let page_len = limits.page_len as int;
    ||| limits.write_floor as int / page_len <= page_number < (limits.flash_end + page_len - 1)
        / page_len
    ||| limits.text_end <= page_number * page_len
}

/// The page that holds an address in a range touches that range.
proof fn lemma_page_touches_range(floor: int, address: int, end: int, page_len: int)
    requires
        0 <= floor <= address < end,
        0 < page_len,
    ensures
        floor / page_len <= address / page_len < (end + page_len - 1) / page_len,
{
    lemma_page_order(floor, address, page_len);
    lemma_page_order(address, end - 1, page_len);
    lemma_round_up(end, page_len);
}

/// A step changes only pages that may be changed.
proof fn lemma_step_unreachable(model: UdsModel)
    requires
        model.wf(),
    ensures
        changed_page(model.step().1) matches Some(page_number) ==> may_change(
            model.limits,
            page_number,
        ),
{
    let first = model.vars.stage_first_page as int;
    let page_len = model.limits.page_len as int;
    match model.vars.job {
        Job::StageRead { page, end } | Job::StageWrite { page, end } => {
            assert(first + 16 <= first * page_len + 16 * page_len && forall|p: int|
                0 <= p < 16 ==> first * page_len <= #[trigger] (first + p) * page_len)
                by (nonlinear_arith)
                requires
                    0 <= first,
                    0 < page_len,
            ;
        },
        _ => {},
    }
}

/// A page that arrives changes only pages that may be changed.
proof fn lemma_read_unreachable(model: UdsModel, page: Seq<u8>)
    requires
        possible(model, Event::ReadComplete { page }),
    ensures
        changed_page(model.read_complete(page).1) matches Some(page_number) ==> may_change(
            model.limits,
            page_number,
        ),
{
    match model.vars.job {
        Job::StageRead { page: next, .. } => {
            let done = if next == 0 {
                0
            } else {
                next - 1
            };
            lemma_step_unreachable(
                UdsModel {
                    page_buffer: Some(page),
                    stage: write_at(model.stage, done * page.len(), page),
                    ..model
                },
            );
        },
        _ => {},
    }
}

/// No event whatsoever makes the server write or erase a page outside the
/// range it is confined to, other than one above the bootloader's own code.
pub proof fn law_bootloader_is_unreachable(model: UdsModel, event: Event)
    requires
        possible(model, event),
    ensures
        changed_page(on(model, event).1) matches Some(page_number) ==> may_change(
            model.limits,
            page_number,
        ),
{
    match event {
        Event::Received { buffer, len, ok } => if ok {
            lemma_received_in_range(model, buffer, len);
        },
        Event::Transmitted { buffer } => {
            let holding = UdsModel { buffer: Some(buffer), ..model };
            if model.vars.job is StageRead || model.vars.job is Erase {
                lemma_step_unreachable(holding);
            }
        },
        Event::ReadComplete { page } => {
            lemma_read_unreachable(model, page);
        },
        Event::WriteComplete { page, ok } => {
            lemma_step_unreachable(UdsModel { page_buffer: Some(page), ..model });
        },
        Event::EraseComplete { ok } => {
            lemma_step_unreachable(model);
        },
        _ => {},
    }
}

/// Transfers and erases never touch the bootloader's own region: with the
/// floor on a page boundary, every page they change lies at or above it, and
/// starts below the end of flash. Only a staged rewrite is another matter.
#[verifier::rlimit(40)]
pub proof fn law_transfers_and_erases_stay_above_the_floor(model: UdsModel, event: Event)
    requires
        possible(model, event),
        model.limits.write_floor as int % (model.limits.page_len as int) == 0,
        model.vars.job !is StageRead && model.vars.job !is StageWrite,
    ensures
        changed_page(on(model, event).1) matches Some(page_number) ==> {
            &&& model.limits.write_floor <= page_number * model.limits.page_len
            &&& page_number * model.limits.page_len < model.limits.flash_end
        },
{
    let floor = model.limits.write_floor as int;
    let end = model.limits.flash_end as int;
    let page_len = model.limits.page_len as int;
    assert forall|page_number: int|
        floor / page_len <= page_number < (end + page_len - 1) / page_len implies floor
        <= #[trigger] (page_number * page_len) < end by {
        lemma_split(floor, page_len);
        lemma_start_order(floor / page_len, page_number, page_len);
        lemma_round_up(end, page_len);
        if end > 0 {
            lemma_split(end - 1, page_len);
            lemma_start_order(page_number, (end - 1) / page_len, page_len);
        } else {
            lemma_join(page_len - 1, 0, page_len - 1, page_len);
            lemma_split(floor, page_len);
        }
    }
    match event {
        Event::Received { buffer, len, ok } => if ok {
            lemma_received_in_range(model, buffer, len);
        },
        Event::ReadComplete { page } => {
            assert(changed_page(model.read_complete(page).1) is None);
        },
        _ => {},
    }
}

/// A message changes only pages in the range that transfers are confined to.
#[verifier::rlimit(40)]
proof fn lemma_received_in_range(model: UdsModel, buffer: Seq<u8>, len: int)
    requires
        model.wf(),
        model.buffer is None,
        0 <= len <= buffer.len(),
    ensures
        changed_page(model.handle(buffer, len).1) matches Some(page_number)
            ==> model.limits.write_floor as int / (model.limits.page_len as int) <= page_number < (
        model.limits.flash_end + model.limits.page_len - 1) / (model.limits.page_len as int),
{
    if model.vars.transfer is Download && model.vars.transfer_remaining > 0 {
        lemma_page_touches_range(
            model.limits.write_floor as int,
            model.vars.transfer_address as int,
            model.limits.flash_end as int,
            model.limits.page_len as int,
        );
    }
    let (_, action) = model.handle(buffer, len);
    if buffer[0] != SID_TRANSFER_DATA {
        assert(changed_page(action) is None);
    }
}

/// The services that change or reveal flash, and the length each insists on
/// before looking any further.
pub open spec fn guarded_length(sid: u8) -> Option<int> {
    if sid == SID_WRITE_DATA_BY_IDENTIFIER {
        Some(3)
    } else if sid == SID_ROUTINE_CONTROL {
        Some(4)
    } else if sid == SID_REQUEST_DOWNLOAD || sid == SID_REQUEST_UPLOAD {
        Some(11)
    } else {
        None
    }
}

/// Until it is unlocked, the server refuses every service that changes or
/// reveals flash, and nothing about it changes.
#[verifier::rlimit(40)]
pub proof fn law_locked_services_are_refused(model: UdsModel, buffer: Seq<u8>, len: int)
    requires
        !model.unlocked(),
        0 < len <= buffer.len(),
        guarded_length(buffer[0]) is Some,
    ensures
        model.message_received(buffer, len, true) == (
            model,
            transmit(
                buffer,
                negative(
                    buffer[0],
                    if len < guarded_length(buffer[0])->0 {
                        NRC_INCORRECT_LENGTH
                    } else {
                        NRC_SECURITY_ACCESS_DENIED
                    },
                ),
            ),
        ),
{
}

/// The default session moves no data: it has no transfer to move a block of
/// or to end.
pub proof fn law_default_session_moves_no_data(model: UdsModel, buffer: Seq<u8>, len: int)
    requires
        model.wf(),
        model.vars.session == SESSION_DEFAULT,
        0 < len <= buffer.len(),
        buffer[0] == SID_TRANSFER_DATA || buffer[0] == SID_REQUEST_TRANSFER_EXIT,
    ensures
        model.message_received(buffer, len, true) == (
            model,
            transmit(buffer, negative(buffer[0], NRC_REQUEST_SEQUENCE_ERROR)),
        ),
{
}

/// Is this the key that the seed on issue asks for?
pub open spec fn is_right_key(model: UdsModel, event: Event) -> bool {
    &&& event matches Event::Received { buffer, len, ok }
    &&& ok && len >= 6
    &&& model.vars.session == SESSION_PROGRAMMING
    &&& buffer[0] == SID_SECURITY_ACCESS && buffer[1] == 0x02
    &&& model.vars.security matches Security::SeedIssued(seed)
    &&& be_u32(buffer, 2) == seed ^ SECURITY_KEY_XOR
}

/// A job that does not concern the session leaves it alone.
proof fn lemma_steps_keep_security(model: UdsModel)
    ensures
        model.step().0.vars.security == model.vars.security,
{
}

/// Only a message can change the lock.
#[verifier::rlimit(40)]
proof fn lemma_handle_unlocks_only_by_key(model: UdsModel, buffer: Seq<u8>, len: int)
    requires
        !model.unlocked(),
        0 <= len <= buffer.len(),
    ensures
        model.handle(buffer, len).0.unlocked() <==> len > 0 && is_right_key(
            model,
            Event::Received { buffer, len, ok: true },
        ),
{
}

/// The one way to unlock a server is to answer the seed it issued with the
/// key that belongs to it, in the programming session.
#[verifier::rlimit(40)]
pub proof fn law_only_the_right_key_unlocks(model: UdsModel, event: Event)
    requires
        possible(model, event),
        !model.unlocked(),
    ensures
        on(model, event).0.unlocked() <==> is_right_key(model, event),
{
    match event {
        Event::Received { buffer, len, ok } => if ok {
            lemma_handle_unlocks_only_by_key(model, buffer, len);
        },
        Event::Transmitted { buffer } => {
            lemma_steps_keep_security(UdsModel { buffer: Some(buffer), ..model });
        },
        Event::ReadComplete { page } => {
            assert(model.read_complete(page).0.vars.security == model.vars.security);
        },
        Event::WriteComplete { page, ok } => {
            lemma_steps_keep_security(UdsModel { page_buffer: Some(page), ..model });
        },
        Event::EraseComplete { ok } => {
            lemma_steps_keep_security(model);
        },
        _ => {},
    }
}

/// A tester in the programming session that asks for a seed, and answers it
/// with the key that belongs to it, has unlocked the server.
pub proof fn law_seed_and_key_unlock(
    model: UdsModel,
    seed_request: Seq<u8>,
    key_request: Seq<u8>,
)
    requires
        model.vars.session == SESSION_PROGRAMMING,
        seed_request.len() >= 2,
        seed_request[0] == SID_SECURITY_ACCESS && seed_request[1] == 0x01,
        key_request.len() >= 6,
        key_request[0] == SID_SECURITY_ACCESS && key_request[1] == 0x02,
        be_u32(key_request, 2) == model.limits.seed() ^ SECURITY_KEY_XOR,
    ensures
        ({
            let (seeded, seed_answer) = model.message_received(
                seed_request,
                seed_request.len() as int,
                true,
            );
            let (unlocked, key_answer) = seeded.message_received(
                key_request,
                key_request.len() as int,
                true,
            );
            &&& seed_answer == transmit(
                seed_request,
                seq![positive(SID_SECURITY_ACCESS), 0x01] + be_bytes(model.limits.seed()),
            )
            &&& unlocked.unlocked()
            &&& key_answer == transmit(key_request, seq![positive(SID_SECURITY_ACCESS), 0x02])
        }),
{
}

/// A wrong key locks the server, and the next key is refused until another
/// seed has been asked for: a guesser pays one request per guess.
pub proof fn law_wrong_key_costs_the_seed(
    model: UdsModel,
    wrong: Seq<u8>,
    next: Seq<u8>,
)
    requires
        model.vars.session == SESSION_PROGRAMMING,
        model.vars.security is SeedIssued,
        wrong.len() >= 6 && next.len() >= 6,
        wrong[0] == SID_SECURITY_ACCESS && wrong[1] == 0x02,
        next[0] == SID_SECURITY_ACCESS && next[1] == 0x02,
        be_u32(wrong, 2) != model.vars.security->SeedIssued_0 ^ SECURITY_KEY_XOR,
    ensures
        ({
            let (locked, answer) = model.message_received(wrong, wrong.len() as int, true);
            &&& locked.vars.security is Locked
            &&& answer == transmit(wrong, negative(SID_SECURITY_ACCESS, NRC_INVALID_KEY))
            &&& locked.message_received(next, next.len() as int, true) == (
                locked,
                transmit(next, negative(SID_SECURITY_ACCESS, NRC_REQUEST_SEQUENCE_ERROR)),
            )
        }),
{
}

/// Leaving the programming session drops any unlock and any transfer.
pub proof fn law_leaving_drops_unlock_and_transfer(model: UdsModel, buffer: Seq<u8>, len: int)
    requires
        2 <= len <= buffer.len(),
        buffer[0] == SID_DIAGNOSTIC_SESSION_CONTROL,
        buffer[1] & 0x7F == SESSION_DEFAULT,
    ensures
        ({
            let after = model.message_received(buffer, len, true).0;
            &&& after.vars.session == SESSION_DEFAULT
            &&& after.vars.security is Locked
            &&& after.vars.transfer is Closed
        }),
{
}

/// One transfer at a time: while one is open, in either direction, asking for
/// another changes nothing.
pub proof fn law_one_transfer_at_a_time(model: UdsModel, buffer: Seq<u8>, len: int)
    requires
        model.unlocked(),
        model.vars.transfer !is Closed,
        11 <= len <= buffer.len(),
        buffer[0] == SID_REQUEST_DOWNLOAD || buffer[0] == SID_REQUEST_UPLOAD,
    ensures
        model.message_received(buffer, len, true) == (
            model,
            transmit(buffer, negative(buffer[0], NRC_UPLOAD_DOWNLOAD_NOT_ACCEPTED)),
        ),
{
}

/// Does an action keep the flash busy?
pub open spec fn is_flash_work(action: Action<Seq<u8>>) -> bool {
    action is ReadPage || action is WritePage || action is ErasePage
}

/// Long work is announced first: a routine or a rewritten identifier never
/// touches flash before 0x78 has been answered, and that work starts as soon
/// as 0x78 is on the wire.
#[verifier::rlimit(40)]
pub proof fn law_pending_is_answered_before_work(model: UdsModel, buffer: Seq<u8>, len: int)
    requires
        model.wf(),
        model.buffer is None,
        0 < len <= buffer.len(),
        buffer[0] == SID_ROUTINE_CONTROL || buffer[0] == SID_WRITE_DATA_BY_IDENTIFIER,
    ensures
        ({
            let (next, action) = model.message_received(buffer, len, true);
            &&& !is_flash_work(action)
            &&& action matches Action::Transmit { buffer: sent, len: _ }
            &&& next.vars.job != model.vars.job ==> {
                &&& action == transmit(buffer, negative(buffer[0], NRC_RESPONSE_PENDING))
                &&& is_flash_work(next.message_transmitted(sent).1)
            }
        }),
{
    let address = be_u32(buffer, 4) as int;
    let size = be_u32(buffer, 8) as int;
    let page_len = model.limits.page_len as int;
    if model.limits.range_ok(be_u32(buffer, 4), be_u32(buffer, 8)) {
        lemma_page_touches_range(address, address, address + size, page_len);
        lemma_split(address + size + page_len - 1, page_len);
    }
}

/// A tester that asks not to be answered is not answered.
pub proof fn law_silent_keep_alive(model: UdsModel, buffer: Seq<u8>, len: int)
    requires
        2 <= len <= buffer.len(),
        buffer[0] == SID_TESTER_PRESENT,
        buffer[1] & 0x80 != 0,
    ensures
        model.message_received(buffer, len, true) == (model, Action::Listen { buffer }),
{
}

/// Noise on the link, an error or an empty message, changes nothing.
pub proof fn law_noise_is_ignored(model: UdsModel, buffer: Seq<u8>, len: int, ok: bool)
    requires
        !ok || len == 0,
    ensures
        model.message_received(buffer, len, ok) == (model, Action::Listen { buffer }),
{
}

/// Is this a well-formed request to rewrite what lies at `address`?
pub open spec fn asks_rewrite(model: UdsModel, buffer: Seq<u8>, len: int, address: int) -> bool {
    let did = be_u16(buffer, 1);
    &&& buffer[0] == SID_WRITE_DATA_BY_IDENTIFIER
    &&& 3 <= len <= buffer.len() && len - 3 <= ATTRIBUTE_RECORD
    &&& if did == DID_KERNEL_START_ADDRESS {
        &&& len == 7
        &&& model.limits.write_floor <= be_u32(buffer, 3) < model.limits.flash_end
        &&& address == model.start_address_at()
    } else {
        &&& DID_ATTRIBUTE_BASE <= did <= DID_ATTRIBUTE_LAST
        &&& address == model.attribute_at(did)
    }
}

/// A rewrite never touches an erase block that holds the bootloader's own
/// code: asking for one is refused and no job is started.
pub proof fn law_own_code_is_never_rewritten(
    model: UdsModel,
    buffer: Seq<u8>,
    len: int,
    address: int,
)
    requires
        model.wf(),
        model.buffer is None,
        model.unlocked(),
        asks_rewrite(model, buffer, len, address),
        model.limits.block_first_page(address) * model.limits.page_len < model.limits.text_end,
    ensures
        ({
            let (next, action) = model.message_received(buffer, len, true);
            &&& next.vars == model.vars
            &&& action == transmit(
                buffer,
                negative(SID_WRITE_DATA_BY_IDENTIFIER, NRC_CONDITIONS_NOT_CORRECT),
            )
        }),
{
}

/// The shortest message buffer that every answer of fixed length fits in.
pub const ANSWER_LEN: usize = 15;

/// A buffer of that length is long enough: whatever happens, the message the
/// server wants sent fits the buffer it is in.
pub proof fn law_answers_fit(model: UdsModel, event: Event)
    requires
        possible(model, event),
        model.buffer matches Some(buffer) ==> buffer.len() >= ANSWER_LEN,
        event matches Event::Received { buffer, .. } ==> buffer.len() >= ANSWER_LEN,
        event matches Event::Transmitted { buffer } ==> buffer.len() >= ANSWER_LEN,
    ensures
        sendable(on(model, event)),
{
    match event {
        Event::Received { buffer, len, ok } => if ok {
            lemma_handle_fits(model, buffer, len);
        },
        Event::ReadComplete { page } => {
            lemma_read_fits(model, page);
        },
        Event::WriteComplete { page, ok } => {
            lemma_step_fits(UdsModel { page_buffer: Some(page), ..model });
        },
        Event::EraseComplete { ok } => {
            lemma_step_fits(model);
        },
        Event::Transmitted { buffer } => {
            lemma_step_fits(UdsModel { buffer: Some(buffer), ..model });
        },
        _ => {},
    }
}

proof fn lemma_step_fits(model: UdsModel)
    requires
        model.buffer matches Some(buffer) ==> buffer.len() >= ANSWER_LEN,
    ensures
        sendable(model.step()),
{
}

proof fn lemma_read_fits(model: UdsModel, page: Seq<u8>)
    requires
        possible(model, Event::ReadComplete { page }),
        model.buffer matches Some(buffer) ==> buffer.len() >= ANSWER_LEN,
    ensures
        sendable(model.read_complete(page)),
{
    match model.vars.job {
        Job::StageRead { page: next, .. } => {
            let done = if next == 0 {
                0
            } else {
                next - 1
            };
            lemma_step_fits(
                UdsModel {
                    page_buffer: Some(page),
                    stage: write_at(model.stage, done * page.len(), page),
                    ..model
                },
            );
        },
        _ => {},
    }
}

proof fn lemma_session_fits(model: UdsModel, buffer: Seq<u8>, len: int)
    requires
        buffer.len() >= ANSWER_LEN,
    ensures
        sendable(model.session_control(buffer, len)),
        sendable(model.ecu_reset(buffer, len)),
        sendable(model.security_access(buffer, len)),
        sendable(model.tester_present(buffer, len)),
        sendable(model.request_transfer_exit(buffer)),
{
}

proof fn lemma_did_read_fits(model: UdsModel, buffer: Seq<u8>, len: int)
    requires
        model.page_buffer is Some,
        buffer.len() >= ANSWER_LEN,
    ensures
        sendable(model.read_data_by_identifier(buffer, len)),
{
}

proof fn lemma_did_write_fits(model: UdsModel, buffer: Seq<u8>, len: int)
    requires
        buffer.len() >= ANSWER_LEN,
    ensures
        sendable(model.write_data_by_identifier(buffer, len)),
{
}

proof fn lemma_routine_fits(model: UdsModel, buffer: Seq<u8>, len: int)
    requires
        buffer.len() >= ANSWER_LEN,
    ensures
        sendable(model.routine_control(buffer, len)),
        sendable(model.request_transfer(buffer, len, Transfer::Download)),
        sendable(model.request_transfer(buffer, len, Transfer::Upload)),
{
}

proof fn lemma_transfer_fits(model: UdsModel, buffer: Seq<u8>, len: int)
    requires
        model.page_buffer is Some,
        buffer.len() >= ANSWER_LEN,
    ensures
        sendable(model.transfer_data(buffer, len)),
{
}

#[verifier::rlimit(40)]
proof fn lemma_handle_fits(model: UdsModel, buffer: Seq<u8>, len: int)
    requires
        model.wf(),
        model.buffer is None,
        0 <= len <= buffer.len(),
        buffer.len() >= ANSWER_LEN,
    ensures
        sendable(model.handle(buffer, len)),
{
    let sid = buffer[0];
    if sid == SID_READ_DATA_BY_IDENTIFIER {
        lemma_did_read_fits(model, buffer, len);
    } else if sid == SID_WRITE_DATA_BY_IDENTIFIER {
        lemma_did_write_fits(model, buffer, len);
    } else if sid == SID_ROUTINE_CONTROL || sid == SID_REQUEST_DOWNLOAD || sid
        == SID_REQUEST_UPLOAD {
        lemma_routine_fits(model, buffer, len);
    } else if sid == SID_TRANSFER_DATA {
        lemma_transfer_fits(model, buffer, len);
    } else {
        lemma_session_fits(model, buffer, len);
    }
}

} // verus!

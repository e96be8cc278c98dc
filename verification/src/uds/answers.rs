//! What a tester is answered, from the bytes it sends.
//!
//! Each law takes a request as it comes off the wire, and says byte for byte
//! what goes back and what that leaves of the server's state.

use vstd::prelude::*;

use crate::actions::{law_message_is_sent, sends, transmit, Action};
use crate::bytes::{
    be_bytes, be_u16, big_endian, law_bytes_say_the_integer,
    law_integers_are_what_their_bytes_say,
};
use crate::paging::lemma_split;
use crate::uds::codes::{Job, Limits, Security, Transfer, Vars};
use crate::uds::model::{
    boot_software_name, identifier_value, negative, positive, transfer_opened, UdsModel,
};

verus! {

/// Does this request reach the server between two others, in a buffer that any
/// answer of fixed length fits in?
pub open spec fn reaches(model: UdsModel, request: Seq<u8>, len: int) -> bool {
    &&& model.wf()
    &&& model.buffer is None
    &&& 0 < len <= request.len()
    &&& 15 <= request.len()
}

/// Is the request turned down with `code`, and nothing about the server
/// changed?
pub open spec fn turned_down(model: UdsModel, request: Seq<u8>, len: int, code: u8) -> bool {
    let (next, action) = model.message_received(request, len, true);
    &&& next == model
    &&& sends(action, seq![0x7F, request[0], code])
}

/// A refusal is what it looks like on the wire.
proof fn lemma_negative(buffer: Seq<u8>, sid: u8, code: u8)
    requires
        15 <= buffer.len(),
    ensures
        sends(transmit(buffer, negative(sid, code)), seq![0x7F, sid, code]),
{
    law_message_is_sent(buffer, negative(sid, code));
    assert(negative(sid, code) =~= seq![0x7F, sid, code]);
}

/// A service that the server does not offer is turned down as such.
pub proof fn law_unknown_service_is_refused(model: UdsModel, request: Seq<u8>, len: int)
    requires
        reaches(model, request, len),
        !(request[0] == 0x10 || request[0] == 0x11 || request[0] == 0x22 || request[0] == 0x27
            || request[0] == 0x2E || request[0] == 0x31 || request[0] == 0x34 || request[0] == 0x35
            || request[0] == 0x36 || request[0] == 0x37 || request[0] == 0x3E),
    ensures
        turned_down(model, request, len, 0x11),
{
    lemma_negative(request, request[0], 0x11);
}

/// How long a request for a service is at least.
pub open spec fn least_length(sid: u8) -> int {
    if sid == 0x34 || sid == 0x35 {
        11
    } else if sid == 0x31 {
        4
    } else if sid == 0x22 || sid == 0x2E {
        3
    } else {
        2
    }
}

/// A request that is too short to mean anything is turned down for its length.
pub proof fn law_short_request_is_refused(model: UdsModel, request: Seq<u8>, len: int)
    requires
        reaches(model, request, len),
        request[0] == 0x10 || request[0] == 0x11 || request[0] == 0x22 || request[0] == 0x27
            || request[0] == 0x2E || request[0] == 0x31 || request[0] == 0x34 || request[0] == 0x35
            || request[0] == 0x3E || request[0] == 0x36 && model.vars.transfer !is Closed,
        len < least_length(request[0]),
    ensures
        turned_down(model, request, len, 0x13),
{
    lemma_negative(request, request[0], 0x13);
}

/// Session control enters the session asked for, whether or not the tester
/// sets the top bit, and reports it with its timings. The default session is
/// locked and has no transfer; entering the programming session changes
/// nothing else. There are no other sessions.
pub proof fn law_session_control(model: UdsModel, request: Seq<u8>, len: int)
    requires
        reaches(model, request, len),
        2 <= len,
        request[0] == 0x10,
    ensures
        ({
            let session = request[1] as int % 128;
            let (next, action) = model.message_received(request, len, true);
            &&& session == 1 ==> {
                &&& sends(action, seq![0x50, 0x01, 0x00, 0x32, 0x01, 0xF4])
                &&& next == (UdsModel {
                    vars: Vars {
                        session: 1,
                        security: Security::Locked,
                        transfer: Transfer::Closed,
                        ..model.vars
                    },
                    ..model
                })
            }
            &&& session == 2 ==> {
                &&& sends(action, seq![0x50, 0x02, 0x00, 0x32, 0x01, 0xF4])
                &&& next == (UdsModel { vars: Vars { session: 2, ..model.vars }, ..model })
            }
            &&& session != 1 && session != 2 ==> turned_down(model, request, len, 0x12)
        }),
{
    let sub = request[1];
    assert(sub & 0x7F == sub % 128) by (bit_vector);
    lemma_negative(request, 0x10, 0x12);
    law_message_is_sent(request, seq![positive(0x10), (sub % 128) as u8, 0x00, 0x32, 0x01, 0xF4]);
}

/// A reset is acknowledged first, and happens once the acknowledgement is on
/// the wire. There is one kind of reset.
pub proof fn law_reset_is_acknowledged_first(
    model: UdsModel,
    request: Seq<u8>,
    len: int,
    back: Seq<u8>,
)
    requires
        reaches(model, request, len),
        2 <= len,
        request[0] == 0x11,
    ensures
        ({
            let (next, action) = model.message_received(request, len, true);
            &&& request[1] as int % 128 == 1 ==> {
                &&& sends(action, seq![0x51, 0x01])
                &&& next == (UdsModel { vars: Vars { job: Job::Reset, ..model.vars }, ..model })
                &&& next.message_transmitted(back).1 == (Action::<Seq<u8>>::Reset { then: None })
            }
            &&& request[1] as int % 128 != 1 ==> turned_down(model, request, len, 0x12)
        }),
{
    let sub = request[1];
    assert(sub & 0x7F == sub % 128) by (bit_vector);
    lemma_negative(request, 0x11, 0x12);
    law_message_is_sent(request, seq![positive(0x11), 0x01u8]);
}

/// A keep-alive is answered unless the tester asks for silence by the top bit,
/// and changes nothing.
pub proof fn law_keep_alive(model: UdsModel, request: Seq<u8>, len: int)
    requires
        reaches(model, request, len),
        2 <= len,
        request[0] == 0x3E,
    ensures
        ({
            let (next, action) = model.message_received(request, len, true);
            &&& next == model
            &&& request[1] < 0x80 ==> sends(action, seq![0x7E, 0x00])
            &&& request[1] >= 0x80 ==> action == (Action::Listen { buffer: request })
        }),
{
    let sub = request[1];
    assert(sub & 0x80 != 0 <==> sub >= 0x80) by (bit_vector);
    law_message_is_sent(request, seq![positive(0x3E), 0x00u8]);
}

/// The identifiers that are fixed by the build or by the session: the name of
/// the bootloader, the session, and where applications start.
pub proof fn law_fixed_identifiers(model: UdsModel, request: Seq<u8>, len: int)
    requires
        reaches(model, request, len),
        3 <= len,
        request[0] == 0x22,
    ensures
        ({
            let (next, action) = model.message_received(request, len, true);
            // "TOCKBL 0.1.0"
            &&& request[1] == 0xF1 && request[2] == 0x80 ==> next == model && sends(
                action,
                seq![
                    0x62, 0xF1, 0x80, 0x54, 0x4F, 0x43, 0x4B, 0x42, 0x4C, 0x20, 0x30, 0x2E, 0x31,
                    0x2E, 0x30,
                ],
            )
            &&& request[1] == 0xF1 && request[2] == 0x86 ==> next == model && sends(
                action,
                seq![0x62, 0xF1, 0x86, model.vars.session],
            )
            &&& request[1] == 0xF2 && request[2] == 0x00 ==> next == model && {
                &&& action matches Action::Transmit { buffer, len: 7 }
                &&& buffer[0] == 0x62 && buffer[1] == 0xF2 && buffer[2] == 0x00
                &&& big_endian(buffer.subrange(3, 7)) == model.limits.app_start
            }
            &&& !(request[1] == 0xF1 && (request[2] == 0x80 || request[2] == 0x86))
                && !(request[1] == 0xF2 && (request[2] <= 0x01 || 0xA0 <= request[2] <= 0xAF))
                ==> turned_down(model, request, len, 0x31)
        }),
{
    let did = be_u16(request, 1);
    assert(did == request[1] * 256 + request[2]);
    let (next, action) = model.message_received(request, len, true);
    lemma_negative(request, 0x22, 0x31);
    if request[1] == 0xF1 && request[2] == 0x80 {
        let message = identifier_value(did, boot_software_name());
        law_message_is_sent(request, message);
        assert(message =~= seq![
            0x62, 0xF1, 0x80, 0x54, 0x4F, 0x43, 0x4B, 0x42, 0x4C, 0x20, 0x30, 0x2E, 0x31, 0x2E,
            0x30,
        ]);
    } else if request[1] == 0xF1 && request[2] == 0x86 {
        let message = identifier_value(did, seq![model.vars.session]);
        law_message_is_sent(request, message);
        assert(message =~= seq![0x62, 0xF1, 0x86, model.vars.session]);
    } else if request[1] == 0xF2 && request[2] == 0x00 {
        let value = be_bytes(model.limits.app_start);
        let message = identifier_value(did, value);
        law_message_is_sent(request, message);
        law_bytes_say_the_integer(model.limits.app_start, did);
        let buffer = action->Transmit_buffer;
        assert(message[0] == 0x62 && message[1] == 0xF2 && message[2] == 0x00);
        assert(buffer.subrange(3, 7) =~= value);
    }
}

/// A seed is handed out in the programming session only. It is the end of
/// flash, rotated left by seven bits, with a fixed pattern of bits turned over.
pub proof fn law_seed_request(model: UdsModel, request: Seq<u8>, len: int)
    requires
        reaches(model, request, len),
        2 <= len,
        request[0] == 0x27,
    ensures
        ({
            let end = model.limits.flash_end as int;
            let (next, action) = model.message_received(request, len, true);
            &&& model.vars.session != 2 ==> turned_down(model, request, len, 0x22)
            &&& model.vars.session == 2 && request[1] == 0x01 ==> {
                &&& action matches Action::Transmit { buffer, len: 6 }
                &&& next.vars.security matches Security::SeedIssued(seed)
                &&& buffer[0] == 0x67 && buffer[1] == 0x01
                &&& big_endian(buffer.subrange(2, 6)) == seed
                &&& seed ^ 0xA5A5_1234 == (end * 128) % 0x1_0000_0000 + end / 0x200_0000
                &&& next == (UdsModel {
                    vars: Vars { security: Security::SeedIssued(seed), ..model.vars },
                    ..model
                })
            }
            &&& model.vars.session == 2 && request[1] != 0x01 && request[1] != 0x02
                ==> turned_down(model, request, len, 0x12)
        }),
{
    lemma_negative(request, 0x27, 0x22);
    lemma_negative(request, 0x27, 0x12);
    let seed = model.limits.seed();
    let end = model.limits.flash_end;
    assert((((end << 7) | (end >> 25)) ^ 0xA5A5_1234) ^ 0xA5A5_1234 == (end * 128)
        % 0x1_0000_0000 + end / 0x200_0000) by (bit_vector);
    if model.vars.session == 2 && request[1] == 0x01 {
        let message = seq![positive(0x27), 0x01u8] + be_bytes(seed);
        law_message_is_sent(request, message);
        law_bytes_say_the_integer(seed, 0);
        let buffer = model.message_received(request, len, true).1->Transmit_buffer;
        assert(message[0] == 0x67 && message[1] == 0x01);
        assert(buffer.subrange(2, 6) =~= be_bytes(seed));
    }
}

/// A key unlocks if and only if it differs from the seed that is out in exactly
/// the bits of a fixed pattern. Any other key costs the seed, and without a
/// seed there is no key.
pub proof fn law_key_request(model: UdsModel, request: Seq<u8>, len: int, key: u32)
    requires
        reaches(model, request, len),
        2 <= len,
        request[0] == 0x27 && request[1] == 0x02,
        model.vars.session == 2,
        key == big_endian(request.subrange(2, 6)),
    ensures
        ({
            let (next, action) = model.message_received(request, len, true);
            &&& len < 6 ==> turned_down(model, request, len, 0x13)
            &&& 6 <= len && !(model.vars.security is SeedIssued) ==> turned_down(
                model,
                request,
                len,
                0x24,
            )
            &&& 6 <= len ==> (model.vars.security matches Security::SeedIssued(seed)
                ==> if key ^ seed == 0x534F_434B {
                &&& sends(action, seq![0x67, 0x02])
                &&& next == (UdsModel {
                    vars: Vars { security: Security::Unlocked, ..model.vars },
                    ..model
                })
            } else {
                &&& sends(action, seq![0x7F, 0x27, 0x35])
                &&& next == (UdsModel {
                    vars: Vars { security: Security::Locked, ..model.vars },
                    ..model
                })
            })
        }),
{
    lemma_negative(request, 0x27, 0x13);
    lemma_negative(request, 0x27, 0x24);
    lemma_negative(request, 0x27, 0x35);
    law_message_is_sent(request, seq![positive(0x27), 0x02u8]);
    law_integers_are_what_their_bytes_say(request, 2);
    if model.vars.security is SeedIssued {
        let seed = model.vars.security->SeedIssued_0;
        assert((key ^ seed == 0x534F_434B) <==> (key == seed ^ 0x534F_434B)) by (bit_vector);
    }
}

/// Until the server is unlocked, whatever changes or reveals flash is turned
/// down for that.
pub proof fn law_locked_is_refused(model: UdsModel, request: Seq<u8>, len: int)
    requires
        reaches(model, request, len),
        !(model.vars.security is Unlocked),
        request[0] == 0x2E || request[0] == 0x31 || request[0] == 0x34 || request[0] == 0x35,
        least_length(request[0]) <= len,
    ensures
        turned_down(model, request, len, 0x33),
{
    lemma_negative(request, request[0], 0x33);
}

/// May a transfer, an erase or a checksum cover `size` bytes from `address` on?
pub open spec fn in_bounds(model: UdsModel, address: int, size: int) -> bool {
    &&& 0 < size
    &&& model.limits.write_floor <= address
    &&& address + size <= model.limits.flash_end
}

/// Which routines there are, and what they may be asked to cover. What is taken
/// on is announced, and nothing but the job at hand changes.
pub proof fn law_routine_request(model: UdsModel, request: Seq<u8>, len: int)
    requires
        reaches(model, request, len),
        4 <= len,
        request[0] == 0x31,
        model.vars.security is Unlocked,
    ensures
        ({
            let erases = request[2] == 0xFF && request[3] == 0x00;
            let checks = request[2] == 0x02 && request[3] == 0x02;
            let address = big_endian(request.subrange(4, 8));
            let size = big_endian(request.subrange(8, 12));
            let (next, action) = model.message_received(request, len, true);
            if request[1] != 0x01 {
                turned_down(model, request, len, 0x12)
            } else if !erases && !checks {
                turned_down(model, request, len, 0x31)
            } else if len < 12 {
                turned_down(model, request, len, 0x13)
            } else if !in_bounds(model, address, size) {
                turned_down(model, request, len, 0x31)
            } else {
                &&& sends(action, seq![0x7F, 0x31, 0x78])
                &&& next == (UdsModel {
                    vars: Vars { job: next.vars.job, ..model.vars },
                    ..model
                })
                &&& erases <==> next.vars.job is Erase
                &&& checks <==> next.vars.job is Crc
            }
        }),
{
    lemma_negative(request, 0x31, 0x12);
    lemma_negative(request, 0x31, 0x31);
    lemma_negative(request, 0x31, 0x13);
    lemma_negative(request, 0x31, 0x78);
    law_integers_are_what_their_bytes_say(request, 4);
    law_integers_are_what_their_bytes_say(request, 8);
    assert(be_u16(request, 2) == request[2] * 256 + request[3]);
}

/// Which transfers there are. A transfer is opened for exactly the address and
/// the size in the request, with block one next: one at a time, uncompressed
/// and unencrypted, with four bytes each of address and size, inside the range,
/// and a download only from a page boundary on. Nothing else changes.
pub proof fn law_transfer_request(model: UdsModel, request: Seq<u8>, len: int)
    requires
        reaches(model, request, len),
        11 <= len,
        request[0] == 0x34 || request[0] == 0x35,
        model.vars.security is Unlocked,
    ensures
        ({
            let address = big_endian(request.subrange(3, 7));
            let size = big_endian(request.subrange(7, 11));
            let acceptable = {
                &&& request[1] == 0x00 && request[2] == 0x44
                &&& in_bounds(model, address, size)
                &&& request[0] == 0x34 ==> address % (model.limits.page_len as int) == 0
            };
            let (next, action) = model.message_received(request, len, true);
            if !(model.vars.transfer is Closed) {
                turned_down(model, request, len, 0x70)
            } else if !acceptable {
                turned_down(model, request, len, 0x31)
            } else {
                &&& sends(action, seq![(request[0] + 0x40) as u8, 0x20, 0x02, 0x02])
                &&& request[0] == 0x34 ==> next.vars.transfer is Download
                &&& request[0] == 0x35 ==> next.vars.transfer is Upload
                &&& next.vars.transfer_address == address
                &&& next.vars.transfer_remaining == size
                &&& next.vars.next_block_sequence == 1
                &&& request[0] == 0x35 ==> next.vars.prev_block_len == 0
                &&& next == (UdsModel {
                    vars: Vars {
                        transfer: next.vars.transfer,
                        transfer_address: next.vars.transfer_address,
                        transfer_remaining: next.vars.transfer_remaining,
                        next_block_sequence: 1,
                        prev_block_len: next.vars.prev_block_len,
                        ..model.vars
                    },
                    ..model
                })
            }
        }),
{
    lemma_negative(request, request[0], 0x70);
    lemma_negative(request, request[0], 0x31);
    law_integers_are_what_their_bytes_say(request, 3);
    law_integers_are_what_their_bytes_say(request, 7);
    law_message_is_sent(request, transfer_opened(request[0]));
    assert(transfer_opened(request[0]) =~= seq![(request[0] + 0x40) as u8, 0x20, 0x02, 0x02]);
}

/// A block without a transfer is turned down, and so is one whose number is
/// neither the next nor the one before it.
pub proof fn law_block_out_of_turn(model: UdsModel, request: Seq<u8>, len: int)
    requires
        reaches(model, request, len),
        request[0] == 0x36,
    ensures
        model.vars.transfer is Closed ==> turned_down(model, request, len, 0x24),
        model.vars.transfer !is Closed && 2 <= len && request[1]
            != model.vars.next_block_sequence && (request[1] + 1) % 256
            != model.vars.next_block_sequence ==> turned_down(model, request, len, 0x73),
        model.vars.transfer is Upload && 2 <= len && request[1] == model.vars.next_block_sequence
            && model.vars.transfer_remaining == 0 ==> turned_down(model, request, len, 0x24),
        model.vars.transfer is Upload && 2 <= len && (request[1] + 1) % 256
            == model.vars.next_block_sequence && model.vars.prev_block_len == 0 ==> turned_down(
            model,
            request,
            len,
            0x73,
        ),
{
    lemma_negative(request, 0x36, 0x24);
    lemma_negative(request, 0x36, 0x73);
}

/// A downloaded block carries from one to 512 bytes, and no more than are left
/// to come. The block before it is acknowledged again and changes nothing.
pub proof fn law_download_block_request(model: UdsModel, request: Seq<u8>, len: int)
    requires
        reaches(model, request, len),
        2 <= len,
        request[0] == 0x36,
        model.vars.transfer is Download,
    ensures
        ({
            let size = len - 2;
            let (next, action) = model.message_received(request, len, true);
            &&& (request[1] + 1) % 256 == model.vars.next_block_sequence ==> {
                &&& next == model
                &&& sends(action, seq![0x76, request[1]])
            }
            &&& request[1] == model.vars.next_block_sequence ==> if size == 0 || size > 512 {
                turned_down(model, request, len, 0x13)
            } else if size > model.vars.transfer_remaining {
                turned_down(model, request, len, 0x31)
            } else {
                &&& action is WritePage
                &&& next.vars.transfer is Download
                &&& next.vars.transfer_address == model.vars.transfer_address + size
                &&& next.vars.transfer_remaining == model.vars.transfer_remaining - size
                &&& next.vars.next_block_sequence == (model.vars.next_block_sequence + 1) % 256
            }
        }),
{
    lemma_negative(request, 0x36, 0x13);
    lemma_negative(request, 0x36, 0x31);
    law_message_is_sent(request, seq![positive(0x36), request[1]]);
}

/// The end of a transfer closes it. A download that is not complete is reported
/// as suspended, and without a transfer there is nothing to end.
pub proof fn law_transfer_exit_request(model: UdsModel, request: Seq<u8>, len: int)
    requires
        reaches(model, request, len),
        request[0] == 0x37,
    ensures
        ({
            let (next, action) = model.message_received(request, len, true);
            if model.vars.transfer is Closed {
                turned_down(model, request, len, 0x24)
            } else {
                &&& next == (UdsModel {
                    vars: Vars { transfer: Transfer::Closed, ..model.vars },
                    ..model
                })
                &&& if model.vars.transfer is Download && model.vars.transfer_remaining > 0 {
                    sends(action, seq![0x7F, 0x37, 0x71])
                } else {
                    sends(action, seq![0x77])
                }
            }
        }),
{
    lemma_negative(request, 0x37, 0x24);
    lemma_negative(request, 0x37, 0x71);
    law_message_is_sent(request, seq![positive(0x37)]);
}

/// Which identifiers can be written, and with what. The kernel's start address
/// takes four bytes that lie in the range; a record takes up to sixty-four. The
/// identifiers that are fixed cannot be written, and the others are not there.
pub proof fn law_identifier_write_request(model: UdsModel, request: Seq<u8>, len: int)
    requires
        reaches(model, request, len),
        3 <= len,
        request[0] == 0x2E,
        model.vars.security is Unlocked,
    ensures
        ({
            let record = request[1] == 0xF2 && 0xA0 <= request[2] <= 0xAF;
            let start = request[1] == 0xF2 && request[2] == 0x01;
            let fixed = request[1] == 0xF2 && request[2] == 0x00 || request[1] == 0xF1 && (
            request[2] == 0x80 || request[2] == 0x86);
            let value = big_endian(request.subrange(3, 7));
            &&& len > 67 ==> turned_down(model, request, len, 0x13)
            &&& len <= 67 && start && len != 7 ==> turned_down(model, request, len, 0x13)
            &&& start && len == 7 && !(model.limits.write_floor <= value
                < model.limits.flash_end) ==> turned_down(model, request, len, 0x31)
            &&& len <= 67 && fixed ==> turned_down(model, request, len, 0x22)
            &&& len <= 67 && !record && !start && !fixed ==> turned_down(
                model,
                request,
                len,
                0x31,
            )
        }),
{
    lemma_negative(request, 0x2E, 0x13);
    lemma_negative(request, 0x2E, 0x31);
    lemma_negative(request, 0x2E, 0x22);
    law_integers_are_what_their_bytes_say(request, 3);
    assert(be_u16(request, 1) == request[1] * 256 + request[2]);
}

/// A server starts locked, in the default session, with no transfer open and
/// nothing at hand, and listens.
pub proof fn law_server_starts_locked(
    limits: Limits,
    page: Seq<u8>,
    buffer: Seq<u8>,
    stage: Seq<u8>,
)
    ensures
        ({
            let fresh = UdsModel::init(limits, page, buffer, stage);
            let (next, action) = fresh.start();
            &&& fresh.limits == limits
            &&& action == (Action::Listen { buffer })
            &&& next.vars.session == 1
            &&& next.vars.security is Locked
            &&& next.vars.transfer is Closed
            &&& next.vars.job is Idle
            &&& next.page_buffer == Some(page)
            &&& next.buffer is None
            &&& next.stage == stage
        }),
{
}

/// A message that is on the wire, with nothing waiting behind it, gives the
/// buffer back to listen with.
pub proof fn law_server_listens_after_an_answer(model: UdsModel, buffer: Seq<u8>)
    requires
        !(model.vars.job is Erase || model.vars.job is Crc || model.vars.job is StageRead
            || model.vars.job is Reset),
    ensures
        model.message_transmitted(buffer) == (model, Action::Listen { buffer }),
{
}

/// The service that a job at hand answers.
pub open spec fn service_of(job: Job) -> u8 {
    match job {
        Job::Erase { .. } | Job::Crc { .. } => 0x31,
        Job::Write | Job::Read { .. } => 0x36,
        Job::DidRead => 0x22,
        _ => 0x2E,
    }
}

/// Flash work that fails is reported for the service it was done for, and the
/// server is ready for the next request: whether the flash will not start, or
/// starts and does not succeed. A block whose write did not start is still the
/// next one expected.
pub proof fn law_failed_flash_work_is_reported(model: UdsModel, page: Seq<u8>)
    requires
        model.wf(),
        model.buffer is Some && 15 <= model.buffer->0.len(),
        page.len() == model.limits.page_len,
    ensures
        ({
            let job = model.vars.job;
            let failure = seq![0x7F, service_of(job), 0x72];
            let idle = Vars { job: Job::Idle, ..model.vars };
            &&& job is Crc || job is Read || job is DidRead || job is StageRead ==> {
                &&& sends(model.read_refused(page).1, failure)
                &&& model.read_refused(page).0.vars == idle
                &&& model.read_refused(page).0.buffer is None
                &&& model.read_refused(page).0.page_buffer == Some(page)
            }
            &&& job is StageWrite ==> {
                &&& sends(model.write_refused(page).1, failure)
                &&& model.write_refused(page).0.vars == idle
                &&& sends(model.write_complete(page, false).1, failure)
                &&& model.write_complete(page, false).0.vars == idle
            }
            &&& job is Write ==> {
                let (next, action) = model.write_refused(page);
                &&& sends(action, failure)
                &&& next.vars.transfer_address + model.vars.write_len
                    == model.vars.transfer_address
                &&& next.vars.transfer_remaining == model.vars.transfer_remaining
                    + model.vars.write_len || model.vars.transfer_remaining + model.vars.write_len
                    > u32::MAX
                &&& (next.vars.next_block_sequence + 1) % 256 == model.vars.next_block_sequence
                &&& next.vars.job is Idle
                &&& sends(model.write_complete(page, false).1, failure)
                &&& model.write_complete(page, false).0.vars == idle
            }
            &&& job is Erase ==> {
                &&& sends(model.erase_refused().1, failure)
                &&& model.erase_refused().0.vars == idle
                &&& sends(model.erase_complete(false).1, failure)
                &&& model.erase_complete(false).0.vars == idle
            }
        }),
{
    let buffer = model.buffer->0;
    lemma_negative(buffer, 0x31, 0x72);
    lemma_negative(buffer, 0x36, 0x72);
    lemma_negative(buffer, 0x22, 0x72);
    lemma_negative(buffer, 0x2E, 0x72);
}

/// A block whose write the flash would not start can be sent again as if it had
/// never been sent.
pub proof fn law_refused_block_can_be_sent_again(
    model: UdsModel,
    request: Seq<u8>,
    len: int,
    page: Seq<u8>,
)
    requires
        reaches(model, request, len),
        2 < len,
        request[0] == 0x36,
        model.vars.job is Idle,
        model.vars.transfer is Download,
        model.message_received(request, len, true).1 is WritePage,
        page.len() == model.limits.page_len,
    ensures
        ({
            let (asked, _) = model.message_received(request, len, true);
            let (next, action) = asked.write_refused(page);
            &&& sends(action, seq![0x7F, 0x36, 0x72])
            &&& next.vars == (Vars { write_len: next.vars.write_len, ..model.vars })
        }),
{
    lemma_negative(request, 0x36, 0x72);
}

/// Which requests carry a block that is written: the one whose number is due,
/// of one to 512 bytes, and no more than are left to come.
pub proof fn law_block_that_is_taken(model: UdsModel, request: Seq<u8>, len: int)
    ensures
        model.takes_block(request, len) <==> {
            &&& model.vars.transfer is Download
            &&& request[0] == 0x36 && request[1] == model.vars.next_block_sequence
            &&& 3 <= len <= 514
            &&& len - 2 <= model.vars.transfer_remaining
        },
{
}

/// An uploaded block that does not fit its answer is reported, and the transfer
/// stands where it stood. One that fits is numbered as it was asked for.
pub proof fn law_block_needs_room_for_its_answer(
    model: UdsModel,
    request: Seq<u8>,
    len: int,
    page: Seq<u8>,
)
    requires
        reaches(model, request, len),
        2 <= len,
        request[0] == 0x36 && request[1] == model.vars.next_block_sequence,
        model.vars.job is Idle,
        model.vars.transfer is Upload,
        model.vars.transfer_remaining > 0,
        page.len() == model.limits.page_len,
    ensures
        ({
            let page_len = model.limits.page_len as int;
            let offset = model.vars.transfer_address as int % page_len;
            let rest = if page_len - offset <= 512 {
                page_len - offset
            } else {
                512
            };
            let size = if rest <= model.vars.transfer_remaining {
                rest
            } else {
                model.vars.transfer_remaining as int
            };
            let (asked, read) = model.message_received(request, len, true);
            let (next, action) = asked.read_complete(page);
            &&& read matches Action::ReadPage { page_number, page: _ }
            &&& page_number == model.vars.transfer_address as int / page_len
            &&& 2 + size > request.len() ==> {
                &&& sends(action, seq![0x7F, 0x36, 0x72])
                &&& next.vars == model.vars
            }
            &&& 2 + size <= request.len() ==> {
                &&& sends(
                    action,
                    seq![0x76, request[1]] + page.subrange(offset, offset + size),
                )
                &&& next.vars.transfer_address == model.vars.transfer_address + size
                &&& next.vars.transfer_remaining == model.vars.transfer_remaining - size
            }
        }),
{
    let page_len = model.limits.page_len as int;
    let offset = model.vars.transfer_address as int % page_len;
    lemma_split(model.vars.transfer_address as int, page_len);
    lemma_negative(request, 0x36, 0x72);
    let size = model.upload_len();
    let message = seq![positive(0x36), request[1]] + page.subrange(offset, offset + size);
    if 2 + size <= request.len() {
        law_message_is_sent(request, message);
    }
}

} // verus!

//! The server itself.

use vstd::prelude::*;

use crate::actions::{held, sendable, transmit, transmit_message, Action};
use crate::bytes::{
    be_bytes, be_bytes_u16, be_u16, be_u32, copy_into, le_bytes, read_be_u16, read_be_u32,
    to_be_bytes, to_le_bytes, write_at,
};
use crate::crc::{update, CRC_SEED};
use crate::error::ErrorCode;
use crate::paging::{lemma_page_order, lemma_split, lemma_start_order};
use crate::uds::codes::{
    ATTRIBUTE_RECORD, BLOCK_PAGES, DID_ACTIVE_SESSION, DID_APPLICATION_START_ADDRESS,
    DID_ATTRIBUTE_BASE, DID_ATTRIBUTE_LAST, DID_BOOT_SOFTWARE_IDENTIFICATION,
    DID_KERNEL_START_ADDRESS, FLAGS_START_ADDRESS_OFFSET, Job, Limits, MAX_BLOCK_LENGTH_HIGH,
    MAX_BLOCK_LENGTH_LOW, NEGATIVE_RESPONSE, NRC_CONDITIONS_NOT_CORRECT,
    NRC_GENERAL_PROGRAMMING_FAILURE, NRC_INCORRECT_LENGTH, NRC_INVALID_KEY,
    NRC_REQUEST_OUT_OF_RANGE, NRC_REQUEST_SEQUENCE_ERROR, NRC_RESPONSE_PENDING,
    NRC_SECURITY_ACCESS_DENIED, NRC_SERVICE_NOT_SUPPORTED, NRC_SUBFUNCTION_NOT_SUPPORTED,
    NRC_TRANSFER_DATA_SUSPENDED, NRC_UPLOAD_DOWNLOAD_NOT_ACCEPTED,
    NRC_WRONG_BLOCK_SEQUENCE_COUNTER, POSITIVE_RESPONSE_OFFSET, ROUTINE_CHECK_MEMORY,
    ROUTINE_ERASE_MEMORY, ROUTINE_START, SECURITY_KEY_XOR, SEED_XOR, SESSION_DEFAULT,
    SESSION_PROGRAMMING, SID_DIAGNOSTIC_SESSION_CONTROL, SID_ECU_RESET,
    SID_READ_DATA_BY_IDENTIFIER, SID_REQUEST_DOWNLOAD, SID_REQUEST_TRANSFER_EXIT,
    SID_REQUEST_UPLOAD, SID_ROUTINE_CONTROL, SID_SECURITY_ACCESS, SID_TESTER_PRESENT,
    SID_TRANSFER_DATA, SID_WRITE_DATA_BY_IDENTIFIER, Security, Stage, TRANSFER_BLOCK, Transfer,
    Vars,
};
use crate::uds::model::{
    boot_software_name, identifier_value, negative, padded, page_of, positive, transfer_opened,
    UdsModel,
};

verus! {

/// Send a negative response.
fn refuse(buffer: Vec<u8>, sid: u8, nrc: u8) -> (action: Action<Vec<u8>>)
    requires
        buffer@.len() >= 3,
    ensures
        action@ == transmit(buffer@, negative(sid, nrc)),
{
    let message = [NEGATIVE_RESPONSE, sid, nrc];
    assert(message@ =~= negative(sid, nrc));
    transmit_message(buffer, message.as_slice())
}

/// Send a positive response to `ReadDataByIdentifier`.
fn send_identifier(buffer: Vec<u8>, did: u16, value: &[u8]) -> (action: Action<Vec<u8>>)
    requires
        buffer@.len() >= 3 + value@.len(),
    ensures
        action@ == transmit(buffer@, identifier_value(did, value@)),
{
    let mut buffer = buffer;
    let ghost before = buffer@;
    assert(buffer.len() == buffer@.len());
    buffer[0] = SID_READ_DATA_BY_IDENTIFIER + POSITIVE_RESPONSE_OFFSET;
    buffer[1] = (did / 0x100) as u8;
    buffer[2] = (did % 0x100) as u8;
    copy_into(&mut buffer, 3, value);
    proof {
        let message = identifier_value(did, value@);
        assert(message.len() == 3 + value@.len());
        assert forall|i: int| 0 <= i < buffer@.len() implies #[trigger] buffer@[i] == write_at(
            before,
            0,
            message,
        )[i] by {
            if 3 <= i < 3 + value@.len() {
                assert(message[i] == value@[i - 3]);
            }
        }
        assert(buffer@ =~= write_at(before, 0, message));
    }
    Action::Transmit { buffer, len: 3 + value.len() }
}

/// Send a positive response that opens a transfer.
fn open_transfer(buffer: Vec<u8>, sid: u8) -> (action: Action<Vec<u8>>)
    requires
        buffer@.len() >= 4,
        sid <= 0x7F,
    ensures
        action@ == transmit(buffer@, transfer_opened(sid)),
{
    let message = [
        sid + POSITIVE_RESPONSE_OFFSET,
        0x20,
        MAX_BLOCK_LENGTH_HIGH,
        MAX_BLOCK_LENGTH_LOW,
    ];
    assert(message@ =~= transfer_opened(sid));
    transmit_message(buffer, message.as_slice())
}

/// `data` as one attribute record.
fn pad(data: &[u8]) -> (record: Vec<u8>)
    requires
        data@.len() <= ATTRIBUTE_RECORD,
    ensures
        record@ == padded(data@),
{
    let mut record: Vec<u8> = vec![0; ATTRIBUTE_RECORD];
    copy_into(&mut record, 0, data);
    assert(record@ =~= padded(data@));
    record
}

/// `bytes` back to front.
fn reversed(bytes: &[u8]) -> (result: Vec<u8>)
    ensures
        result@ == bytes@.reverse(),
{
    let mut result: Vec<u8> = Vec::new();
    let mut left: usize = bytes.len();
    while left > 0
        invariant
            left <= bytes@.len(),
            result@.len() == bytes@.len() - left,
            forall|i: int| 0 <= i < result@.len() ==> result@[i] == bytes@[bytes@.len() - 1 - i],
        decreases left,
    {
        left = left - 1;
        result.push(bytes[left]);
    }
    assert(result@ =~= bytes@.reverse());
    result
}

/// Set every byte of a page.
fn fill(page: &mut Vec<u8>, value: u8)
    ensures
        final(page)@ == Seq::new(old(page)@.len(), |i: int| value),
{
    let mut i: usize = 0;
    let ghost len = page@.len();
    while i < page.len()
        invariant
            page@.len() == len,
            i <= len,
            forall|j: int| 0 <= j < i ==> page@[j] == value,
        decreases len - i,
    {
        page[i] = value;
        i = i + 1;
    }
    assert(page@ =~= Seq::new(len, |i: int| value));
}

/// A UDS server.
pub struct UdsServer {
    limits: Limits,
    vars: Vars,
    patch: Vec<u8>,
    page_buffer: Option<Vec<u8>>,
    buffer: Option<Vec<u8>>,
    stage: Vec<u8>,
}

impl View for UdsServer {
    type V = UdsModel;

    closed spec fn view(&self) -> UdsModel {
        UdsModel {
            limits: self.limits,
            vars: self.vars,
            patch: self.patch@,
            page_buffer: held(self.page_buffer),
            buffer: held(self.buffer),
            stage: self.stage@,
        }
    }
}

impl UdsServer {
    pub fn new(
        page_buffer: Vec<u8>,
        buffer: Vec<u8>,
        stage: Vec<u8>,
        app_start: u32,
        write_floor: u32,
        flash_end: u32,
        attributes_address: u32,
        flags_address: u32,
        text_end: u32,
    ) -> (server: UdsServer)
        requires
            (Limits {
                app_start,
                write_floor,
                flash_end,
                attributes_address,
                flags_address,
                text_end,
                page_len: page_buffer@.len() as usize,
            }).ok(),
        ensures
            server@ == UdsModel::init(
                (Limits {
                    app_start,
                    write_floor,
                    flash_end,
                    attributes_address,
                    flags_address,
                    text_end,
                    page_len: page_buffer@.len() as usize,
                }),
                page_buffer@,
                buffer@,
                stage@,
            ),
            server@.wf(),
    {
        let limits = Limits {
            app_start,
            write_floor,
            flash_end,
            attributes_address,
            flags_address,
            text_end,
            page_len: page_buffer.len(),
        };
        let nothing: [u8; 0] = [];
        let patch = pad(nothing.as_slice());
        assert(nothing@ =~= Seq::<u8>::empty());
        UdsServer {
            limits,
            vars: Vars {
                session: SESSION_DEFAULT,
                security: Security::Locked,
                job: Job::Idle,
                transfer: Transfer::Closed,
                transfer_address: 0,
                transfer_remaining: 0,
                next_block_sequence: 1,
                prev_block_address: 0,
                prev_block_len: 0,
                write_len: 0,
                pending_did: 0,
                did_address: 0,
                did_len: 0,
                did_reverse: false,
                patch_len: 0,
                patch_offset: 0,
                stage_first_page: 0,
            },
            patch,
            page_buffer: Some(page_buffer),
            buffer: Some(buffer),
            stage,
        }
    }

    /// Start listening.
    pub fn start(&mut self) -> (action: Action<Vec<u8>>)
        requires
            old(self)@.wf(),
            old(self)@.page_buffer is Some,
            old(self)@.vars.job is Idle,
        ensures
            (final(self)@, action@) == old(self)@.start(),
            final(self)@.wf(),
    {
        match self.buffer.take() {
            Some(buffer) => Action::Listen { buffer },
            None => Action::Idle,
        }
    }

    fn page_size(&self) -> (size: usize)
        requires
            self@.wf(),
        ensures
            size == self@.page_size(),
    {
        match &self.page_buffer {
            Some(page) => page.len(),
            None => 512,
        }
    }

    fn unlocked(&self) -> (yes: bool)
        ensures
            yes == self@.unlocked(),
    {
        match self.vars.security {
            Security::Unlocked => true,
            _ => false,
        }
    }

    /// Answer the current job with the held buffer and forget it.
    fn conclude(&mut self, message: &[u8]) -> (action: Action<Vec<u8>>)
        requires
            old(self)@.buffer matches Some(buffer) ==> message@.len() <= buffer.len(),
        ensures
            (final(self)@, action@) == old(self)@.conclude(message@),
    {
        self.vars.job = Job::Idle;
        match self.buffer.take() {
            Some(buffer) => transmit_message(buffer, message),
            None => Action::Idle,
        }
    }

    /// Give the current job up: general programming failure.
    fn fail(&mut self, sid: u8) -> (action: Action<Vec<u8>>)
        requires
            old(self)@.buffer matches Some(buffer) ==> 3 <= buffer.len(),
        ensures
            (final(self)@, action@) == old(self)@.conclude(
                negative(sid, NRC_GENERAL_PROGRAMMING_FAILURE),
            ),
    {
        let message = [NEGATIVE_RESPONSE, sid, NRC_GENERAL_PROGRAMMING_FAILURE];
        assert(message@ =~= negative(sid, NRC_GENERAL_PROGRAMMING_FAILURE));
        self.conclude(message.as_slice())
    }

    // -- Services -----------------------------------------------------------

    fn session_control(&mut self, buffer: Vec<u8>, len: usize) -> (action: Action<Vec<u8>>)
        requires
            len <= buffer@.len(),
            sendable(old(self)@.session_control(buffer@, len as int)),
        ensures
            (final(self)@, action@) == old(self)@.session_control(buffer@, len as int),
    {
        if len < 2 {
            return refuse(buffer, SID_DIAGNOSTIC_SESSION_CONTROL, NRC_INCORRECT_LENGTH);
        }
        let sub: u8 = buffer[1] & 0x7F;
        if sub == SESSION_DEFAULT || sub == SESSION_PROGRAMMING {
            self.vars.session = sub;
            if sub == SESSION_DEFAULT {
                self.vars.security = Security::Locked;
                self.vars.transfer = Transfer::Closed;
            }
            // P2 = 50 ms, P2* = 5000 ms, in units of 1 ms and 10 ms.
            let message = [
                SID_DIAGNOSTIC_SESSION_CONTROL + POSITIVE_RESPONSE_OFFSET,
                sub,
                0x00,
                0x32,
                0x01,
                0xF4,
            ];
            assert(message@ =~= seq![
                positive(SID_DIAGNOSTIC_SESSION_CONTROL),
                sub,
                0x00,
                0x32,
                0x01,
                0xF4,
            ]);
            transmit_message(buffer, message.as_slice())
        } else {
            refuse(buffer, SID_DIAGNOSTIC_SESSION_CONTROL, NRC_SUBFUNCTION_NOT_SUPPORTED)
        }
    }

    fn ecu_reset(&mut self, buffer: Vec<u8>, len: usize) -> (action: Action<Vec<u8>>)
        requires
            len <= buffer@.len(),
            sendable(old(self)@.ecu_reset(buffer@, len as int)),
        ensures
            (final(self)@, action@) == old(self)@.ecu_reset(buffer@, len as int),
    {
        if len < 2 {
            return refuse(buffer, SID_ECU_RESET, NRC_INCORRECT_LENGTH);
        }
        let sub: u8 = buffer[1] & 0x7F;
        if sub != 0x01 {
            return refuse(buffer, SID_ECU_RESET, NRC_SUBFUNCTION_NOT_SUPPORTED);
        }
        // Answer first, reset once the response is actually on the wire.
        self.vars.job = Job::Reset;
        let message = [SID_ECU_RESET + POSITIVE_RESPONSE_OFFSET, sub];
        assert(message@ =~= seq![positive(SID_ECU_RESET), sub]);
        transmit_message(buffer, message.as_slice())
    }

    /// Hand the page buffer to the flash to read a page into, or give the
    /// current job up.
    fn read_page(&mut self, page_number: usize, sid: u8) -> (action: Action<Vec<u8>>)
        requires
            old(self)@.page_buffer is None && old(self)@.buffer is Some ==> 3
                <= old(self)@.buffer->0.len(),
        ensures
            (final(self)@, action@) == old(self)@.read_page(
                page_number as int,
                negative(sid, NRC_GENERAL_PROGRAMMING_FAILURE),
            ),
    {
        match self.page_buffer.take() {
            Some(page) => Action::ReadPage { page_number, page },
            None => self.fail(sid),
        }
    }

    /// Answer an identifier from flash.
    ///
    /// Everything reachable this way sits wholly inside one page, so a single
    /// read serves the whole response.
    fn read_from_flash(
        &mut self,
        buffer: Vec<u8>,
        did: u16,
        address: usize,
        len: usize,
        reverse: bool,
    ) -> (action: Action<Vec<u8>>)
        requires
            old(self)@.wf(),
            len <= ATTRIBUTE_RECORD,
            address <= u32::MAX,
            sendable(old(self)@.read_from_flash(buffer@, did, address as int, len, reverse)),
        ensures
            (final(self)@, action@) == old(self)@.read_from_flash(
                buffer@,
                did,
                address as int,
                len,
                reverse,
            ),
    {
        let page_size: usize = self.page_size();
        if address % page_size + len > page_size || buffer.len() < 3 + len {
            return refuse(buffer, SID_READ_DATA_BY_IDENTIFIER, NRC_GENERAL_PROGRAMMING_FAILURE);
        }
        self.vars.pending_did = did;
        self.vars.did_address = address as u32;
        self.vars.did_len = len;
        self.vars.did_reverse = reverse;
        self.vars.job = Job::DidRead;
        self.buffer = Some(buffer);
        self.read_page(address / page_size, SID_READ_DATA_BY_IDENTIFIER)
    }

    fn read_data_by_identifier(&mut self, buffer: Vec<u8>, len: usize) -> (action: Action<Vec<u8>>)
        requires
            old(self)@.wf(),
            len <= buffer@.len(),
            sendable(old(self)@.read_data_by_identifier(buffer@, len as int)),
        ensures
            (final(self)@, action@) == old(self)@.read_data_by_identifier(buffer@, len as int),
    {
        if len < 3 {
            return refuse(buffer, SID_READ_DATA_BY_IDENTIFIER, NRC_INCORRECT_LENGTH);
        }
        let did: u16 = read_be_u16(buffer.as_slice(), 1);
        if did == DID_BOOT_SOFTWARE_IDENTIFICATION {
            let name = [0x54, 0x4F, 0x43, 0x4B, 0x42, 0x4C, 0x20, 0x30, 0x2E, 0x31, 0x2E, 0x30];
            assert(name@ =~= boot_software_name());
            send_identifier(buffer, did, name.as_slice())
        } else if did == DID_ACTIVE_SESSION {
            let session = [self.vars.session];
            assert(session@ =~= seq![self.vars.session]);
            send_identifier(buffer, did, session.as_slice())
        } else if did == DID_APPLICATION_START_ADDRESS {
            let address = to_be_bytes(self.limits.app_start);
            send_identifier(buffer, did, address.as_slice())
        } else if did == DID_KERNEL_START_ADDRESS {
            let address: usize = self.limits.flags_address as usize + FLAGS_START_ADDRESS_OFFSET;
            self.read_from_flash(buffer, did, address, 4, true)
        } else if DID_ATTRIBUTE_BASE <= did && did <= DID_ATTRIBUTE_LAST {
            // Unrestricted, like the other identification DIDs: reading the
            // table changes nothing.
            let index: usize = (did - DID_ATTRIBUTE_BASE) as usize;
            let address: usize = self.limits.attributes_address as usize + index
                * ATTRIBUTE_RECORD;
            self.read_from_flash(buffer, did, address, ATTRIBUTE_RECORD, false)
        } else {
            refuse(buffer, SID_READ_DATA_BY_IDENTIFIER, NRC_REQUEST_OUT_OF_RANGE)
        }
    }

    fn security_access(&mut self, buffer: Vec<u8>, len: usize) -> (action: Action<Vec<u8>>)
        requires
            len <= buffer@.len(),
            sendable(old(self)@.security_access(buffer@, len as int)),
        ensures
            (final(self)@, action@) == old(self)@.security_access(buffer@, len as int),
    {
        if len < 2 {
            return refuse(buffer, SID_SECURITY_ACCESS, NRC_INCORRECT_LENGTH);
        }
        if self.vars.session != SESSION_PROGRAMMING {
            return refuse(buffer, SID_SECURITY_ACCESS, NRC_CONDITIONS_NOT_CORRECT);
        }
        let sub: u8 = buffer[1];
        if sub == 0x01 {
            let end: u32 = self.limits.flash_end;
            let seed: u32 = ((end << 7) | (end >> 25)) ^ SEED_XOR;
            self.vars.security = Security::SeedIssued(seed);
            let bytes = to_be_bytes(seed);
            let message = [
                SID_SECURITY_ACCESS + POSITIVE_RESPONSE_OFFSET,
                sub,
                bytes[0],
                bytes[1],
                bytes[2],
                bytes[3],
            ];
            assert(message@ =~= seq![positive(SID_SECURITY_ACCESS), sub] + be_bytes(seed));
            transmit_message(buffer, message.as_slice())
        } else if sub == 0x02 {
            if len < 6 {
                return refuse(buffer, SID_SECURITY_ACCESS, NRC_INCORRECT_LENGTH);
            }
            let key: u32 = read_be_u32(buffer.as_slice(), 2);
            match self.vars.security {
                Security::SeedIssued(seed) => {
                    if key == seed ^ SECURITY_KEY_XOR {
                        self.vars.security = Security::Unlocked;
                        let message = [SID_SECURITY_ACCESS + POSITIVE_RESPONSE_OFFSET, sub];
                        assert(message@ =~= seq![positive(SID_SECURITY_ACCESS), sub]);
                        transmit_message(buffer, message.as_slice())
                    } else {
                        self.vars.security = Security::Locked;
                        refuse(buffer, SID_SECURITY_ACCESS, NRC_INVALID_KEY)
                    }
                },
                _ => refuse(buffer, SID_SECURITY_ACCESS, NRC_REQUEST_SEQUENCE_ERROR),
            }
        } else {
            refuse(buffer, SID_SECURITY_ACCESS, NRC_SUBFUNCTION_NOT_SUPPORTED)
        }
    }

    /// Would rewriting the erase block at `block_start` destroy the code doing
    /// the rewriting?
    fn block_is_self(&self, block_start: usize) -> (yes: bool)
        ensures
            yes == (block_start < self@.limits.text_end),
    {
        block_start < self.limits.text_end as usize
    }

    /// Set up a staged rewrite of the erase block holding `address`; the work
    /// itself starts once the 0x78 is on the wire.
    fn stage_block(&mut self, address: usize, patch_len: usize) -> (stage: Stage)
        requires
            old(self)@.wf(),
            old(self)@.page_buffer is Some,
            patch_len <= ATTRIBUTE_RECORD,
            address + patch_len + BLOCK_PAGES * old(self)@.limits.page_len <= u32::MAX,
        ensures
            stage == old(self)@.stageable(address as int, patch_len),
            final(self)@ == if stage is Ready {
                old(self)@.staged(address as int, patch_len)
            } else {
                old(self)@
            },
    {
        let page_size: usize = self.page_size();
        let first_page: usize = address / page_size / BLOCK_PAGES * BLOCK_PAGES;
        proof {
            lemma_block_start(address as int, page_size as int);
        }
        let block_start: usize = first_page * page_size;
        let block_len: usize = BLOCK_PAGES * page_size;
        if self.block_is_self(block_start) {
            return Stage::WouldEraseSelf;
        }
        if address + patch_len > block_start + block_len || self.stage.len() < block_len {
            return Stage::Unusable;
        }
        self.vars.stage_first_page = first_page;
        self.vars.patch_offset = address - block_start;
        self.vars.patch_len = patch_len;
        Stage::Ready
    }

    /// Answer 0x78 and leave the rewrite to start, or refuse it.
    fn rewrite(&mut self, buffer: Vec<u8>, did: u16, address: usize, patch_len: usize) -> (action:
        Action<Vec<u8>>)
        requires
            old(self)@.wf(),
            old(self)@.page_buffer is Some,
            patch_len <= ATTRIBUTE_RECORD,
            address + patch_len + BLOCK_PAGES * old(self)@.limits.page_len <= u32::MAX,
            sendable(old(self)@.rewrite(buffer@, did, address as int, patch_len)),
        ensures
            (final(self)@, action@) == old(self)@.rewrite(buffer@, did, address as int, patch_len),
    {
        match self.stage_block(address, patch_len) {
            Stage::Ready => {},
            // The identifier is real and the request well formed, the board
            // just cannot carry it out from where it is running.
            Stage::WouldEraseSelf => {
                return refuse(buffer, SID_WRITE_DATA_BY_IDENTIFIER, NRC_CONDITIONS_NOT_CORRECT);
            },
            Stage::Unusable => {
                return refuse(
                    buffer,
                    SID_WRITE_DATA_BY_IDENTIFIER,
                    NRC_GENERAL_PROGRAMMING_FAILURE,
                );
            },
        }
        self.vars.pending_did = did;
        self.vars.job = Job::StageRead { page: 0, end: BLOCK_PAGES };
        refuse(buffer, SID_WRITE_DATA_BY_IDENTIFIER, NRC_RESPONSE_PENDING)
    }

    fn write_data_by_identifier(&mut self, buffer: Vec<u8>, len: usize) -> (action: Action<Vec<u8>>)
        requires
            old(self)@.wf(),
            old(self)@.page_buffer is Some,
            len <= buffer@.len(),
            sendable(old(self)@.write_data_by_identifier(buffer@, len as int)),
        ensures
            (final(self)@, action@) == old(self)@.write_data_by_identifier(buffer@, len as int),
    {
        if len < 3 {
            return refuse(buffer, SID_WRITE_DATA_BY_IDENTIFIER, NRC_INCORRECT_LENGTH);
        }
        if !self.unlocked() {
            return refuse(buffer, SID_WRITE_DATA_BY_IDENTIFIER, NRC_SECURITY_ACCESS_DENIED);
        }
        let did: u16 = read_be_u16(buffer.as_slice(), 1);
        if len - 3 > ATTRIBUTE_RECORD {
            return refuse(buffer, SID_WRITE_DATA_BY_IDENTIFIER, NRC_INCORRECT_LENGTH);
        }
        if did == DID_KERNEL_START_ADDRESS {
            if len - 3 != 4 {
                return refuse(buffer, SID_WRITE_DATA_BY_IDENTIFIER, NRC_INCORRECT_LENGTH);
            }
            let address: u32 = read_be_u32(buffer.as_slice(), 3);
            if address < self.limits.write_floor || address >= self.limits.flash_end {
                return refuse(buffer, SID_WRITE_DATA_BY_IDENTIFIER, NRC_REQUEST_OUT_OF_RANGE);
            }
            self.patch = pad(to_le_bytes(address).as_slice());
            let at: usize = self.limits.flags_address as usize + FLAGS_START_ADDRESS_OFFSET;
            self.rewrite(buffer, did, at, 4)
        } else if DID_ATTRIBUTE_BASE <= did && did <= DID_ATTRIBUTE_LAST {
            self.patch = pad(vstd::slice::slice_subrange(buffer.as_slice(), 3, len));
            let index: usize = (did - DID_ATTRIBUTE_BASE) as usize;
            let at: usize = self.limits.attributes_address as usize + index * ATTRIBUTE_RECORD;
            self.rewrite(buffer, did, at, ATTRIBUTE_RECORD)
        } else if did == DID_APPLICATION_START_ADDRESS || did == DID_BOOT_SOFTWARE_IDENTIFICATION
            || did == DID_ACTIVE_SESSION {
            refuse(buffer, SID_WRITE_DATA_BY_IDENTIFIER, NRC_CONDITIONS_NOT_CORRECT)
        } else {
            refuse(buffer, SID_WRITE_DATA_BY_IDENTIFIER, NRC_REQUEST_OUT_OF_RANGE)
        }
    }

    fn tester_present(&mut self, buffer: Vec<u8>, len: usize) -> (action: Action<Vec<u8>>)
        requires
            len <= buffer@.len(),
            sendable(old(self)@.tester_present(buffer@, len as int)),
        ensures
            (final(self)@, action@) == old(self)@.tester_present(buffer@, len as int),
    {
        if len < 2 {
            return refuse(buffer, SID_TESTER_PRESENT, NRC_INCORRECT_LENGTH);
        }
        if buffer[1] & 0x80 != 0 {
            return Action::Listen { buffer };
        }
        let message = [SID_TESTER_PRESENT + POSITIVE_RESPONSE_OFFSET, 0x00];
        assert(message@ =~= seq![positive(SID_TESTER_PRESENT), 0x00]);
        transmit_message(buffer, message.as_slice())
    }

    fn range_ok(&self, address: u32, size: u32) -> (ok: bool)
        ensures
            ok == self@.limits.range_ok(address, size),
    {
        size > 0 && address >= self.limits.write_floor && match address.checked_add(size) {
            Some(end) => end <= self.limits.flash_end,
            None => false,
        }
    }

    fn routine_control(&mut self, buffer: Vec<u8>, len: usize) -> (action: Action<Vec<u8>>)
        requires
            old(self)@.wf(),
            old(self)@.page_buffer is Some,
            len <= buffer@.len(),
            sendable(old(self)@.routine_control(buffer@, len as int)),
        ensures
            (final(self)@, action@) == old(self)@.routine_control(buffer@, len as int),
    {
        if len < 4 {
            return refuse(buffer, SID_ROUTINE_CONTROL, NRC_INCORRECT_LENGTH);
        }
        if !self.unlocked() {
            return refuse(buffer, SID_ROUTINE_CONTROL, NRC_SECURITY_ACCESS_DENIED);
        }
        let routine: u16 = read_be_u16(buffer.as_slice(), 2);
        if buffer[1] != ROUTINE_START {
            return refuse(buffer, SID_ROUTINE_CONTROL, NRC_SUBFUNCTION_NOT_SUPPORTED);
        }
        if routine != ROUTINE_ERASE_MEMORY && routine != ROUTINE_CHECK_MEMORY {
            return refuse(buffer, SID_ROUTINE_CONTROL, NRC_REQUEST_OUT_OF_RANGE);
        }
        if len < 12 {
            return refuse(buffer, SID_ROUTINE_CONTROL, NRC_INCORRECT_LENGTH);
        }
        let address: u32 = read_be_u32(buffer.as_slice(), 4);
        let size: u32 = read_be_u32(buffer.as_slice(), 8);
        if !self.range_ok(address, size) {
            return refuse(buffer, SID_ROUTINE_CONTROL, NRC_REQUEST_OUT_OF_RANGE);
        }
        if routine == ROUTINE_ERASE_MEMORY {
            let page_size: u32 = self.page_size() as u32;
            let first: usize = (address / page_size) as usize;
            let last: usize = ((address + size + (page_size - 1)) / page_size) as usize;
            self.vars.job = Job::Erase { page: first, end: last };
        } else {
            self.vars.job = Job::Crc { address, remaining: size, crc: CRC_SEED };
        }
        // Erasing and checksumming take far longer than P2.
        refuse(buffer, SID_ROUTINE_CONTROL, NRC_RESPONSE_PENDING)
    }

    fn request_download(&mut self, buffer: Vec<u8>, len: usize) -> (action: Action<Vec<u8>>)
        requires
            old(self)@.wf(),
            old(self)@.page_buffer is Some,
            len <= buffer@.len(),
            sendable(old(self)@.request_transfer(buffer@, len as int, Transfer::Download)),
        ensures
            (final(self)@, action@) == old(self)@.request_transfer(
                buffer@,
                len as int,
                Transfer::Download,
            ),
    {
        // dataFormatIdentifier, addressAndLengthFormatIdentifier, then a
        // 4-byte address and 4-byte size.
        if len < 11 {
            return refuse(buffer, SID_REQUEST_DOWNLOAD, NRC_INCORRECT_LENGTH);
        }
        if !self.unlocked() {
            return refuse(buffer, SID_REQUEST_DOWNLOAD, NRC_SECURITY_ACCESS_DENIED);
        }
        match self.vars.transfer {
            Transfer::Closed => {},
            _ => {
                return refuse(buffer, SID_REQUEST_DOWNLOAD, NRC_UPLOAD_DOWNLOAD_NOT_ACCEPTED);
            },
        }
        if buffer[1] != 0x00 || buffer[2] != 0x44 {
            return refuse(buffer, SID_REQUEST_DOWNLOAD, NRC_REQUEST_OUT_OF_RANGE);
        }
        let address: u32 = read_be_u32(buffer.as_slice(), 3);
        let size: u32 = read_be_u32(buffer.as_slice(), 7);
        if !self.range_ok(address, size) || address as usize % self.page_size() != 0 {
            return refuse(buffer, SID_REQUEST_DOWNLOAD, NRC_REQUEST_OUT_OF_RANGE);
        }
        self.vars.transfer = Transfer::Download;
        self.vars.transfer_address = address;
        self.vars.transfer_remaining = size;
        self.vars.next_block_sequence = 1;
        open_transfer(buffer, SID_REQUEST_DOWNLOAD)
    }

    /// `RequestUpload`: the tester wants to read flash back.
    fn request_upload(&mut self, buffer: Vec<u8>, len: usize) -> (action: Action<Vec<u8>>)
        requires
            len <= buffer@.len(),
            sendable(old(self)@.request_transfer(buffer@, len as int, Transfer::Upload)),
        ensures
            (final(self)@, action@) == old(self)@.request_transfer(
                buffer@,
                len as int,
                Transfer::Upload,
            ),
    {
        if len < 11 {
            return refuse(buffer, SID_REQUEST_UPLOAD, NRC_INCORRECT_LENGTH);
        }
        // Reading flash back is how firmware is extracted, so it sits behind
        // the same unlock as writing it.
        if !self.unlocked() {
            return refuse(buffer, SID_REQUEST_UPLOAD, NRC_SECURITY_ACCESS_DENIED);
        }
        match self.vars.transfer {
            Transfer::Closed => {},
            _ => {
                return refuse(buffer, SID_REQUEST_UPLOAD, NRC_UPLOAD_DOWNLOAD_NOT_ACCEPTED);
            },
        }
        if buffer[1] != 0x00 || buffer[2] != 0x44 {
            return refuse(buffer, SID_REQUEST_UPLOAD, NRC_REQUEST_OUT_OF_RANGE);
        }
        let address: u32 = read_be_u32(buffer.as_slice(), 3);
        let size: u32 = read_be_u32(buffer.as_slice(), 7);
        if !self.range_ok(address, size) {
            return refuse(buffer, SID_REQUEST_UPLOAD, NRC_REQUEST_OUT_OF_RANGE);
        }
        self.vars.transfer = Transfer::Upload;
        self.vars.transfer_address = address;
        self.vars.transfer_remaining = size;
        self.vars.next_block_sequence = 1;
        self.vars.prev_block_len = 0;
        open_transfer(buffer, SID_REQUEST_UPLOAD)
    }

    /// Read one block for an upload.
    ///
    /// `address` and `take` are passed rather than read from the transfer
    /// state, so that repeating the previous block re-reads exactly what was
    /// sent before.
    fn upload_block(&mut self, buffer: Vec<u8>, address: u32, take: usize) -> (action: Action<
        Vec<u8>,
    >)
        requires
            old(self)@.wf(),
            sendable(old(self)@.upload_block(buffer@, address, take)),
        ensures
            (final(self)@, action@) == old(self)@.upload_block(buffer@, address, take),
    {
        let page_size: usize = self.page_size();
        self.buffer = Some(buffer);
        self.vars.job = Job::Read { address, take };
        self.read_page(address as usize / page_size, SID_TRANSFER_DATA)
    }

    fn transfer_data_upload(&mut self, buffer: Vec<u8>, len: usize) -> (action: Action<Vec<u8>>)
        requires
            old(self)@.wf(),
            len <= buffer@.len(),
            sendable(old(self)@.transfer_data_upload(buffer@, len as int)),
        ensures
            (final(self)@, action@) == old(self)@.transfer_data_upload(buffer@, len as int),
    {
        // The request carries no data in this direction; the response does.
        if len < 2 {
            return refuse(buffer, SID_TRANSFER_DATA, NRC_INCORRECT_LENGTH);
        }
        let sequence: u8 = buffer[1];
        let expected: u8 = self.vars.next_block_sequence;
        if sequence != expected {
            if sequence == expected.wrapping_sub(1) && self.vars.prev_block_len > 0 {
                let address: u32 = self.vars.prev_block_address;
                let take: usize = self.vars.prev_block_len;
                return self.upload_block(buffer, address, take);
            }
            return refuse(buffer, SID_TRANSFER_DATA, NRC_WRONG_BLOCK_SEQUENCE_COUNTER);
        }
        let remaining: usize = self.vars.transfer_remaining as usize;
        if remaining == 0 {
            return refuse(buffer, SID_TRANSFER_DATA, NRC_REQUEST_SEQUENCE_ERROR);
        }
        let address: u32 = self.vars.transfer_address;
        let page_size: usize = self.page_size();
        let offset: usize = address as usize % page_size;
        let mut take: usize = page_size - offset;
        if take > remaining {
            take = remaining;
        }
        if take > TRANSFER_BLOCK {
            take = TRANSFER_BLOCK;
        }
        self.upload_block(buffer, address, take)
    }

    fn transfer_data_download(&mut self, buffer: Vec<u8>, len: usize) -> (action: Action<Vec<u8>>)
        requires
            old(self)@.wf(),
            len <= buffer@.len(),
            old(self)@.vars.transfer is Download,
            len > 0 && buffer@[0] == SID_TRANSFER_DATA,
            old(self)@.takes_block(buffer@, len as int) ==> len - 2 <= old(self)@.limits.page_len,
            sendable(old(self)@.transfer_data_download(buffer@, len as int)),
        ensures
            (final(self)@, action@) == old(self)@.transfer_data_download(buffer@, len as int),
    {
        if len < 2 {
            return refuse(buffer, SID_TRANSFER_DATA, NRC_INCORRECT_LENGTH);
        }
        let sequence: u8 = buffer[1];
        let expected: u8 = self.vars.next_block_sequence;
        if sequence != expected {
            if sequence == expected.wrapping_sub(1) {
                let message = [SID_TRANSFER_DATA + POSITIVE_RESPONSE_OFFSET, sequence];
                assert(message@ =~= seq![positive(SID_TRANSFER_DATA), buffer@[1]]);
                return transmit_message(buffer, message.as_slice());
            }
            return refuse(buffer, SID_TRANSFER_DATA, NRC_WRONG_BLOCK_SEQUENCE_COUNTER);
        }
        let data_len: usize = len - 2;
        if data_len == 0 || data_len > TRANSFER_BLOCK {
            return refuse(buffer, SID_TRANSFER_DATA, NRC_INCORRECT_LENGTH);
        }
        if data_len as u32 > self.vars.transfer_remaining {
            return refuse(buffer, SID_TRANSFER_DATA, NRC_REQUEST_OUT_OF_RANGE);
        }
        let page_size: usize = self.page_size();
        match self.page_buffer.take() {
            None => refuse(buffer, SID_TRANSFER_DATA, NRC_GENERAL_PROGRAMMING_FAILURE),
            Some(old_page) => {
                // Pad a short final block with the erased value so the whole
                // page is well defined.
                let ghost page_len = old_page@.len();
                let data = vstd::slice::slice_subrange(buffer.as_slice(), 2, len);
                let mut page = old_page;
                fill(&mut page, 0xFF);
                copy_into(&mut page, 0, data);
                assert(page@ =~= page_of(data@, page_len));
                let page_number: usize = self.vars.transfer_address as usize / page_size;
                self.vars.job = Job::Write;
                self.vars.transfer_address = self.vars.transfer_address + data_len as u32;
                self.vars.transfer_remaining = self.vars.transfer_remaining - data_len as u32;
                self.vars.next_block_sequence = expected.wrapping_add(1);
                self.vars.write_len = data_len;
                self.buffer = Some(buffer);
                Action::WritePage { page_number, page }
            },
        }
    }

    fn transfer_data(&mut self, buffer: Vec<u8>, len: usize) -> (action: Action<Vec<u8>>)
        requires
            old(self)@.wf(),
            len <= buffer@.len(),
            len > 0 && buffer@[0] == SID_TRANSFER_DATA,
            old(self)@.takes_block(buffer@, len as int) ==> len - 2 <= old(self)@.limits.page_len,
            sendable(old(self)@.transfer_data(buffer@, len as int)),
        ensures
            (final(self)@, action@) == old(self)@.transfer_data(buffer@, len as int),
    {
        match self.vars.transfer {
            Transfer::Upload => self.transfer_data_upload(buffer, len),
            Transfer::Closed => refuse(buffer, SID_TRANSFER_DATA, NRC_REQUEST_SEQUENCE_ERROR),
            Transfer::Download => self.transfer_data_download(buffer, len),
        }
    }

    fn request_transfer_exit(&mut self, buffer: Vec<u8>) -> (action: Action<Vec<u8>>)
        requires
            sendable(old(self)@.request_transfer_exit(buffer@)),
        ensures
            (final(self)@, action@) == old(self)@.request_transfer_exit(buffer@),
    {
        match self.vars.transfer {
            Transfer::Closed => {
                return refuse(buffer, SID_REQUEST_TRANSFER_EXIT, NRC_REQUEST_SEQUENCE_ERROR);
            },
            Transfer::Download => {
                if self.vars.transfer_remaining != 0 {
                    self.vars.transfer = Transfer::Closed;
                    return refuse(buffer, SID_REQUEST_TRANSFER_EXIT, NRC_TRANSFER_DATA_SUSPENDED);
                }
            },
            Transfer::Upload => {},
        }
        self.vars.transfer = Transfer::Closed;
        let message = [SID_REQUEST_TRANSFER_EXIT + POSITIVE_RESPONSE_OFFSET];
        assert(message@ =~= seq![positive(SID_REQUEST_TRANSFER_EXIT)]);
        transmit_message(buffer, message.as_slice())
    }

    #[verifier::rlimit(40)]
    fn handle(&mut self, buffer: Vec<u8>, len: usize) -> (action: Action<Vec<u8>>)
        requires
            old(self)@.wf(),
            old(self)@.page_buffer is Some,
            len <= buffer@.len(),
            old(self)@.takes_block(buffer@, len as int) ==> len - 2 <= old(self)@.limits.page_len,
            sendable(old(self)@.handle(buffer@, len as int)),
        ensures
            (final(self)@, action@) == old(self)@.handle(buffer@, len as int),
    {
        if len == 0 {
            return Action::Listen { buffer };
        }
        let sid: u8 = buffer[0];
        if sid == SID_DIAGNOSTIC_SESSION_CONTROL {
            self.session_control(buffer, len)
        } else if sid == SID_ECU_RESET {
            self.ecu_reset(buffer, len)
        } else if sid == SID_READ_DATA_BY_IDENTIFIER {
            self.read_data_by_identifier(buffer, len)
        } else if sid == SID_SECURITY_ACCESS {
            self.security_access(buffer, len)
        } else if sid == SID_WRITE_DATA_BY_IDENTIFIER {
            self.write_data_by_identifier(buffer, len)
        } else if sid == SID_ROUTINE_CONTROL {
            self.routine_control(buffer, len)
        } else if sid == SID_REQUEST_DOWNLOAD {
            self.request_download(buffer, len)
        } else if sid == SID_REQUEST_UPLOAD {
            self.request_upload(buffer, len)
        } else if sid == SID_TRANSFER_DATA {
            self.transfer_data(buffer, len)
        } else if sid == SID_REQUEST_TRANSFER_EXIT {
            self.request_transfer_exit(buffer)
        } else if sid == SID_TESTER_PRESENT {
            self.tester_present(buffer, len)
        } else {
            refuse(buffer, sid, NRC_SERVICE_NOT_SUPPORTED)
        }
    }

    // -- Long-running jobs --------------------------------------------------

    /// Overwrite the staged block with the bytes the tester asked for.
    fn apply_patch(&mut self)
        requires
            old(self)@.vars.patch_len <= old(self)@.patch.len(),
            old(self)@.vars.patch_offset <= u32::MAX - ATTRIBUTE_RECORD,
            old(self)@.patch.len() == ATTRIBUTE_RECORD,
        ensures
            final(self)@ == (UdsModel { stage: old(self)@.patched(), ..old(self)@ }),
    {
        let offset: usize = self.vars.patch_offset;
        let len: usize = self.vars.patch_len;
        if offset + len <= self.stage.len() {
            let patch = vstd::slice::slice_subrange(self.patch.as_slice(), 0, len);
            copy_into(&mut self.stage, offset, patch);
        }
    }

    /// Write page `page` of the staged block back, or finish.
    fn step_stage_write(&mut self, page: usize, end: usize) -> (action: Action<Vec<u8>>)
        requires
            old(self)@.wf(),
            old(self)@.vars.job == (Job::StageWrite { page, end }),
            sendable(old(self)@.step_stage_write(page, end)),
        ensures
            (final(self)@, action@) == old(self)@.step_stage_write(page, end),
    {
        let did: u16 = self.vars.pending_did;
        if page >= end {
            let message = [
                SID_WRITE_DATA_BY_IDENTIFIER + POSITIVE_RESPONSE_OFFSET,
                (did / 0x100) as u8,
                (did % 0x100) as u8,
            ];
            assert(message@ =~= seq![positive(SID_WRITE_DATA_BY_IDENTIFIER)] + be_bytes_u16(did));
            return self.conclude(message.as_slice());
        }
        let page_size: usize = self.page_size();
        match self.page_buffer.take() {
            None => self.fail(SID_WRITE_DATA_BY_IDENTIFIER),
            Some(page_buffer) => {
                proof {
                    lemma_page_in_block(page as int, page_size as int);
                }
                let from: usize = page * page_size;
                let to: usize = from + page_size;
                if to > self.stage.len() {
                    self.page_buffer = Some(page_buffer);
                    return self.fail(SID_WRITE_DATA_BY_IDENTIFIER);
                }
                let mut page_buffer = page_buffer;
                let source = vstd::slice::slice_subrange(self.stage.as_slice(), from, to);
                copy_into(&mut page_buffer, 0, source);
                assert(page_buffer@ =~= self.stage@.subrange(from as int, to as int));
                self.vars.job = Job::StageWrite { page: page + 1, end };
                proof {
                    lemma_stage_pages_fit(old(self)@);
                }
                Action::WritePage {
                    page_number: self.vars.stage_first_page + page,
                    page: page_buffer,
                }
            },
        }
    }

    /// Drive the current multi-page job one page forward.
    fn step(&mut self) -> (action: Action<Vec<u8>>)
        requires
            old(self)@.wf(),
            old(self)@.buffer is Some || old(self)@.vars.job is Erase,
            sendable(old(self)@.step()),
        ensures
            (final(self)@, action@) == old(self)@.step(),
    {
        match self.vars.job {
            Job::Erase { page, end } => {
                if page >= end {
                    let message = [
                        SID_ROUTINE_CONTROL + POSITIVE_RESPONSE_OFFSET,
                        ROUTINE_START,
                        (ROUTINE_ERASE_MEMORY / 0x100) as u8,
                        (ROUTINE_ERASE_MEMORY % 0x100) as u8,
                    ];
                    assert(message@ =~= seq![positive(SID_ROUTINE_CONTROL), ROUTINE_START]
                        + be_bytes_u16(ROUTINE_ERASE_MEMORY));
                    return self.conclude(message.as_slice());
                }
                // Advance first so the completion just reports progress.
                self.vars.job = Job::Erase { page: page + 1, end };
                Action::ErasePage { page_number: page }
            },
            Job::Crc { address, remaining, crc } => {
                if remaining == 0 {
                    let value = to_be_bytes(crc ^ 0xFFFF_FFFF);
                    let message = [
                        SID_ROUTINE_CONTROL + POSITIVE_RESPONSE_OFFSET,
                        ROUTINE_START,
                        (ROUTINE_CHECK_MEMORY / 0x100) as u8,
                        (ROUTINE_CHECK_MEMORY % 0x100) as u8,
                        value[0],
                        value[1],
                        value[2],
                        value[3],
                    ];
                    assert(message@ =~= seq![positive(SID_ROUTINE_CONTROL), ROUTINE_START]
                        + be_bytes_u16(ROUTINE_CHECK_MEMORY) + be_bytes(crc ^ 0xFFFF_FFFF));
                    return self.conclude(message.as_slice());
                }
                let page_size: usize = self.page_size();
                self.read_page(address as usize / page_size, SID_ROUTINE_CONTROL)
            },
            Job::StageRead { page, end } => {
                proof {
                    lemma_stage_pages_fit(old(self)@);
                }
                if page >= end {
                    // The block is in RAM; patch it and start putting it back.
                    // Nothing has been erased yet, so a failure up to this
                    // point costs nothing.
                    self.apply_patch();
                    self.vars.job = Job::StageWrite { page: 0, end };
                    return self.step_stage_write(0, end);
                }
                // Advance first, so the completion knows the page it just read
                // was the one before.
                self.vars.job = Job::StageRead { page: page + 1, end };
                let page_number: usize = self.vars.stage_first_page + page;
                self.read_page(page_number, SID_WRITE_DATA_BY_IDENTIFIER)
            },
            Job::StageWrite { page, end } => self.step_stage_write(page, end),
            _ => Action::Idle,
        }
    }

    /// Continue whatever was deferred behind a 0x78, now that the buffer is
    /// back from transmitting it.
    fn resume_job(&mut self, buffer: Vec<u8>) -> (action: Action<Vec<u8>>)
        requires
            old(self)@.wf(),
            old(self)@.buffer is None,
            sendable(old(self)@.message_transmitted(buffer@)),
        ensures
            (final(self)@, action@) == old(self)@.message_transmitted(buffer@),
    {
        match self.vars.job {
            Job::Erase { .. } | Job::Crc { .. } | Job::StageRead { .. } => {
                self.buffer = Some(buffer);
                self.step()
            },
            Job::Reset => {
                self.buffer = Some(buffer);
                Action::Reset { then: None }
            },
            _ => Action::Listen { buffer },
        }
    }

    // -- Events -------------------------------------------------------------

    /// `len` bytes of a message arrived in `buffer`, or the reception failed.
    pub fn message_received(
        &mut self,
        buffer: Vec<u8>,
        len: usize,
        result: Result<(), ErrorCode>,
    ) -> (action: Action<Vec<u8>>)
        requires
            old(self)@.wf(),
            old(self)@.buffer is None,
            result is Ok ==> {
                &&& len <= buffer@.len()
                &&& old(self)@.takes_block(buffer@, len as int) ==> len - 2
                    <= old(self)@.limits.page_len
            },
            sendable(old(self)@.message_received(buffer@, len as int, result is Ok)),
        ensures
            (final(self)@, action@) == old(self)@.message_received(
                buffer@,
                len as int,
                result is Ok,
            ),
            final(self)@.wf(),
    {
        proof {
            lemma_message_received_wf(old(self)@, buffer@, len as int, result is Ok);
        }
        match result {
            Err(_) => Action::Listen { buffer },
            Ok(_) => self.handle(buffer, len),
        }
    }

    /// A message is on the wire and its buffer back.
    pub fn message_transmitted(&mut self, buffer: Vec<u8>, result: Result<(), ErrorCode>) -> (action:
        Action<Vec<u8>>)
        requires
            old(self)@.wf(),
            old(self)@.buffer is None,
            sendable(old(self)@.message_transmitted(buffer@)),
        ensures
            (final(self)@, action@) == old(self)@.message_transmitted(buffer@),
            final(self)@.wf(),
    {
        proof {
            lemma_step_wf(UdsModel { buffer: Some(buffer@), ..old(self)@ });
        }
        self.resume_job(buffer)
    }

    /// The link would not take a message; go back to listening.
    pub fn transmit_refused(&mut self, buffer: Vec<u8>) -> (action: Action<Vec<u8>>)
        requires
            old(self)@.wf(),
        ensures
            final(self)@ == old(self)@,
            action@ == (Action::Listen { buffer: buffer@ }),
            final(self)@.wf(),
    {
        Action::Listen { buffer }
    }

    /// The flash did not start a read and gave the page back.
    pub fn read_refused(&mut self, page: Vec<u8>) -> (action: Action<Vec<u8>>)
        requires
            old(self)@.wf(),
            old(self)@.page_buffer is None,
            page@.len() == old(self)@.limits.page_len,
            sendable(old(self)@.read_refused(page@)),
        ensures
            (final(self)@, action@) == old(self)@.read_refused(page@),
            final(self)@.wf(),
    {
        self.page_buffer = Some(page);
        match self.vars.job {
            Job::DidRead => self.fail(SID_READ_DATA_BY_IDENTIFIER),
            Job::Read { .. } => self.fail(SID_TRANSFER_DATA),
            Job::Crc { .. } => self.fail(SID_ROUTINE_CONTROL),
            Job::StageRead { .. } => self.fail(SID_WRITE_DATA_BY_IDENTIFIER),
            _ => Action::Idle,
        }
    }

    /// The flash did not start a write and gave the page back.
    pub fn write_refused(&mut self, page: Vec<u8>) -> (action: Action<Vec<u8>>)
        requires
            old(self)@.wf(),
            old(self)@.page_buffer is None,
            page@.len() == old(self)@.limits.page_len,
            sendable(old(self)@.write_refused(page@)),
        ensures
            (final(self)@, action@) == old(self)@.write_refused(page@),
            final(self)@.wf(),
    {
        self.page_buffer = Some(page);
        match self.vars.job {
            Job::Write => {
                self.vars.transfer_address = self.vars.transfer_address
                    - self.vars.write_len as u32;
                self.vars.transfer_remaining = self.vars.transfer_remaining
                    + self.vars.write_len as u32;
                self.vars.next_block_sequence = self.vars.next_block_sequence.wrapping_sub(1);
                self.fail(SID_TRANSFER_DATA)
            },
            Job::StageWrite { .. } => self.fail(SID_WRITE_DATA_BY_IDENTIFIER),
            _ => Action::Idle,
        }
    }

    /// The flash did not start an erase.
    pub fn erase_refused(&mut self) -> (action: Action<Vec<u8>>)
        requires
            old(self)@.wf(),
            sendable(old(self)@.erase_refused()),
        ensures
            (final(self)@, action@) == old(self)@.erase_refused(),
            final(self)@.wf(),
    {
        match self.vars.job {
            Job::Erase { .. } => self.fail(SID_ROUTINE_CONTROL),
            _ => Action::Idle,
        }
    }

    /// The page of the attribute or flag being read arrived.
    fn did_read_complete(&mut self, offset: usize) -> (action: Action<Vec<u8>>)
        requires
            old(self)@.wf(),
            old(self)@.page_buffer is Some,
            offset == old(self)@.vars.did_address as int % (
            old(self)@.page_buffer->0.len() as int),
            sendable(old(self)@.did_read_complete(old(self)@.page_buffer->0)),
        ensures
            (final(self)@, action@) == old(self)@.did_read_complete(old(self)@.page_buffer->0),
    {
        let did: u16 = self.vars.pending_did;
        let len: usize = self.vars.did_len;
        let page_size: usize = self.page_size();
        match self.buffer.take() {
            None => {
                self.vars.job = Job::Idle;
                Action::Idle
            },
            Some(buffer) => {
                if offset + len > page_size || buffer.len() < 3 + len {
                    self.buffer = Some(buffer);
                    return self.fail(SID_READ_DATA_BY_IDENTIFIER);
                }
                self.vars.job = Job::Idle;
                let value = match &self.page_buffer {
                    Some(page) => vstd::slice::slice_to_vec(
                        vstd::slice::slice_subrange(page.as_slice(), offset, offset + len),
                    ),
                    None => Vec::new(),
                };
                if self.vars.did_reverse {
                    send_identifier(buffer, did, reversed(value.as_slice()).as_slice())
                } else {
                    send_identifier(buffer, did, value.as_slice())
                }
            },
        }
    }

    /// The page of an uploaded block arrived.
    fn upload_complete(&mut self, address: u32, take: usize) -> (action: Action<Vec<u8>>)
        requires
            old(self)@.wf(),
            old(self)@.page_buffer is Some,
            old(self)@.vars.job == (Job::Read { address, take }),
            sendable(old(self)@.upload_complete(address, take, old(self)@.page_buffer->0)),
        ensures
            (final(self)@, action@) == old(self)@.upload_complete(
                address,
                take,
                old(self)@.page_buffer->0,
            ),
    {
        let page_size: usize = self.page_size();
        let offset: usize = address as usize % page_size;
        // A block handed out again has the number it had.
        let sequence: u8 = if address == self.vars.transfer_address {
            self.vars.next_block_sequence
        } else {
            self.vars.next_block_sequence.wrapping_sub(1)
        };
        match self.buffer.take() {
            None => {
                self.vars.job = Job::Idle;
                Action::Idle
            },
            Some(buffer) => {
                if buffer.len() < 2 + take || offset + take > page_size {
                    self.buffer = Some(buffer);
                    return self.fail(SID_TRANSFER_DATA);
                }
                self.vars.job = Job::Idle;
                // Only advance once the block is built. A repeat of the same
                // sequence number before this point therefore re-reads the
                // same bytes rather than skipping ahead.
                if address == self.vars.transfer_address {
                    self.vars.transfer_address = address + take as u32;
                    self.vars.transfer_remaining = self.vars.transfer_remaining - take as u32;
                    self.vars.next_block_sequence = sequence.wrapping_add(1);
                    self.vars.prev_block_address = address;
                    self.vars.prev_block_len = take;
                }
                let mut buffer = buffer;
                let ghost before = buffer@;
                buffer[0] = SID_TRANSFER_DATA + POSITIVE_RESPONSE_OFFSET;
                buffer[1] = sequence;
                match &self.page_buffer {
                    Some(page) => {
                        let block = vstd::slice::slice_subrange(
                            page.as_slice(),
                            offset,
                            offset + take,
                        );
                        copy_into(&mut buffer, 2, block);
                        proof {
                            let message = seq![positive(SID_TRANSFER_DATA), sequence] + block@;
                            assert(message.len() == 2 + take);
                            assert forall|i: int| 0 <= i < buffer@.len() implies
                                #[trigger] buffer@[i] == write_at(before, 0, message)[i] by {
                                if 2 <= i < 2 + take {
                                    assert(message[i] == block@[i - 2]);
                                }
                            }
                            assert(buffer@ =~= write_at(before, 0, message));
                        }
                    },
                    None => {},
                }
                Action::Transmit { buffer, len: 2 + take }
            },
        }
    }

    /// A page arrived from flash.
    pub fn read_complete(&mut self, page: Vec<u8>) -> (action: Action<Vec<u8>>)
        requires
            old(self)@.wf(),
            old(self)@.page_buffer is None,
            page@.len() == old(self)@.limits.page_len,
            sendable(old(self)@.read_complete(page@)),
        ensures
            (final(self)@, action@) == old(self)@.read_complete(page@),
            final(self)@.wf(),
    {
        proof {
            lemma_read_complete_wf(old(self)@, page@);
        }
        let page_size: usize = page.len();
        match self.vars.job {
            Job::Crc { address, remaining, crc } => {
                let offset: usize = address as usize % page_size;
                let mut take: usize = page_size - offset;
                if take > remaining as usize {
                    take = remaining as usize;
                }
                let new_crc: u32 = update(crc, page.as_slice(), offset, offset + take);
                self.page_buffer = Some(page);
                self.vars.job = Job::Crc {
                    address: address + take as u32,
                    remaining: remaining - take as u32,
                    crc: new_crc,
                };
                self.step()
            },
            Job::StageRead { page: next, .. } => {
                let done: usize = if next == 0 {
                    0
                } else {
                    next - 1
                };
                proof {
                    lemma_page_in_block(done as int, page_size as int);
                }
                let to: usize = done * page_size;
                if to + page_size > self.stage.len() {
                    self.page_buffer = Some(page);
                    return self.fail(SID_WRITE_DATA_BY_IDENTIFIER);
                }
                copy_into(&mut self.stage, to, page.as_slice());
                self.page_buffer = Some(page);
                self.step()
            },
            Job::DidRead => {
                let offset: usize = self.vars.did_address as usize % page_size;
                self.page_buffer = Some(page);
                self.did_read_complete(offset)
            },
            Job::Read { address, take } => {
                self.page_buffer = Some(page);
                self.upload_complete(address, take)
            },
            _ => {
                self.page_buffer = Some(page);
                Action::Idle
            },
        }
    }

    /// A page was written, or failed to be.
    pub fn write_complete(&mut self, page: Vec<u8>, result: Result<(), ErrorCode>) -> (action: Action<
        Vec<u8>,
    >)
        requires
            old(self)@.wf(),
            old(self)@.page_buffer is None,
            page@.len() == old(self)@.limits.page_len,
            sendable(old(self)@.write_complete(page@, result is Ok)),
        ensures
            (final(self)@, action@) == old(self)@.write_complete(page@, result is Ok),
            final(self)@.wf(),
    {
        proof {
            lemma_step_wf(UdsModel { page_buffer: Some(page@), ..old(self)@ });
        }
        self.page_buffer = Some(page);
        match self.vars.job {
            Job::StageWrite { .. } => match result {
                Err(_) => self.fail(SID_WRITE_DATA_BY_IDENTIFIER),
                Ok(_) => self.step(),
            },
            Job::Write => match result {
                Err(_) => self.fail(SID_TRANSFER_DATA),
                Ok(_) => {
                    let sequence: u8 = self.vars.next_block_sequence.wrapping_sub(1);
                    let message = [SID_TRANSFER_DATA + POSITIVE_RESPONSE_OFFSET, sequence];
                    assert(message@ =~= seq![positive(SID_TRANSFER_DATA), sequence]);
                    self.conclude(message.as_slice())
                },
            },
            _ => Action::Idle,
        }
    }

    /// A page was erased, or failed to be.
    pub fn erase_complete(&mut self, result: Result<(), ErrorCode>) -> (action: Action<Vec<u8>>)
        requires
            old(self)@.wf(),
            sendable(old(self)@.erase_complete(result is Ok)),
        ensures
            (final(self)@, action@) == old(self)@.erase_complete(result is Ok),
            final(self)@.wf(),
    {
        proof {
            if self.vars.job is Erase {
                lemma_step_wf(old(self)@);
            }
        }
        match self.vars.job {
            Job::Erase { .. } => match result {
                Err(_) => self.fail(SID_ROUTINE_CONTROL),
                Ok(_) => self.step(),
            },
            _ => Action::Idle,
        }
    }
}

/// The erase block that holds an address starts at or below it.
pub proof fn lemma_block_start(address: int, page_len: int)
    requires
        0 <= address,
        0 < page_len,
    ensures
        0 <= address / page_len / 16 * 16 <= address / page_len <= address,
        0 <= address / page_len / 16 * 16 * page_len <= address,
{
    let page = address / page_len;
    let first = page / 16 * 16;
    lemma_split(address, page_len);
    lemma_start_order(0, first, page_len);
    lemma_start_order(first, page, page_len);
}

/// A page of the staged block lies inside it.
pub proof fn lemma_page_in_block(page: int, page_len: int)
    requires
        0 <= page < BLOCK_PAGES,
        0 <= page_len,
    ensures
        0 <= page * page_len,
        page * page_len + page_len == (page + 1) * page_len,
        (page + 1) * page_len <= BLOCK_PAGES * page_len,
{
    assert(0 <= page * page_len && page * page_len + page_len == (page + 1) * page_len && (page
        + 1) * page_len <= 16 * page_len) by (nonlinear_arith)
        requires
            0 <= page < 16,
            0 <= page_len,
    ;
}

/// The pages of a staged block have numbers that fit.
proof fn lemma_stage_pages_fit(model: UdsModel)
    requires
        model.wf(),
        model.vars.job is StageRead || model.vars.job is StageWrite,
    ensures
        model.vars.stage_first_page + BLOCK_PAGES <= u32::MAX,
        model.vars.patch_offset + ATTRIBUTE_RECORD <= u32::MAX,
{
    let first = model.vars.stage_first_page as int;
    let page_len = model.limits.page_len as int;
    assert(first + 16 <= first * page_len + 16 * page_len) by (nonlinear_arith)
        requires
            0 <= first,
            0 < page_len,
    ;
}

/// Stepping a job keeps the state well formed.
#[verifier::rlimit(40)]
proof fn lemma_step_wf(model: UdsModel)
    requires
        model.wf(),
        model.buffer is Some && model.page_buffer is Some || !model.uses_page(),
    ensures
        model.step().0.wf(),
{
}

/// Asking for a routine keeps the state well formed.
#[verifier::rlimit(40)]
proof fn lemma_routine_wf(model: UdsModel, buffer: Seq<u8>, len: int)
    requires
        model.wf(),
        model.page_buffer is Some,
    ensures
        model.routine_control(buffer, len).0.wf(),
{
    let address = be_u32(buffer, 4) as int;
    let size = be_u32(buffer, 8) as int;
    let floor = model.limits.write_floor as int;
    let end = model.limits.flash_end as int;
    let page_len = model.limits.page_len as int;
    if floor <= address && address + size <= end {
        lemma_split(address, page_len);
        lemma_page_order(floor, address, page_len);
        lemma_split(address + size + page_len - 1, page_len);
        lemma_page_order(address + size + page_len - 1, end + page_len - 1, page_len);
        lemma_split(end + page_len - 1, page_len);
    }
}

/// Setting a rewrite up keeps the state well formed.
proof fn lemma_rewrite_wf(
    model: UdsModel,
    buffer: Seq<u8>,
    did: u16,
    address: int,
    patch_len: usize,
)
    requires
        model.wf(),
        model.page_buffer is Some,
        patch_len <= ATTRIBUTE_RECORD,
        0 <= address,
        address + patch_len + BLOCK_PAGES * model.limits.page_len <= u32::MAX,
    ensures
        model.rewrite(buffer, did, address, patch_len).0.wf(),
{
    lemma_block_start(address, model.limits.page_len as int);
}

/// Asking for an identifier to be written keeps the state well formed.
proof fn lemma_did_write_wf(model: UdsModel, buffer: Seq<u8>, len: int)
    requires
        model.wf(),
        model.page_buffer is Some,
    ensures
        model.write_data_by_identifier(buffer, len).0.wf(),
{
    let did = be_u16(buffer, 1);
    lemma_rewrite_wf(
        UdsModel { patch: padded(le_bytes(be_u32(buffer, 3))), ..model },
        buffer,
        did,
        model.start_address_at(),
        4,
    );
    if DID_ATTRIBUTE_BASE <= did <= DID_ATTRIBUTE_LAST {
        lemma_rewrite_wf(
            UdsModel { patch: padded(buffer.subrange(3, len)), ..model },
            buffer,
            did,
            model.attribute_at(did),
            ATTRIBUTE_RECORD,
        );
    }
}

/// Asking for an identifier to be read keeps the state well formed.
proof fn lemma_did_read_wf(model: UdsModel, buffer: Seq<u8>, len: int)
    requires
        model.wf(),
        model.page_buffer is Some,
    ensures
        model.read_data_by_identifier(buffer, len).0.wf(),
{
}

/// Moving a block keeps the state well formed.
proof fn lemma_transfer_wf(model: UdsModel, buffer: Seq<u8>, len: int)
    requires
        model.wf(),
        model.page_buffer is Some,
        0 <= len <= buffer.len(),
    ensures
        model.transfer_data(buffer, len).0.wf(),
{
}

/// Opening or closing a transfer keeps the state well formed.
proof fn lemma_transfer_bounds_wf(model: UdsModel, buffer: Seq<u8>, len: int)
    requires
        model.wf(),
        model.page_buffer is Some,
        model.buffer is None,
    ensures
        model.request_transfer(buffer, len, Transfer::Download).0.wf(),
        model.request_transfer(buffer, len, Transfer::Upload).0.wf(),
        model.request_transfer_exit(buffer).0.wf(),
{
}

/// Sessions, unlocking, resets and keep-alives keep the state well formed.
proof fn lemma_session_wf(model: UdsModel, buffer: Seq<u8>, len: int)
    requires
        model.wf(),
        model.page_buffer is Some,
        model.buffer is None,
    ensures
        model.session_control(buffer, len).0.wf(),
        model.security_access(buffer, len).0.wf(),
        model.ecu_reset(buffer, len).0.wf(),
        model.tester_present(buffer, len).0.wf(),
{
}

/// Receiving a message keeps the state well formed.
#[verifier::rlimit(40)]
pub proof fn lemma_message_received_wf(model: UdsModel, buffer: Seq<u8>, len: int, ok: bool)
    requires
        model.wf(),
        model.buffer is None,
        ok ==> 0 <= len <= buffer.len(),
    ensures
        model.message_received(buffer, len, ok).0.wf(),
{
    if ok && len > 0 {
        let sid = buffer[0];
        if sid == SID_READ_DATA_BY_IDENTIFIER {
            lemma_did_read_wf(model, buffer, len);
        } else if sid == SID_WRITE_DATA_BY_IDENTIFIER {
            lemma_did_write_wf(model, buffer, len);
        } else if sid == SID_ROUTINE_CONTROL {
            lemma_routine_wf(model, buffer, len);
        } else if sid == SID_TRANSFER_DATA {
            lemma_transfer_wf(model, buffer, len);
        } else if sid == SID_REQUEST_DOWNLOAD || sid == SID_REQUEST_UPLOAD || sid
            == SID_REQUEST_TRANSFER_EXIT {
            lemma_transfer_bounds_wf(model, buffer, len);
        } else {
            lemma_session_wf(model, buffer, len);
        }
    }
}

/// Receiving a page keeps the state well formed.
#[verifier::rlimit(40)]
proof fn lemma_read_complete_wf(model: UdsModel, page: Seq<u8>)
    requires
        model.wf(),
        model.page_buffer is None,
        page.len() == model.limits.page_len,
    ensures
        model.read_complete(page).0.wf(),
{
}

} // verus!

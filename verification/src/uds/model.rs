//! What each event does to the server, as mathematics.
//!
//! [`UdsModel`] is the server's state with its buffers read as sequences. Each
//! event is a function from a state to the next state and the action asked
//! for.

use vstd::prelude::*;

use crate::actions::{transmit, Action};
use crate::bytes::{be_bytes, be_bytes_u16, be_u16, be_u32, le_bytes, write_at};
use crate::crc::{crc_of_bytes, CRC_SEED};
use crate::uds::codes::{
    ATTRIBUTE_RECORD, BLOCK_PAGES, DID_ACTIVE_SESSION, DID_APPLICATION_START_ADDRESS,
    DID_ATTRIBUTE_BASE, DID_ATTRIBUTE_LAST, DID_BOOT_SOFTWARE_IDENTIFICATION,
    DID_KERNEL_START_ADDRESS, FLAGS_START_ADDRESS_OFFSET, Job, Limits, MAX_BLOCK_LENGTH_HIGH,
    MAX_BLOCK_LENGTH_LOW, NEGATIVE_RESPONSE, NRC_CONDITIONS_NOT_CORRECT,
    NRC_GENERAL_PROGRAMMING_FAILURE, NRC_INCORRECT_LENGTH, NRC_INVALID_KEY,
    NRC_REQUEST_OUT_OF_RANGE, NRC_REQUEST_SEQUENCE_ERROR, NRC_RESPONSE_PENDING,
    NRC_SECURITY_ACCESS_DENIED, NRC_SERVICE_NOT_SUPPORTED, NRC_SUBFUNCTION_NOT_SUPPORTED,
    NRC_TRANSFER_DATA_SUSPENDED, NRC_UPLOAD_DOWNLOAD_NOT_ACCEPTED,
    NRC_WRONG_BLOCK_SEQUENCE_COUNTER, POSITIVE_RESPONSE_OFFSET, ROUTINE_CHECK_MEMORY,
    ROUTINE_ERASE_MEMORY, ROUTINE_START, SECURITY_KEY_XOR, SEED_XOR, SESSION_DEFAULT,
    SESSION_PROGRAMMING, SID_DIAGNOSTIC_SESSION_CONTROL, SID_ECU_RESET,
    SID_READ_DATA_BY_IDENTIFIER, SID_REQUEST_DOWNLOAD, SID_REQUEST_TRANSFER_EXIT,
    SID_REQUEST_UPLOAD, SID_ROUTINE_CONTROL, SID_SECURITY_ACCESS, SID_TESTER_PRESENT,
    SID_TRANSFER_DATA, SID_WRITE_DATA_BY_IDENTIFIER, Security, Stage, TRANSFER_BLOCK, Transfer,
    Vars,
};

verus! {

/// The name reported as the boot software identification: `TOCKBL 0.1.0`.
pub open spec fn boot_software_name() -> Seq<u8> {
    seq![0x54, 0x4F, 0x43, 0x4B, 0x42, 0x4C, 0x20, 0x30, 0x2E, 0x31, 0x2E, 0x30]
}

/// A negative response.
pub open spec fn negative(sid: u8, nrc: u8) -> Seq<u8> {
    seq![NEGATIVE_RESPONSE, sid, nrc]
}

/// The first byte of a positive response to `sid`.
pub open spec fn positive(sid: u8) -> u8 {
    (sid + POSITIVE_RESPONSE_OFFSET) as u8
}

/// A positive response to `ReadDataByIdentifier`.
pub open spec fn identifier_value(did: u16, value: Seq<u8>) -> Seq<u8> {
    seq![positive(SID_READ_DATA_BY_IDENTIFIER)] + be_bytes_u16(did) + value
}

/// A positive response that opens a transfer, in either direction.
pub open spec fn transfer_opened(sid: u8) -> Seq<u8> {
    seq![positive(sid), 0x20, MAX_BLOCK_LENGTH_HIGH, MAX_BLOCK_LENGTH_LOW]
}

/// `data` as one attribute record: zeros past its end.
pub open spec fn padded(data: Seq<u8>) -> Seq<u8> {
    Seq::new(
        ATTRIBUTE_RECORD as nat,
        |i: int|
            if i < data.len() {
                data[i]
            } else {
                0
            },
    )
}

/// `data` as one flash page: the erased value past its end.
pub open spec fn page_of(data: Seq<u8>, page_len: nat) -> Seq<u8> {
    Seq::new(
        page_len,
        |i: int|
            if i < data.len() {
                data[i]
            } else {
                0xFF
            },
    )
}

/// The smaller of two lengths.
pub open spec fn least(a: int, b: int) -> int {
    if a <= b {
        a
    } else {
        b
    }
}

impl Limits {
    /// The map leaves room above every address the server computes.
    pub open spec fn ok(self) -> bool {
        &&& self.page_len > 0
        &&& self.flash_end + self.page_len - 1 <= u32::MAX
        &&& self.flags_address + FLAGS_START_ADDRESS_OFFSET + 4 + BLOCK_PAGES * self.page_len
            <= u32::MAX
        &&& self.attributes_address + 16 * ATTRIBUTE_RECORD + BLOCK_PAGES * self.page_len
            <= u32::MAX
    }

    /// May a transfer, erase or checksum cover `address..address + size`?
    pub open spec fn range_ok(self, address: u32, size: u32) -> bool {
        size > 0 && self.write_floor <= address && address + size <= self.flash_end
    }

    /// The seed handed out by `SecurityAccess`: derived from the flash end so
    /// that it is not one constant.
    pub open spec fn seed(self) -> u32 {
        ((self.flash_end << 7) | (self.flash_end >> 25)) ^ SEED_XOR
    }

    /// First page of the erase block that holds `address`.
    pub open spec fn block_first_page(self, address: int) -> int {
        address / (self.page_len as int) / (BLOCK_PAGES as int) * BLOCK_PAGES
    }
}

/// The server's state.
#[verifier::ext_equal]
pub struct UdsModel {
    pub limits: Limits,
    pub vars: Vars,
    /// The bytes a staged rewrite will patch in.
    pub patch: Seq<u8>,
    /// One flash page of RAM, absent while the flash has it.
    pub page_buffer: Option<Seq<u8>>,
    /// The message buffer, held while a job runs.
    pub buffer: Option<Seq<u8>>,
    /// One erase block of RAM.
    pub stage: Seq<u8>,
}

/// A state and what is asked for on reaching it.
pub type Outcome = (UdsModel, Action<Seq<u8>>);

impl UdsModel {
    /// A server that has heard nothing yet.
    pub open spec fn init(
        limits: Limits,
        page_buffer: Seq<u8>,
        buffer: Seq<u8>,
        stage: Seq<u8>,
    ) -> UdsModel {
        UdsModel {
            limits,
            vars: Vars {
                session: SESSION_DEFAULT,
                security: Security::Locked,
                job: Job::Idle,
                transfer: Transfer::Closed,
                transfer_address: 0,
                transfer_remaining: 0,
                next_block_sequence: 1,
                prev_block_address: 0,
                prev_block_len: 0,
                write_len: 0,
                pending_did: 0,
                did_address: 0,
                did_len: 0,
                did_reverse: false,
                patch_len: 0,
                patch_offset: 0,
                stage_first_page: 0,
            },
            patch: padded(Seq::empty()),
            page_buffer: Some(page_buffer),
            buffer: Some(buffer),
            stage,
        }
    }

    /// What holds between any two events.
    pub open spec fn wf(self) -> bool {
        &&& self.limits.ok()
        &&& self.patch.len() == ATTRIBUTE_RECORD
        &&& self.page_buffer matches Some(page) ==> page.len() == self.limits.page_len
        &&& self.page_buffer is None ==> self.buffer is Some && self.uses_page()
        &&& self.vars.patch_len <= ATTRIBUTE_RECORD
        &&& self.vars.did_len <= ATTRIBUTE_RECORD
        &&& self.vars.prev_block_len <= TRANSFER_BLOCK
        &&& self.session_wf()
        &&& self.transfer_wf()
        &&& self.job_wf()
    }

    /// Is the job one that reads or writes a page?
    pub open spec fn uses_page(self) -> bool {
        match self.vars.job {
            Job::Idle | Job::Erase { .. } | Job::Reset => false,
            _ => true,
        }
    }

    /// Only the programming session can be unlocked or transferring.
    pub open spec fn session_wf(self) -> bool {
        &&& self.vars.session == SESSION_DEFAULT || self.vars.session == SESSION_PROGRAMMING
        &&& self.vars.session == SESSION_DEFAULT ==> self.vars.security is Locked
            && self.vars.transfer is Closed
    }

    /// What is left of an open transfer lies in the range it was opened for,
    /// and the block last handed out ends where the transfer stands.
    pub open spec fn transfer_wf(self) -> bool {
        &&& self.vars.transfer !is Closed ==> self.limits.write_floor <= self.vars.transfer_address
            && self.vars.transfer_address + self.vars.transfer_remaining <= self.limits.flash_end
        &&& self.vars.transfer is Upload && self.vars.prev_block_len > 0
            ==> self.vars.prev_block_address + self.vars.prev_block_len
            == self.vars.transfer_address
    }

    /// A job in progress stays where its request was allowed to go.
    pub open spec fn job_wf(self) -> bool {
        let page_len = self.limits.page_len as int;
        match self.vars.job {
            Job::Idle => true,
            Job::Erase { page, end } => {
                &&& self.limits.write_floor as int / page_len <= page
                &&& end <= (self.limits.flash_end + page_len - 1) / page_len
            },
            Job::Write => {
                &&& self.buffer is Some
                &&& self.vars.transfer is Download
                &&& self.limits.write_floor + self.vars.write_len <= self.vars.transfer_address
            },
            Job::Read { address, take } => {
                &&& self.buffer is Some
                &&& self.vars.transfer is Upload
                &&& 0 < take <= TRANSFER_BLOCK
                // The next block, or the one last handed out.
                &&& address == self.vars.transfer_address && take <= self.vars.transfer_remaining
                    || address + take == self.vars.transfer_address
            },
            Job::DidRead => self.buffer is Some,
            Job::StageRead { page, end } => {
                &&& page <= end == BLOCK_PAGES
                &&& self.stage_wf()
            },
            Job::StageWrite { page, end } => {
                &&& page <= end == BLOCK_PAGES
                &&& self.stage_wf()
                &&& self.buffer is Some
            },
            Job::Crc { address, remaining, crc: _ } => {
                &&& self.limits.write_floor <= address
                &&& address + remaining <= self.limits.flash_end
            },
            Job::Reset => true,
        }
    }

    /// A staged rewrite covers one whole erase block that does not hold the
    /// bootloader, and its patch lies inside that block.
    pub open spec fn stage_wf(self) -> bool {
        let block_len = BLOCK_PAGES * self.limits.page_len;
        &&& block_len <= self.stage.len()
        &&& self.vars.patch_offset + self.vars.patch_len <= block_len
        &&& self.limits.text_end <= self.vars.stage_first_page * self.limits.page_len
        &&& self.vars.stage_first_page * self.limits.page_len + block_len <= u32::MAX
    }

    pub open spec fn unlocked(self) -> bool {
        self.vars.security is Unlocked
    }

    /// Bytes in a page, as far as the server can tell.
    pub open spec fn page_size(self) -> int {
        match self.page_buffer {
            Some(page) => page.len() as int,
            None => 512,
        }
    }

    /// Answer with the buffer at hand.
    pub open spec fn answer(self, buffer: Seq<u8>, message: Seq<u8>) -> Outcome {
        (self, transmit(buffer, message))
    }

    /// Answer a finished or abandoned job with the held buffer.
    pub open spec fn conclude(self, message: Seq<u8>) -> Outcome {
        let done = UdsModel {
            vars: Vars { job: Job::Idle, ..self.vars },
            buffer: None,
            ..self
        };
        match self.buffer {
            Some(buffer) => done.answer(buffer, message),
            None => (done, Action::Idle),
        }
    }

    pub open spec fn fail_routine(self) -> Outcome {
        self.conclude(negative(SID_ROUTINE_CONTROL, NRC_GENERAL_PROGRAMMING_FAILURE))
    }

    pub open spec fn fail_did_write(self) -> Outcome {
        self.conclude(negative(SID_WRITE_DATA_BY_IDENTIFIER, NRC_GENERAL_PROGRAMMING_FAILURE))
    }

    pub open spec fn fail_did_read(self) -> Outcome {
        self.conclude(negative(SID_READ_DATA_BY_IDENTIFIER, NRC_GENERAL_PROGRAMMING_FAILURE))
    }

    pub open spec fn fail_transfer(self) -> Outcome {
        self.conclude(negative(SID_TRANSFER_DATA, NRC_GENERAL_PROGRAMMING_FAILURE))
    }

    // -- Services -----------------------------------------------------------

    pub open spec fn session_control(self, buffer: Seq<u8>, len: int) -> Outcome {
        let sub = buffer[1] & 0x7F;
        if len < 2 {
            self.answer(buffer, negative(SID_DIAGNOSTIC_SESSION_CONTROL, NRC_INCORRECT_LENGTH))
        } else if sub == SESSION_DEFAULT || sub == SESSION_PROGRAMMING {
            // Leaving the programming session drops any unlock and any
            // transfer in progress.
            let vars = if sub == SESSION_DEFAULT {
                Vars {
                    session: sub,
                    security: Security::Locked,
                    transfer: Transfer::Closed,
                    ..self.vars
                }
            } else {
                Vars { session: sub, ..self.vars }
            };
            UdsModel { vars, ..self }.answer(
                buffer,
                seq![positive(SID_DIAGNOSTIC_SESSION_CONTROL), sub, 0x00, 0x32, 0x01, 0xF4],
            )
        } else {
            self.answer(
                buffer,
                negative(SID_DIAGNOSTIC_SESSION_CONTROL, NRC_SUBFUNCTION_NOT_SUPPORTED),
            )
        }
    }

    pub open spec fn ecu_reset(self, buffer: Seq<u8>, len: int) -> Outcome {
        let sub = buffer[1] & 0x7F;
        if len < 2 {
            self.answer(buffer, negative(SID_ECU_RESET, NRC_INCORRECT_LENGTH))
        } else if sub != 0x01 {
            self.answer(buffer, negative(SID_ECU_RESET, NRC_SUBFUNCTION_NOT_SUPPORTED))
        } else {
            UdsModel { vars: Vars { job: Job::Reset, ..self.vars }, ..self }.answer(
                buffer,
                seq![positive(SID_ECU_RESET), sub],
            )
        }
    }

    pub open spec fn read_data_by_identifier(self, buffer: Seq<u8>, len: int) -> Outcome {
        let did = be_u16(buffer, 1);
        if len < 3 {
            self.answer(buffer, negative(SID_READ_DATA_BY_IDENTIFIER, NRC_INCORRECT_LENGTH))
        } else if did == DID_BOOT_SOFTWARE_IDENTIFICATION {
            self.answer(buffer, identifier_value(did, boot_software_name()))
        } else if did == DID_ACTIVE_SESSION {
            self.answer(buffer, identifier_value(did, seq![self.vars.session]))
        } else if did == DID_APPLICATION_START_ADDRESS {
            self.answer(buffer, identifier_value(did, be_bytes(self.limits.app_start)))
        } else if did == DID_KERNEL_START_ADDRESS {
            // The flags hold the address least significant byte first.
            self.read_from_flash(buffer, did, self.start_address_at(), 4, true)
        } else if DID_ATTRIBUTE_BASE <= did <= DID_ATTRIBUTE_LAST {
            self.read_from_flash(buffer, did, self.attribute_at(did), ATTRIBUTE_RECORD, false)
        } else {
            self.answer(buffer, negative(SID_READ_DATA_BY_IDENTIFIER, NRC_REQUEST_OUT_OF_RANGE))
        }
    }

    /// Where the flags keep the kernel start address.
    pub open spec fn start_address_at(self) -> int {
        self.limits.flags_address + FLAGS_START_ADDRESS_OFFSET
    }

    /// Where the attribute record that `did` names lies.
    pub open spec fn attribute_at(self, did: u16) -> int {
        self.limits.attributes_address + (did - DID_ATTRIBUTE_BASE) * ATTRIBUTE_RECORD
    }

    /// Answer an identifier from flash, once the page that holds it is read.
    pub open spec fn read_from_flash(
        self,
        buffer: Seq<u8>,
        did: u16,
        address: int,
        len: usize,
        reverse: bool,
    ) -> Outcome {
        let failure = negative(SID_READ_DATA_BY_IDENTIFIER, NRC_GENERAL_PROGRAMMING_FAILURE);
        if address % self.page_size() + len > self.page_size() || buffer.len() < 3 + len {
            self.answer(buffer, failure)
        } else {
            let noted = UdsModel {
                vars: Vars {
                    pending_did: did,
                    did_address: address as u32,
                    did_len: len,
                    did_reverse: reverse,
                    job: Job::DidRead,
                    ..self.vars
                },
                buffer: Some(buffer),
                ..self
            };
            noted.read_page(address / self.page_size(), failure)
        }
    }

    /// Have the flash read a page, or give the current job up with `failure`
    /// when there is no page to read into.
    pub open spec fn read_page(self, page_number: int, failure: Seq<u8>) -> Outcome {
        match self.page_buffer {
            Some(page) => (
                UdsModel { page_buffer: None, ..self },
                Action::ReadPage { page_number: page_number as usize, page },
            ),
            None => self.conclude(failure),
        }
    }

    pub open spec fn security_access(self, buffer: Seq<u8>, len: int) -> Outcome {
        let sub = buffer[1];
        let seed = self.limits.seed();
        if len < 2 {
            self.answer(buffer, negative(SID_SECURITY_ACCESS, NRC_INCORRECT_LENGTH))
        } else if self.vars.session != SESSION_PROGRAMMING {
            self.answer(buffer, negative(SID_SECURITY_ACCESS, NRC_CONDITIONS_NOT_CORRECT))
        } else if sub == 0x01 {
            UdsModel {
                vars: Vars { security: Security::SeedIssued(seed), ..self.vars },
                ..self
            }.answer(buffer, seq![positive(SID_SECURITY_ACCESS), sub] + be_bytes(seed))
        } else if sub == 0x02 {
            if len < 6 {
                self.answer(buffer, negative(SID_SECURITY_ACCESS, NRC_INCORRECT_LENGTH))
            } else {
                match self.vars.security {
                    Security::SeedIssued(issued) => if be_u32(buffer, 2) == issued
                        ^ SECURITY_KEY_XOR {
                        UdsModel {
                            vars: Vars { security: Security::Unlocked, ..self.vars },
                            ..self
                        }.answer(buffer, seq![positive(SID_SECURITY_ACCESS), sub])
                    } else {
                        // A wrong key returns to locked, so a guesser must ask
                        // for a fresh seed each attempt.
                        UdsModel {
                            vars: Vars { security: Security::Locked, ..self.vars },
                            ..self
                        }.answer(buffer, negative(SID_SECURITY_ACCESS, NRC_INVALID_KEY))
                    },
                    _ => self.answer(
                        buffer,
                        negative(SID_SECURITY_ACCESS, NRC_REQUEST_SEQUENCE_ERROR),
                    ),
                }
            }
        } else {
            self.answer(buffer, negative(SID_SECURITY_ACCESS, NRC_SUBFUNCTION_NOT_SUPPORTED))
        }
    }

    pub open spec fn write_data_by_identifier(self, buffer: Seq<u8>, len: int) -> Outcome {
        let did = be_u16(buffer, 1);
        let data = buffer.subrange(3, len);
        let sid = SID_WRITE_DATA_BY_IDENTIFIER;
        if len < 3 {
            self.answer(buffer, negative(sid, NRC_INCORRECT_LENGTH))
        } else if !self.unlocked() {
            self.answer(buffer, negative(sid, NRC_SECURITY_ACCESS_DENIED))
        } else if len - 3 > ATTRIBUTE_RECORD {
            self.answer(buffer, negative(sid, NRC_INCORRECT_LENGTH))
        } else if did == DID_KERNEL_START_ADDRESS {
            let address = be_u32(buffer, 3);
            if data.len() != 4 {
                self.answer(buffer, negative(sid, NRC_INCORRECT_LENGTH))
            } else if address < self.limits.write_floor || address >= self.limits.flash_end {
                self.answer(buffer, negative(sid, NRC_REQUEST_OUT_OF_RANGE))
            } else {
                // Most significant byte first on the wire, last in the flags.
                UdsModel { patch: padded(le_bytes(address)), ..self }.rewrite(
                    buffer,
                    did,
                    self.start_address_at(),
                    4,
                )
            }
        } else if DID_ATTRIBUTE_BASE <= did <= DID_ATTRIBUTE_LAST {
            // A short request writes a short record; the rest is zeroed, so a
            // value can be cleared as well as set.
            UdsModel { patch: padded(data), ..self }.rewrite(
                buffer,
                did,
                self.attribute_at(did),
                ATTRIBUTE_RECORD,
            )
        } else if did == DID_APPLICATION_START_ADDRESS || did == DID_BOOT_SOFTWARE_IDENTIFICATION
            || did == DID_ACTIVE_SESSION {
            // Fixed by the build, so there is nowhere to put a new value.
            self.answer(buffer, negative(sid, NRC_CONDITIONS_NOT_CORRECT))
        } else {
            self.answer(buffer, negative(sid, NRC_REQUEST_OUT_OF_RANGE))
        }
    }

    /// Whether the erase block that holds `address` can be rewritten.
    ///
    /// Writing a block that holds the running bootloader would erase the code
    /// performing the write.
    pub open spec fn stageable(self, address: int, patch_len: usize) -> Stage {
        let page_size = self.page_size();
        let block_start = address / page_size / (BLOCK_PAGES as int) * BLOCK_PAGES * page_size;
        let block_len = BLOCK_PAGES * page_size;
        if block_start < self.limits.text_end {
            Stage::WouldEraseSelf
        } else if address + patch_len > block_start + block_len || self.stage.len() < block_len {
            Stage::Unusable
        } else {
            Stage::Ready
        }
    }

    /// The state with a rewrite of the block that holds `address` set up.
    pub open spec fn staged(self, address: int, patch_len: usize) -> UdsModel {
        let page_size = self.page_size();
        let first_page = address / page_size / (BLOCK_PAGES as int) * BLOCK_PAGES;
        UdsModel {
            vars: Vars {
                stage_first_page: first_page as usize,
                patch_offset: (address - first_page * page_size) as usize,
                patch_len,
                ..self.vars
            },
            ..self
        }
    }

    /// Answer 0x78 and leave the rewrite to start once that is on the wire, or
    /// refuse it.
    pub open spec fn rewrite(
        self,
        buffer: Seq<u8>,
        did: u16,
        address: int,
        patch_len: usize,
    ) -> Outcome {
        let sid = SID_WRITE_DATA_BY_IDENTIFIER;
        match self.stageable(address, patch_len) {
            Stage::WouldEraseSelf => self.answer(
                buffer,
                negative(sid, NRC_CONDITIONS_NOT_CORRECT),
            ),
            Stage::Unusable => self.answer(
                buffer,
                negative(sid, NRC_GENERAL_PROGRAMMING_FAILURE),
            ),
            Stage::Ready => {
                let staged = self.staged(address, patch_len);
                UdsModel {
                    vars: Vars {
                        pending_did: did,
                        job: Job::StageRead { page: 0, end: BLOCK_PAGES },
                        ..staged.vars
                    },
                    ..staged
                }.answer(buffer, negative(sid, NRC_RESPONSE_PENDING))
            },
        }
    }

    pub open spec fn tester_present(self, buffer: Seq<u8>, len: int) -> Outcome {
        if len < 2 {
            self.answer(buffer, negative(SID_TESTER_PRESENT, NRC_INCORRECT_LENGTH))
        } else if buffer[1] & 0x80 != 0 {
            // The tester asked not to be answered.
            (self, Action::Listen { buffer })
        } else {
            self.answer(buffer, seq![positive(SID_TESTER_PRESENT), 0x00])
        }
    }

    pub open spec fn routine_control(self, buffer: Seq<u8>, len: int) -> Outcome {
        let routine = be_u16(buffer, 2);
        let address = be_u32(buffer, 4);
        let size = be_u32(buffer, 8);
        let page_size = self.page_size();
        let sid = SID_ROUTINE_CONTROL;
        if len < 4 {
            self.answer(buffer, negative(sid, NRC_INCORRECT_LENGTH))
        } else if !self.unlocked() {
            self.answer(buffer, negative(sid, NRC_SECURITY_ACCESS_DENIED))
        } else if buffer[1] != ROUTINE_START {
            self.answer(buffer, negative(sid, NRC_SUBFUNCTION_NOT_SUPPORTED))
        } else if routine != ROUTINE_ERASE_MEMORY && routine != ROUTINE_CHECK_MEMORY {
            self.answer(buffer, negative(sid, NRC_REQUEST_OUT_OF_RANGE))
        } else if len < 12 {
            self.answer(buffer, negative(sid, NRC_INCORRECT_LENGTH))
        } else if !self.limits.range_ok(address, size) {
            self.answer(buffer, negative(sid, NRC_REQUEST_OUT_OF_RANGE))
        } else {
            let job = if routine == ROUTINE_ERASE_MEMORY {
                // Every page the range touches.
                Job::Erase {
                    page: (address as int / page_size) as usize,
                    end: ((address + size + page_size - 1) / page_size) as usize,
                }
            } else {
                Job::Crc { address, remaining: size, crc: CRC_SEED }
            };
            UdsModel { vars: Vars { job, ..self.vars }, ..self }.answer(
                buffer,
                negative(sid, NRC_RESPONSE_PENDING),
            )
        }
    }

    /// `RequestDownload` and `RequestUpload`. Only a download has to start on
    /// a page boundary: a reader has no reason to care where pages fall.
    pub open spec fn request_transfer(self, buffer: Seq<u8>, len: int, direction: Transfer)
        -> Outcome {
        let address = be_u32(buffer, 3);
        let size = be_u32(buffer, 7);
        let sid = if direction is Download {
            SID_REQUEST_DOWNLOAD
        } else {
            SID_REQUEST_UPLOAD
        };
        if len < 11 {
            self.answer(buffer, negative(sid, NRC_INCORRECT_LENGTH))
        } else if !self.unlocked() {
            self.answer(buffer, negative(sid, NRC_SECURITY_ACCESS_DENIED))
        } else if self.vars.transfer !is Closed {
            self.answer(buffer, negative(sid, NRC_UPLOAD_DOWNLOAD_NOT_ACCEPTED))
        } else if buffer[1] != 0x00 || buffer[2] != 0x44 || !self.limits.range_ok(address, size)
            || direction is Download && address as int % self.page_size() != 0 {
            // Neither compression nor encryption, and only a 4-byte address
            // with a 4-byte length.
            self.answer(buffer, negative(sid, NRC_REQUEST_OUT_OF_RANGE))
        } else {
            UdsModel {
                vars: Vars {
                    transfer: direction,
                    transfer_address: address,
                    transfer_remaining: size,
                    next_block_sequence: 1,
                    prev_block_len: if direction is Upload {
                        0
                    } else {
                        self.vars.prev_block_len
                    },
                    ..self.vars
                },
                ..self
            }.answer(buffer, transfer_opened(sid))
        }
    }

    /// Read `take` bytes at `address` for an upload, which must not cross a
    /// page boundary.
    pub open spec fn upload_block(self, buffer: Seq<u8>, address: u32, take: usize) -> Outcome {
        UdsModel {
            vars: Vars { job: Job::Read { address, take }, ..self.vars },
            buffer: Some(buffer),
            ..self
        }.read_page(
            address as int / self.page_size(),
            negative(SID_TRANSFER_DATA, NRC_GENERAL_PROGRAMMING_FAILURE),
        )
    }

    /// How much the next block of an upload carries: one page at most, and
    /// never across a page boundary.
    pub open spec fn upload_len(self) -> int {
        let offset = self.vars.transfer_address as int % self.page_size();
        least(
            least(self.page_size() - offset, self.vars.transfer_remaining as int),
            TRANSFER_BLOCK as int,
        )
    }

    pub open spec fn transfer_data_upload(self, buffer: Seq<u8>, len: int) -> Outcome {
        let expected = self.vars.next_block_sequence;
        if len < 2 {
            self.answer(buffer, negative(SID_TRANSFER_DATA, NRC_INCORRECT_LENGTH))
        } else if buffer[1] != expected {
            if buffer[1] == expected.wrapping_sub(1) && self.vars.prev_block_len > 0 {
                // The tester lost the last response, which is not an error on
                // its part.
                self.upload_block(buffer, self.vars.prev_block_address, self.vars.prev_block_len)
            } else {
                self.answer(buffer, negative(SID_TRANSFER_DATA, NRC_WRONG_BLOCK_SEQUENCE_COUNTER))
            }
        } else if self.vars.transfer_remaining == 0 {
            // Everything asked for has been handed over.
            self.answer(buffer, negative(SID_TRANSFER_DATA, NRC_REQUEST_SEQUENCE_ERROR))
        } else {
            self.upload_block(buffer, self.vars.transfer_address, self.upload_len() as usize)
        }
    }

    /// Would the data of this request be taken as the next downloaded block?
    pub open spec fn takes_block(self, buffer: Seq<u8>, len: int) -> bool {
        &&& self.vars.transfer is Download
        &&& buffer[0] == SID_TRANSFER_DATA
        &&& 0 < len - 2 <= TRANSFER_BLOCK
        &&& buffer[1] == self.vars.next_block_sequence
        &&& len - 2 <= self.vars.transfer_remaining
    }

    pub open spec fn transfer_data_download(self, buffer: Seq<u8>, len: int) -> Outcome {
        let expected = self.vars.next_block_sequence;
        let data = buffer.subrange(2, len);
        if len < 2 {
            self.answer(buffer, negative(SID_TRANSFER_DATA, NRC_INCORRECT_LENGTH))
        } else if buffer[1] == expected.wrapping_sub(1) {
            // Repeating the previous block is how a tester recovers from a
            // lost response.
            self.answer(buffer, seq![positive(SID_TRANSFER_DATA), buffer[1]])
        } else if buffer[1] != expected {
            self.answer(buffer, negative(SID_TRANSFER_DATA, NRC_WRONG_BLOCK_SEQUENCE_COUNTER))
        } else if data.len() == 0 || data.len() > TRANSFER_BLOCK {
            self.answer(buffer, negative(SID_TRANSFER_DATA, NRC_INCORRECT_LENGTH))
        } else if data.len() > self.vars.transfer_remaining {
            self.answer(buffer, negative(SID_TRANSFER_DATA, NRC_REQUEST_OUT_OF_RANGE))
        } else {
            match self.page_buffer {
                None => self.answer(
                    buffer,
                    negative(SID_TRANSFER_DATA, NRC_GENERAL_PROGRAMMING_FAILURE),
                ),
                Some(page) => (
                    UdsModel {
                        vars: Vars {
                            job: Job::Write,
                            transfer_address: (self.vars.transfer_address + data.len()) as u32,
                            transfer_remaining: (self.vars.transfer_remaining
                                - data.len()) as u32,
                            next_block_sequence: expected.wrapping_add(1),
                            write_len: data.len() as usize,
                            ..self.vars
                        },
                        page_buffer: None,
                        buffer: Some(buffer),
                        ..self
                    },
                    Action::WritePage {
                        page_number: (self.vars.transfer_address as int
                            / self.page_size()) as usize,
                        page: page_of(data, page.len()),
                    },
                ),
            }
        }
    }

    pub open spec fn transfer_data(self, buffer: Seq<u8>, len: int) -> Outcome {
        match self.vars.transfer {
            Transfer::Closed => self.answer(
                buffer,
                negative(SID_TRANSFER_DATA, NRC_REQUEST_SEQUENCE_ERROR),
            ),
            Transfer::Upload => self.transfer_data_upload(buffer, len),
            Transfer::Download => self.transfer_data_download(buffer, len),
        }
    }

    pub open spec fn request_transfer_exit(self, buffer: Seq<u8>) -> Outcome {
        let closed = UdsModel {
            vars: Vars { transfer: Transfer::Closed, ..self.vars },
            ..self
        };
        match self.vars.transfer {
            Transfer::Closed => self.answer(
                buffer,
                negative(SID_REQUEST_TRANSFER_EXIT, NRC_REQUEST_SEQUENCE_ERROR),
            ),
            // A download stopped early leaves an incomplete image; a read
            // stopped early is the tester's business.
            Transfer::Download => if self.vars.transfer_remaining != 0 {
                closed.answer(
                    buffer,
                    negative(SID_REQUEST_TRANSFER_EXIT, NRC_TRANSFER_DATA_SUSPENDED),
                )
            } else {
                closed.answer(buffer, seq![positive(SID_REQUEST_TRANSFER_EXIT)])
            },
            Transfer::Upload => closed.answer(buffer, seq![positive(SID_REQUEST_TRANSFER_EXIT)]),
        }
    }

    pub open spec fn handle(self, buffer: Seq<u8>, len: int) -> Outcome {
        let sid = buffer[0];
        if len == 0 {
            (self, Action::Listen { buffer })
        } else if sid == SID_DIAGNOSTIC_SESSION_CONTROL {
            self.session_control(buffer, len)
        } else if sid == SID_ECU_RESET {
            self.ecu_reset(buffer, len)
        } else if sid == SID_READ_DATA_BY_IDENTIFIER {
            self.read_data_by_identifier(buffer, len)
        } else if sid == SID_SECURITY_ACCESS {
            self.security_access(buffer, len)
        } else if sid == SID_WRITE_DATA_BY_IDENTIFIER {
            self.write_data_by_identifier(buffer, len)
        } else if sid == SID_ROUTINE_CONTROL {
            self.routine_control(buffer, len)
        } else if sid == SID_REQUEST_DOWNLOAD {
            self.request_transfer(buffer, len, Transfer::Download)
        } else if sid == SID_REQUEST_UPLOAD {
            self.request_transfer(buffer, len, Transfer::Upload)
        } else if sid == SID_TRANSFER_DATA {
            self.transfer_data(buffer, len)
        } else if sid == SID_REQUEST_TRANSFER_EXIT {
            self.request_transfer_exit(buffer)
        } else if sid == SID_TESTER_PRESENT {
            self.tester_present(buffer, len)
        } else {
            self.answer(buffer, negative(sid, NRC_SERVICE_NOT_SUPPORTED))
        }
    }

    // -- Long-running jobs --------------------------------------------------

    /// The staged block with the tester's bytes in it.
    pub open spec fn patched(self) -> Seq<u8> {
        let patch = self.patch.take(self.vars.patch_len as int);
        if self.vars.patch_offset + self.vars.patch_len <= self.stage.len() {
            write_at(self.stage, self.vars.patch_offset as int, patch)
        } else {
            self.stage
        }
    }

    /// Write page `page` of the staged block back, or finish.
    ///
    /// Ascending order matters: the first write finds the block dirty and
    /// erases it, and every later one finds it clean.
    pub open spec fn step_stage_write(self, page: usize, end: usize) -> Outcome {
        let from = page * self.page_size();
        let to = from + self.page_size();
        if page >= end {
            self.conclude(
                seq![positive(SID_WRITE_DATA_BY_IDENTIFIER)] + be_bytes_u16(self.vars.pending_did),
            )
        } else if self.page_buffer is None || to > self.stage.len() {
            self.fail_did_write()
        } else {
            (
                UdsModel {
                    vars: Vars {
                        job: Job::StageWrite { page: (page + 1) as usize, end },
                        ..self.vars
                    },
                    page_buffer: None,
                    ..self
                },
                Action::WritePage {
                    page_number: (self.vars.stage_first_page + page) as usize,
                    page: self.stage.subrange(from, to),
                },
            )
        }
    }

    /// Drive the current multi-page job one page forward.
    pub open spec fn step(self) -> Outcome {
        match self.vars.job {
            Job::Erase { page, end } => if page >= end {
                self.conclude(
                    seq![positive(SID_ROUTINE_CONTROL), ROUTINE_START] + be_bytes_u16(
                        ROUTINE_ERASE_MEMORY,
                    ),
                )
            } else {
                (
                    UdsModel {
                        vars: Vars {
                            job: Job::Erase { page: (page + 1) as usize, end },
                            ..self.vars
                        },
                        ..self
                    },
                    Action::ErasePage { page_number: page },
                )
            },
            Job::Crc { address, remaining, crc } => if remaining == 0 {
                self.conclude(
                    seq![positive(SID_ROUTINE_CONTROL), ROUTINE_START] + be_bytes_u16(
                        ROUTINE_CHECK_MEMORY,
                    ) + be_bytes(crc ^ 0xFFFF_FFFF),
                )
            } else {
                self.read_page(
                    address as int / self.page_size(),
                    negative(SID_ROUTINE_CONTROL, NRC_GENERAL_PROGRAMMING_FAILURE),
                )
            },
            Job::StageRead { page, end } => if page >= end {
                UdsModel {
                    vars: Vars { job: Job::StageWrite { page: 0, end }, ..self.vars },
                    stage: self.patched(),
                    ..self
                }.step_stage_write(0, end)
            } else {
                UdsModel {
                    vars: Vars {
                        job: Job::StageRead { page: (page + 1) as usize, end },
                        ..self.vars
                    },
                    ..self
                }.read_page(
                    self.vars.stage_first_page + page,
                    negative(SID_WRITE_DATA_BY_IDENTIFIER, NRC_GENERAL_PROGRAMMING_FAILURE),
                )
            },
            Job::StageWrite { page, end } => self.step_stage_write(page, end),
            _ => (self, Action::Idle),
        }
    }

    // -- Events -------------------------------------------------------------

    pub open spec fn start(self) -> Outcome {
        match self.buffer {
            Some(buffer) => (UdsModel { buffer: None, ..self }, Action::Listen { buffer }),
            None => (self, Action::Idle),
        }
    }

    /// `len` bytes of a message arrived in `buffer`, or the reception failed.
    pub open spec fn message_received(self, buffer: Seq<u8>, len: int, ok: bool) -> Outcome {
        if ok {
            self.handle(buffer, len)
        } else {
            (self, Action::Listen { buffer })
        }
    }

    /// A message is on the wire: go on with what waited behind it.
    pub open spec fn message_transmitted(self, buffer: Seq<u8>) -> Outcome {
        let holding = UdsModel { buffer: Some(buffer), ..self };
        match self.vars.job {
            Job::Erase { .. } | Job::Crc { .. } | Job::StageRead { .. } => holding.step(),
            Job::Reset => (holding, Action::Reset { then: None }),
            _ => (self, Action::Listen { buffer }),
        }
    }

    /// The flash did not start a read.
    pub open spec fn read_refused(self, page: Seq<u8>) -> Outcome {
        let back = UdsModel { page_buffer: Some(page), ..self };
        match self.vars.job {
            Job::DidRead => back.fail_did_read(),
            Job::Read { .. } => back.fail_transfer(),
            Job::Crc { .. } => back.fail_routine(),
            Job::StageRead { .. } => back.fail_did_write(),
            _ => (back, Action::Idle),
        }
    }

    /// The flash did not start a write.
    pub open spec fn write_refused(self, page: Seq<u8>) -> Outcome {
        let back = UdsModel { page_buffer: Some(page), ..self };
        match self.vars.job {
            // The block was not taken, so it is still the next one expected.
            Job::Write => UdsModel {
                vars: Vars {
                    transfer_address: (self.vars.transfer_address - self.vars.write_len) as u32,
                    transfer_remaining: (self.vars.transfer_remaining
                        + self.vars.write_len) as u32,
                    next_block_sequence: self.vars.next_block_sequence.wrapping_sub(1),
                    ..self.vars
                },
                ..back
            }.fail_transfer(),
            Job::StageWrite { .. } => back.fail_did_write(),
            _ => (back, Action::Idle),
        }
    }

    /// The flash did not start an erase.
    pub open spec fn erase_refused(self) -> Outcome {
        match self.vars.job {
            Job::Erase { .. } => self.fail_routine(),
            _ => (self, Action::Idle),
        }
    }

    /// How much of a page that holds `address` a checksum still covers.
    pub open spec fn crc_len(address: u32, remaining: u32, page_len: int) -> int {
        least(page_len - address as int % page_len, remaining as int)
    }

    /// The page of the attribute or flag being read arrived.
    pub open spec fn did_read_complete(self, page: Seq<u8>) -> Outcome {
        let offset = self.vars.did_address as int % (page.len() as int);
        let len = self.vars.did_len as int;
        let value = page.subrange(offset, offset + len);
        match self.buffer {
            Some(buffer) => if offset + len > page.len() || buffer.len() < 3 + len {
                self.fail_did_read()
            } else {
                self.conclude(
                    identifier_value(
                        self.vars.pending_did,
                        if self.vars.did_reverse {
                            value.reverse()
                        } else {
                            value
                        },
                    ),
                )
            },
            None => self.conclude(Seq::empty()),
        }
    }

    /// The number of the block that lies at `address`: the next one, or the
    /// one last handed out.
    pub open spec fn block_sequence(self, address: u32) -> u8 {
        if address == self.vars.transfer_address {
            self.vars.next_block_sequence
        } else {
            self.vars.next_block_sequence.wrapping_sub(1)
        }
    }

    /// The page of an uploaded block arrived. The transfer moves on only now,
    /// and only for a block not handed out before; and only now is the block
    /// the one last handed out.
    pub open spec fn upload_complete(self, address: u32, take: usize, page: Seq<u8>) -> Outcome {
        let offset = address as int % (page.len() as int);
        let message = seq![positive(SID_TRANSFER_DATA), self.block_sequence(address)]
            + page.subrange(offset, offset + take);
        match self.buffer {
            Some(buffer) => if buffer.len() < 2 + take || offset + take > page.len() {
                self.fail_transfer()
            } else if address == self.vars.transfer_address {
                UdsModel {
                    vars: Vars {
                        transfer_address: (address + take) as u32,
                        transfer_remaining: (self.vars.transfer_remaining - take) as u32,
                        next_block_sequence: self.vars.next_block_sequence.wrapping_add(1),
                        prev_block_address: address,
                        prev_block_len: take,
                        ..self.vars
                    },
                    ..self
                }.conclude(message)
            } else {
                // Handed out again, with the number it had.
                self.conclude(message)
            },
            None => self.conclude(Seq::empty()),
        }
    }

    /// A page arrived from flash.
    pub open spec fn read_complete(self, page: Seq<u8>) -> Outcome {
        let page_len = page.len() as int;
        let back = UdsModel { page_buffer: Some(page), ..self };
        match self.vars.job {
            Job::Crc { address, remaining, crc } => {
                let offset = address as int % page_len;
                let take = Self::crc_len(address, remaining, page_len);
                UdsModel {
                    vars: Vars {
                        job: Job::Crc {
                            address: (address + take) as u32,
                            remaining: (remaining - take) as u32,
                            crc: crc_of_bytes(crc, page.subrange(offset, offset + take)),
                        },
                        ..self.vars
                    },
                    ..back
                }.step()
            },
            Job::StageRead { page: next, end: _ } => {
                // The counter moved on when the read was asked for.
                let done = if next == 0 {
                    0
                } else {
                    next - 1
                };
                if (done + 1) * page_len > self.stage.len() {
                    back.fail_did_write()
                } else {
                    UdsModel { stage: write_at(self.stage, done * page_len, page), ..back }.step()
                }
            },
            Job::DidRead => back.did_read_complete(page),
            Job::Read { address, take } => back.upload_complete(address, take, page),
            _ => (back, Action::Idle),
        }
    }

    /// A page was written, or failed to be.
    pub open spec fn write_complete(self, page: Seq<u8>, ok: bool) -> Outcome {
        let back = UdsModel { page_buffer: Some(page), ..self };
        match self.vars.job {
            Job::StageWrite { .. } => if ok {
                back.step()
            } else {
                back.fail_did_write()
            },
            Job::Write => if ok {
                back.conclude(
                    seq![
                        positive(SID_TRANSFER_DATA),
                        self.vars.next_block_sequence.wrapping_sub(1),
                    ],
                )
            } else {
                back.fail_transfer()
            },
            _ => (back, Action::Idle),
        }
    }

    /// A page was erased, or failed to be.
    pub open spec fn erase_complete(self, ok: bool) -> Outcome {
        match self.vars.job {
            Job::Erase { .. } => if ok {
                self.step()
            } else {
                self.fail_routine()
            },
            _ => (self, Action::Idle),
        }
    }
}

} // verus!

//! Numbers on the wire, and the bookkeeping types of the server.

use vstd::prelude::*;

verus! {

// Services.
pub const SID_DIAGNOSTIC_SESSION_CONTROL: u8 = 0x10;
pub const SID_ECU_RESET: u8 = 0x11;
pub const SID_READ_DATA_BY_IDENTIFIER: u8 = 0x22;
pub const SID_SECURITY_ACCESS: u8 = 0x27;
pub const SID_WRITE_DATA_BY_IDENTIFIER: u8 = 0x2E;
pub const SID_ROUTINE_CONTROL: u8 = 0x31;
pub const SID_REQUEST_DOWNLOAD: u8 = 0x34;
pub const SID_REQUEST_UPLOAD: u8 = 0x35;
pub const SID_TRANSFER_DATA: u8 = 0x36;
pub const SID_REQUEST_TRANSFER_EXIT: u8 = 0x37;
pub const SID_TESTER_PRESENT: u8 = 0x3E;

/// Added to a service identifier in its positive response.
pub const POSITIVE_RESPONSE_OFFSET: u8 = 0x40;
/// First byte of every negative response.
pub const NEGATIVE_RESPONSE: u8 = 0x7F;

// Negative response codes.
pub const NRC_SERVICE_NOT_SUPPORTED: u8 = 0x11;
pub const NRC_SUBFUNCTION_NOT_SUPPORTED: u8 = 0x12;
pub const NRC_INCORRECT_LENGTH: u8 = 0x13;
pub const NRC_CONDITIONS_NOT_CORRECT: u8 = 0x22;
pub const NRC_REQUEST_SEQUENCE_ERROR: u8 = 0x24;
pub const NRC_REQUEST_OUT_OF_RANGE: u8 = 0x31;
pub const NRC_SECURITY_ACCESS_DENIED: u8 = 0x33;
pub const NRC_INVALID_KEY: u8 = 0x35;
pub const NRC_UPLOAD_DOWNLOAD_NOT_ACCEPTED: u8 = 0x70;
pub const NRC_TRANSFER_DATA_SUSPENDED: u8 = 0x71;
pub const NRC_GENERAL_PROGRAMMING_FAILURE: u8 = 0x72;
pub const NRC_WRONG_BLOCK_SEQUENCE_COUNTER: u8 = 0x73;
pub const NRC_RESPONSE_PENDING: u8 = 0x78;

// Sessions.
pub const SESSION_DEFAULT: u8 = 0x01;
pub const SESSION_PROGRAMMING: u8 = 0x02;

// Routine identifiers.
pub const ROUTINE_ERASE_MEMORY: u16 = 0xFF00;
pub const ROUTINE_CHECK_MEMORY: u16 = 0x0202;
pub const ROUTINE_START: u8 = 0x01;

// Data identifiers.
pub const DID_BOOT_SOFTWARE_IDENTIFICATION: u16 = 0xF180;
pub const DID_ACTIVE_SESSION: u16 = 0xF186;
/// Where applications live; fixed by the build, so read-only.
pub const DID_APPLICATION_START_ADDRESS: u16 = 0xF200;
/// Where the bootloader jumps; lives in the flags, so writable.
pub const DID_KERNEL_START_ADDRESS: u16 = 0xF201;
/// One DID per attribute record, this plus the record's index.
pub const DID_ATTRIBUTE_BASE: u16 = 0xF2A0;
/// The DID of the last attribute record.
pub const DID_ATTRIBUTE_LAST: u16 = 0xF2AF;
/// One record: an 8-byte key, a 1-byte value length, and 55 bytes of value.
pub const ATTRIBUTE_RECORD: usize = 64;

/// Where the start address lives inside the bootloader flags, little-endian.
pub const FLAGS_START_ADDRESS_OFFSET: usize = 32;

/// Pages in one flash erase block.
///
/// The flash driver erases a whole block before writing a page that is not
/// already blank, so a record is rewritten by staging its entire block in RAM,
/// patching it, and writing it back page by page in ascending order.
pub const BLOCK_PAGES: usize = 16;

/// Payload bytes per `TransferData`: one flash page.
pub const TRANSFER_BLOCK: usize = 512;

/// `maxNumberOfBlockLength`, high and low byte: the block plus the service and
/// sequence bytes that precede it.
pub const MAX_BLOCK_LENGTH_HIGH: u8 = 0x02;
pub const MAX_BLOCK_LENGTH_LOW: u8 = 0x02;

/// XORed with the seed to form the expected key. Obfuscation, not a secret.
pub const SECURITY_KEY_XOR: u32 = 0x534F_434B;
/// XORed into the seed.
pub const SEED_XOR: u32 = 0xA5A5_1234;

/// Where the tester stands with `SecurityAccess`.
#[derive(Copy, Clone)]
pub enum Security {
    Locked,
    /// A seed is out; its key is awaited.
    SeedIssued(u32),
    Unlocked,
}

/// Which direction a transfer is going, if one is open at all.
///
/// One at a time, so download and upload share the address, remaining-length
/// and block-sequence state.
#[derive(Copy, Clone)]
pub enum Transfer {
    Closed,
    Download,
    Upload,
}

/// Whether a staged block rewrite can go ahead.
#[derive(Copy, Clone)]
pub enum Stage {
    Ready,
    /// The block holds the running bootloader.
    WouldEraseSelf,
    /// Bad bounds or too small a staging buffer.
    Unusable,
}

/// What the server is doing between receiving a request and answering it.
#[derive(Copy, Clone)]
pub enum Job {
    Idle,
    /// 0x78 sent; erase from `page` up to but not including `end`.
    Erase { page: usize, end: usize },
    /// Writing one downloaded block.
    Write,
    /// Reading the page that answers one upload block, `take` bytes at
    /// `address`.
    Read { address: u32, take: usize },
    /// Reading the page that holds a flash-backed identifier.
    DidRead,
    /// 0x78 sent; copying the erase block into the staging buffer, `page` of
    /// `end`, before patching it.
    StageRead { page: usize, end: usize },
    /// Writing the patched staging buffer back, `page` of `end`.
    StageWrite { page: usize, end: usize },
    /// 0x78 sent; CRC over `address` for `remaining` more bytes.
    Crc { address: u32, remaining: u32, crc: u32 },
    /// Positive response sent for ECUReset; reset once it is on the wire.
    Reset,
}

/// The memory map the server works in.
#[derive(Copy, Clone)]
pub struct Limits {
    /// Where the application region starts. Reported, not enforced.
    pub app_start: u32,
    /// Lowest address any transfer, erase or CRC may touch: the end of the
    /// bootloader's own region.
    pub write_floor: u32,
    /// One past the highest such address.
    pub flash_end: u32,
    /// The attribute table and the bootloader flags. Reachable through their
    /// identifiers only.
    pub attributes_address: u32,
    pub flags_address: u32,
    /// End of the bootloader's own vectors and text. A staged rewrite refuses
    /// any erase block that starts below this.
    pub text_end: u32,
    /// Bytes in one flash page.
    pub page_len: usize,
}

/// Everything the server remembers besides its buffers.
#[derive(Copy, Clone)]
pub struct Vars {
    pub session: u8,
    pub security: Security,
    pub job: Job,
    pub transfer: Transfer,
    pub transfer_address: u32,
    pub transfer_remaining: u32,
    pub next_block_sequence: u8,
    /// Where the block just handed out came from, so that a tester repeating
    /// the previous sequence number gets the same bytes again.
    pub prev_block_address: u32,
    pub prev_block_len: usize,
    /// How far the block being written moved the transfer on, so that a write
    /// the flash will not start can be taken back.
    pub write_len: usize,
    /// The identifier a deferred `0x22` or `0x2E` is answering.
    pub pending_did: u16,
    /// What a `DidRead` is fetching: where, how much, and whether to reverse
    /// it on the way out.
    pub did_address: u32,
    pub did_len: usize,
    pub did_reverse: bool,
    /// How many bytes of the patch are meaningful, where they go within the
    /// staging buffer, and which flash page that buffer starts at.
    pub patch_len: usize,
    pub patch_offset: usize,
    pub stage_first_page: usize,
}

} // verus!

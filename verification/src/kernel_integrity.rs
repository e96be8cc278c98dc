//! Check the kernel image against a SHA-256 digest before jumping to it.
//!
//! This catches a corrupt or truncated kernel: a reflash interrupted by power
//! loss, a transfer that died halfway, a bad erase. It is not a security
//! control: the digest lives in the same writable flash as the image it
//! describes.
//!
//! # Descriptor
//!
//! ```text
//!   0  4   magic   "TKIV", little endian
//!   4  4   version, currently 1
//!   8  4   length of the hashed image in bytes
//!  12  4   reserved, zero
//!  16  32  SHA-256 of [kernel_start, kernel_start + length)
//! ```
//!
//! A descriptor that is missing, erased or malformed counts as absent, and the
//! board boots normally: flashing the kernel with a debugger writes none. A
//! flashing tool writes [`MAGIC_IN_PROGRESS`] before touching the kernel and
//! replaces it with the real descriptor afterwards, so an interruption in
//! between leaves a positive marker that holds the board in the bootloader.

use sha2::{Digest, Sha256};
use vstd::prelude::*;

use crate::bytes::{
    law_integers_are_what_their_bytes_say, law_le_round_trip, law_numbers_have_one_spelling,
    le_bytes, le_u32, little_endian, read_le_u32,
};

verus! {

/// `"TKIV"`: a complete descriptor.
pub const MAGIC: u32 = 0x5649_4B54;

/// `"TKIP"`: the same descriptor mid-write.
pub const MAGIC_IN_PROGRESS: u32 = 0x5049_4B54;

pub const VERSION: u32 = 1;

/// Bytes the descriptor occupies.
pub const DESCRIPTOR_LEN: usize = 48;

/// Where the digest lies in the descriptor.
pub const DIGEST_OFFSET: usize = 16;

/// What is to be thought of an image.
#[derive(Copy, Clone, PartialEq, Eq, Debug, Structural)]
pub enum Verdict {
    /// No usable descriptor. Boot anyway.
    NoDescriptor,
    /// The image matches the digest it carries.
    Match,
    /// A descriptor is present and the image does not match it.
    Mismatch,
    /// A flash was started and never finished.
    Interrupted,
}

/// What a descriptor says before any image is looked at.
#[derive(Copy, Clone, PartialEq, Eq, Debug, Structural)]
pub enum Claim {
    /// There is nothing to hash: the verdict is in.
    Settled(Verdict),
    /// The image is this many bytes long.
    Image(u32),
}

/// The SHA-256 digest of `bytes`, as the `sha2` crate computes it.
pub uninterp spec fn sha256(bytes: Seq<u8>) -> Seq<u8>;

/// Calls `Digest::digest` of the `sha2` crate's `Sha256`: a fresh hasher,
/// given `bytes` once and finished. Trusted to return the same 32 bytes for
/// the same input every time, which is what naming the result says. Inputs of
/// 2^61 bytes and more are left out, because their length in bits does not fit
/// the hasher's counter.
#[verifier::external_body]
fn digest_of(bytes: &[u8]) -> (digest: [u8; 32])
    requires
        bytes@.len() < 0x2000_0000_0000_0000,
    ensures
        digest@ == sha256(bytes@),
{
    Sha256::digest(bytes).into()
}

/// The little-endian 32-bit integer at `bytes[offset..offset + 4]`.
pub fn u32_at(bytes: &[u8], offset: usize) -> (value: u32)
    requires
        offset + 4 <= bytes@.len(),
    ensures
        value == le_u32(bytes@, offset as int),
{
    read_le_u32(bytes, offset)
}

/// What the descriptor at `descriptor_address` says of a kernel at
/// `kernel_start`. The descriptor sits above the kernel, so a length that
/// runs past its address is malformed rather than merely large.
pub open spec fn claim_of(flash: Seq<u8>, kernel_start: u32, descriptor_address: u32) -> Claim {
    let at = descriptor_address as int;
    let length = le_u32(flash, at + 8);
    if le_u32(flash, at) == MAGIC_IN_PROGRESS {
        Claim::Settled(Verdict::Interrupted)
    } else if le_u32(flash, at) != MAGIC || le_u32(flash, at + 4) != VERSION || length == 0
        || kernel_start + length > descriptor_address {
        Claim::Settled(Verdict::NoDescriptor)
    } else {
        Claim::Image(length)
    }
}

/// The digest that the descriptor records.
pub open spec fn recorded_digest(flash: Seq<u8>, descriptor_address: u32) -> Seq<u8> {
    flash.subrange(
        descriptor_address + DIGEST_OFFSET,
        descriptor_address + DESCRIPTOR_LEN,
    )
}

/// The verdict on an image whose digest is `digest`.
pub open spec fn verdict_on(recorded: Seq<u8>, digest: Seq<u8>) -> Verdict {
    if recorded == digest {
        Verdict::Match
    } else {
        Verdict::Mismatch
    }
}

/// The verdict on the kernel at `kernel_start`.
pub open spec fn verdict(flash: Seq<u8>, kernel_start: u32, descriptor_address: u32) -> Verdict {
    match claim_of(flash, kernel_start, descriptor_address) {
        Claim::Settled(verdict) => verdict,
        Claim::Image(length) => verdict_on(
            recorded_digest(flash, descriptor_address),
            sha256(flash.subrange(kernel_start as int, kernel_start + length)),
        ),
    }
}

/// Read the descriptor, without looking at the image. `flash` is the flash as
/// it appears from address zero on.
pub fn claim(flash: &[u8], kernel_start: u32, descriptor_address: u32) -> (result: Claim)
    requires
        descriptor_address + DESCRIPTOR_LEN <= flash@.len() <= u32::MAX,
    ensures
        result == claim_of(flash@, kernel_start, descriptor_address),
{
    assert(flash.len() == flash@.len());
    let at: usize = descriptor_address as usize;
    // Checked before the version, and before anything else: a half-written
    // descriptor may have nothing else valid in it.
    if u32_at(flash, at) == MAGIC_IN_PROGRESS {
        return Claim::Settled(Verdict::Interrupted);
    }
    if u32_at(flash, at) != MAGIC || u32_at(flash, at + 4) != VERSION {
        return Claim::Settled(Verdict::NoDescriptor);
    }
    let length: u32 = u32_at(flash, at + 8);
    // A bad length means the descriptor is corrupt rather than that the image
    // is: refusing to boot would turn a bad write of 48 bytes into a bricked
    // board.
    if length == 0 || kernel_start.saturating_add(length) > descriptor_address {
        return Claim::Settled(Verdict::NoDescriptor);
    }
    Claim::Image(length)
}

/// Hold a digest against the one that the descriptor records.
pub fn compare_digest(recorded: &[u8], digest: &[u8]) -> (result: Verdict)
    ensures
        result == verdict_on(recorded@, digest@),
{
    if recorded.len() != digest.len() {
        return Verdict::Mismatch;
    }
    let mut i: usize = 0;
    while i < recorded.len()
        invariant
            i <= recorded@.len() == digest@.len(),
            forall|j: int| 0 <= j < i ==> recorded@[j] == digest@[j],
        decreases recorded@.len() - i,
    {
        if recorded[i] != digest[i] {
            return Verdict::Mismatch;
        }
        i = i + 1;
    }
    assert(recorded@ =~= digest@);
    Verdict::Match
}

/// Check the kernel at `kernel_start` against the descriptor at
/// `descriptor_address`.
pub fn check(flash: &[u8], kernel_start: u32, descriptor_address: u32) -> (result: Verdict)
    requires
        descriptor_address + DESCRIPTOR_LEN <= flash@.len() <= u32::MAX,
    ensures
        result == verdict(flash@, kernel_start, descriptor_address),
{
    match claim(flash, kernel_start, descriptor_address) {
        Claim::Settled(verdict) => verdict,
        Claim::Image(length) => {
            let start: usize = kernel_start as usize;
            let at: usize = descriptor_address as usize;
            let image = vstd::slice::slice_subrange(flash, start, start + length as usize);
            let recorded = vstd::slice::slice_subrange(
                flash,
                at + DIGEST_OFFSET,
                at + DESCRIPTOR_LEN,
            );
            let digest = digest_of(image);
            compare_digest(recorded, digest.as_slice())
        },
    }
}

/// Like [`check`], but also reports the image length the descriptor claims,
/// zero for an image that does not match.
pub fn describe(flash: &[u8], kernel_start: u32, descriptor_address: u32) -> (result: (
    Verdict,
    usize,
))
    requires
        descriptor_address + DESCRIPTOR_LEN <= flash@.len() <= u32::MAX,
    ensures
        result.0 == verdict(flash@, kernel_start, descriptor_address),
        result.1 == if result.0 is Match {
            le_u32(flash@, descriptor_address + 8) as usize
        } else {
            0
        },
{
    let verdict = check(flash, kernel_start, descriptor_address);
    let length: usize = if verdict == Verdict::Match {
        u32_at(flash, descriptor_address as usize + 8) as usize
    } else {
        0
    };
    (verdict, length)
}

/// The descriptor of an image of `length` bytes whose digest is `digest`.
pub open spec fn descriptor(length: u32, digest: Seq<u8>) -> Seq<u8> {
    le_bytes(MAGIC) + le_bytes(VERSION) + le_bytes(length) + le_bytes(0) + digest
}

/// An integer stored in flash is read back from it.
proof fn lemma_stored(flash: Seq<u8>, at: int, value: u32)
    requires
        0 <= at,
        at + 4 <= flash.len(),
        flash.subrange(at, at + 4) == le_bytes(value),
    ensures
        le_u32(flash, at) == value,
{
    let stored = flash.subrange(at, at + 4);
    law_le_round_trip(value);
    assert(flash[at] == stored[0]);
    assert(flash[at + 1] == stored[1]);
    assert(flash[at + 2] == stored[2]);
    assert(flash[at + 3] == stored[3]);
}

/// A complete descriptor decides by its digest alone: an image that has that
/// digest matches, and any other does not.
pub proof fn law_descriptor_vouches_for_its_image(
    flash: Seq<u8>,
    kernel_start: u32,
    descriptor_address: u32,
    length: u32,
    digest: Seq<u8>,
)
    requires
        descriptor_address + DESCRIPTOR_LEN <= flash.len(),
        0 < length,
        kernel_start + length <= descriptor_address,
        digest.len() == 32,
        flash.subrange(
            descriptor_address as int,
            descriptor_address + DESCRIPTOR_LEN,
        ) == descriptor(length, digest),
    ensures
        verdict(flash, kernel_start, descriptor_address) is Match <==> sha256(
            flash.subrange(kernel_start as int, kernel_start + length),
        ) == digest,
        verdict(flash, kernel_start, descriptor_address) is Mismatch <==> sha256(
            flash.subrange(kernel_start as int, kernel_start + length),
        ) != digest,
{
    let at = descriptor_address as int;
    let all = descriptor(length, digest);
    let here = flash.subrange(at, at + DESCRIPTOR_LEN);
    assert(flash.subrange(at, at + 4) =~= here.subrange(0, 4));
    assert(all.subrange(0, 4) =~= le_bytes(MAGIC));
    lemma_stored(flash, at, MAGIC);
    assert(flash.subrange(at + 4, at + 8) =~= here.subrange(4, 8));
    assert(all.subrange(4, 8) =~= le_bytes(VERSION));
    lemma_stored(flash, at + 4, VERSION);
    assert(flash.subrange(at + 8, at + 12) =~= here.subrange(8, 12));
    assert(all.subrange(8, 12) =~= le_bytes(length));
    lemma_stored(flash, at + 8, length);
    assert(recorded_digest(flash, descriptor_address) =~= here.subrange(16, 48));
    assert(all.subrange(16, 48) =~= digest);
}

/// The verdict, from the bytes in flash. "TKIP" at the descriptor's address
/// means an unfinished flash, whatever follows it. A descriptor vouches for an
/// image if it starts with "TKIV", is of version 1 and gives a length that is
/// neither zero nor reaches past the descriptor; the image then matches if its
/// SHA-256 is what the descriptor holds from byte 16 on. Anything else counts
/// as no descriptor at all.
pub proof fn law_verdict_is_read_off_the_flash(
    flash: Seq<u8>,
    kernel_start: u32,
    descriptor_address: u32,
)
    requires
        descriptor_address + 48 <= flash.len(),
    ensures
        ({
            let at = descriptor_address as int;
            let start = kernel_start as int;
            let length = little_endian(flash.subrange(at + 8, at + 12));
            let unfinished = flash.subrange(at, at + 4) == seq![0x54u8, 0x4B, 0x49, 0x50];
            let vouched = {
                &&& flash.subrange(at, at + 4) == seq![0x54u8, 0x4B, 0x49, 0x56]
                &&& little_endian(flash.subrange(at + 4, at + 8)) == 1
                &&& 0 < length <= at - start
            };
            let genuine = sha256(flash.subrange(start, start + length)) == flash.subrange(
                at + 16,
                at + 48,
            );
            let result = verdict(flash, kernel_start, descriptor_address);
            &&& result is Interrupted <==> unfinished
            &&& result is Match <==> vouched && genuine
            &&& result is Mismatch <==> vouched && !genuine
            &&& result is NoDescriptor <==> !unfinished && !vouched
        }),
{
    let at = descriptor_address as int;
    let magic = flash.subrange(at, at + 4);
    law_integers_are_what_their_bytes_say(flash, at);
    law_integers_are_what_their_bytes_say(flash, at + 4);
    law_integers_are_what_their_bytes_say(flash, at + 8);
    let unfinished = seq![0x54u8, 0x4B, 0x49, 0x50];
    let complete = seq![0x54u8, 0x4B, 0x49, 0x56];
    assert(little_endian(unfinished) == MAGIC_IN_PROGRESS && little_endian(complete) == MAGIC) by {
        law_integers_are_what_their_bytes_say(unfinished, 0);
        law_integers_are_what_their_bytes_say(complete, 0);
        assert(unfinished.subrange(0, 4) =~= unfinished);
        assert(complete.subrange(0, 4) =~= complete);
    }
    law_numbers_have_one_spelling(magic, unfinished);
    law_numbers_have_one_spelling(magic, complete);
}

/// While a flash is in progress the marker alone decides, whatever else the
/// flash holds: the board is held.
pub proof fn law_unfinished_flash_is_never_trusted(
    flash: Seq<u8>,
    kernel_start: u32,
    descriptor_address: u32,
)
    requires
        le_u32(flash, descriptor_address as int) == MAGIC_IN_PROGRESS,
    ensures
        verdict(flash, kernel_start, descriptor_address) is Interrupted,
{
}

/// Erased flash holds no descriptor, so a board that was flashed with a
/// debugger boots.
pub proof fn law_erased_descriptor_is_absent(
    flash: Seq<u8>,
    kernel_start: u32,
    descriptor_address: u32,
)
    requires
        descriptor_address + DESCRIPTOR_LEN <= flash.len(),
        forall|i: int|
            descriptor_address <= i < descriptor_address + DESCRIPTOR_LEN ==> flash[i] == 0xFF,
    ensures
        verdict(flash, kernel_start, descriptor_address) is NoDescriptor,
{
    let at = descriptor_address as int;
    assert(flash[at] == 0xFF && flash[at + 1] == 0xFF && flash[at + 2] == 0xFF && flash[at + 3]
        == 0xFF);
}

} // verus!

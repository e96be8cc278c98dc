//! Stay in the bootloader, or go straight to the kernel?

use vstd::prelude::*;

use crate::bootloader::protocol::START_OFFSET;
use crate::bytes::{
    law_integers_are_what_their_bytes_say, law_numbers_have_one_spelling, le_u32, little_endian,
    read_le_u32,
};

verus! {

/// One past the highest address a kernel may start at.
pub const FLASH_END: u32 = 0x0020_0000;

/// What erased flash reads as.
pub const ERASED_WORD: u32 = 0xFFFF_FFFF;

/// What to do at boot.
#[derive(Copy, Clone, Debug, PartialEq, Eq, Structural)]
pub enum Entry {
    /// Stay, and let it be known.
    Active,
    /// Start the kernel whose vector table is at this address.
    Jump(u32),
}

/// Decides whether to enter the bootloader or go straight to the kernel.
pub struct BootloaderEnterer {
    /// Where the flags of the bootloader start. The kernel's start address is
    /// among them.
    bootloader_flags_address: u32,
    /// Lowest address a kernel may start at: the end of the bootloader's own
    /// region.
    kernel_region_start: u32,
}

/// Is this an address a kernel may start at?
pub open spec fn is_kernel_address(address: u32, kernel_region_start: u32) -> bool {
    kernel_region_start <= address < FLASH_END
}

/// The decision. Values outside the kernel region mean that the flags have
/// never been written or are erased, and an erased stack pointer that the
/// kernel has not been programmed: either way there is no kernel to start.
pub open spec fn entry(
    stay: bool,
    flash: Seq<u8>,
    flags_address: u32,
    kernel_region_start: u32,
) -> Entry {
    let start = le_u32(flash, flags_address + START_OFFSET);
    if stay || !is_kernel_address(start, kernel_region_start) || le_u32(flash, start as int)
        == ERASED_WORD {
        Entry::Active
    } else {
        Entry::Jump(start)
    }
}

/// The kernel that is started is the one at the address that the flags hold at
/// offset 32, least significant byte first. It is started if and only if
/// nothing asks to stay, the address lies in the kernel's region and below two
/// megabytes, and the word at that address is not erased.
pub proof fn law_kernel_named_by_the_flags_is_started(
    stay: bool,
    flash: Seq<u8>,
    flags_address: u32,
    kernel_region_start: u32,
    start: u32,
)
    requires
        flags_address + 36 <= flash.len(),
        start == little_endian(flash.subrange(flags_address + 32, flags_address + 36)),
        kernel_region_start <= start < 0x20_0000 ==> start + 4 <= flash.len(),
    ensures
        ({
            let decision = entry(stay, flash, flags_address, kernel_region_start);
            let word = flash.subrange(start as int, start + 4);
            let started = {
                &&& !stay
                &&& kernel_region_start <= start < 0x20_0000
                &&& word != seq![0xFFu8, 0xFF, 0xFF, 0xFF]
            };
            &&& started ==> decision == Entry::Jump(start)
            &&& !started ==> decision == Entry::Active
        }),
{
    law_integers_are_what_their_bytes_say(flash, flags_address + 32);
    if kernel_region_start <= start < 0x20_0000 {
        let word = flash.subrange(start as int, start + 4);
        let erased = seq![0xFFu8, 0xFF, 0xFF, 0xFF];
        law_integers_are_what_their_bytes_say(flash, start as int);
        law_integers_are_what_their_bytes_say(erased, 0);
        assert(erased.subrange(0, 4) =~= erased);
        law_numbers_have_one_spelling(word, erased);
    }
}

impl BootloaderEnterer {
    pub closed spec fn flags_address(self) -> u32 {
        self.bootloader_flags_address
    }

    pub closed spec fn region_start(self) -> u32 {
        self.kernel_region_start
    }

    pub fn new(bootloader_flags_address: u32, kernel_region_start: u32) -> (enterer:
        BootloaderEnterer)
        ensures
            enterer.flags_address() == bootloader_flags_address,
            enterer.region_start() == kernel_region_start,
    {
        BootloaderEnterer { bootloader_flags_address, kernel_region_start }
    }

    /// Decide, given whether the entry conditions ask to stay, and the flash
    /// as it appears from address zero on.
    pub fn check(&self, stay: bool, flash: &[u8]) -> (decision: Entry)
        requires
            !stay ==> self.flags_address() + START_OFFSET + 4 <= flash@.len(),
            !stay && is_kernel_address(
                le_u32(flash@, self.flags_address() + START_OFFSET),
                self.region_start(),
            ) ==> le_u32(flash@, self.flags_address() + START_OFFSET) + 4 <= flash@.len(),
        ensures
            decision == entry(stay, flash@, self.flags_address(), self.region_start()),
    {
        if stay {
            Entry::Active
        } else {
            self.jump(flash)
        }
    }

    /// The kernel to start, if there is one.
    fn jump(&self, flash: &[u8]) -> (decision: Entry)
        requires
            self.flags_address() + START_OFFSET + 4 <= flash@.len(),
            is_kernel_address(
                le_u32(flash@, self.flags_address() + START_OFFSET),
                self.region_start(),
            ) ==> le_u32(flash@, self.flags_address() + START_OFFSET) + 4 <= flash@.len(),
        ensures
            decision == entry(false, flash@, self.flags_address(), self.region_start()),
    {
        assert(flash.len() == flash@.len());
        let start: u32 = read_le_u32(flash, self.bootloader_flags_address as usize + START_OFFSET);
        if start < self.kernel_region_start || start >= FLASH_END {
            return Entry::Active;
        }
        // The kernel's initial stack pointer is the first word of its vector
        // table.
        if read_le_u32(flash, start as usize) == ERASED_WORD {
            return Entry::Active;
        }
        Entry::Jump(start)
    }
}

} // verus!

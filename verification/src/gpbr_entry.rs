//! Decide whether to enter the bootloader from the backup registers.
//!
//! GPBR7 is preserved across soft resets, allowing the running kernel to write
//! a magic value and then reset in order to reboot into the bootloader. GPBR6
//! counts boots that the kernel has not reported healthy.
//!
//! Everything decided here is decided from the backup registers alone. The
//! conditions that have to observe something first live in [`crate::board`],
//! and each ends by writing the same GPBR7 magic this reads.

use vstd::prelude::*;

verus! {

/// Written to GPBR7 to request a reboot into the bootloader.
pub const DFU_MAGIC_TOCK_BOOTLOADER1: u32 = 0x90;

/// Written to GPBR7 on the way out to a second, chained bootloader, so that it
/// stays. When the jump target is the kernel nothing consumes the value, and
/// it would be misread as a request on the next boot.
pub const DFU_MAGIC_TOCK_BOOTLOADER2: u32 = 0x91;

/// Boots that may be attempted without the kernel reporting itself healthy
/// before the bootloader stops trying.
pub const BOOT_ATTEMPT_LIMIT: u32 = 3;

/// The two backup registers in use.
#[derive(Copy, Clone)]
pub struct BackupRegisters {
    /// Boot attempts since the kernel last reported itself healthy.
    pub gpbr6: u32,
    /// The bootloader-entry magic.
    pub gpbr7: u32,
}

/// Clear the boot-attempt counter, declaring the kernel healthy. Called by
/// the kernel once it reaches its main loop.
pub fn clear_boot_attempts(registers: &mut BackupRegisters)
    ensures
        *final(registers) == (BackupRegisters { gpbr6: 0, ..*old(registers) }),
{
    registers.gpbr6 = 0;
}

/// The entry decision.
pub struct BootloaderEntryGpRegRet {
    /// Whether to write the chaining magic when jumping out.
    chain_next_bootloader: bool,
}

/// Do the registers ask to stay?
pub open spec fn stays(registers: BackupRegisters) -> bool {
    registers.gpbr7 >= DFU_MAGIC_TOCK_BOOTLOADER1 || registers.gpbr6 >= BOOT_ATTEMPT_LIMIT
}

/// The registers after the decision. A request is consumed, and only that one:
/// staying on account of the magic leaves the counter alone. Staying for too
/// many attempts clears the counter, so that whatever is flashed next gets a
/// fresh set. On the way out the attempt is counted, without ever wrapping.
pub open spec fn after_decision(registers: BackupRegisters, chained: bool) -> BackupRegisters {
    if registers.gpbr7 >= DFU_MAGIC_TOCK_BOOTLOADER1 {
        BackupRegisters { gpbr7: 0, ..registers }
    } else if registers.gpbr6 >= BOOT_ATTEMPT_LIMIT {
        BackupRegisters { gpbr6: 0, ..registers }
    } else {
        BackupRegisters {
            gpbr6: (registers.gpbr6 + 1) as u32,
            gpbr7: if chained {
                DFU_MAGIC_TOCK_BOOTLOADER2
            } else {
                0
            },
        }
    }
}

impl BootloaderEntryGpRegRet {
    pub closed spec fn chained(self) -> bool {
        self.chain_next_bootloader
    }

    /// This is the only bootloader, and it jumps to the kernel.
    pub fn new() -> (entry: BootloaderEntryGpRegRet)
        ensures
            !entry.chained(),
    {
        BootloaderEntryGpRegRet { chain_next_bootloader: false }
    }

    /// This bootloader jumps to a second bootloader rather than to the kernel.
    pub fn new_chained() -> (entry: BootloaderEntryGpRegRet)
        ensures
            entry.chained(),
    {
        BootloaderEntryGpRegRet { chain_next_bootloader: true }
    }

    /// Stay in the bootloader?
    pub fn stay_in_bootloader(&self, registers: &mut BackupRegisters) -> (stay: bool)
        ensures
            stay == stays(*old(registers)),
            *final(registers) == after_decision(*old(registers), self.chained()),
    {
        if registers.gpbr7 >= DFU_MAGIC_TOCK_BOOTLOADER1 {
            registers.gpbr7 = 0;
            return true;
        }
        if registers.gpbr6 >= BOOT_ATTEMPT_LIMIT {
            registers.gpbr6 = 0;
            return true;
        }
        registers.gpbr7 = if self.chain_next_bootloader {
            DFU_MAGIC_TOCK_BOOTLOADER2
        } else {
            0
        };
        // Counted before the jump rather than after a failure: there is no
        // "after" to run code in when a kernel faults on the way up.
        registers.gpbr6 = registers.gpbr6.saturating_add(1);
        false
    }
}

/// The registers after `boots` boots in a row that the kernel never reports
/// healthy, and that nothing asks to stay.
pub open spec fn booted(registers: BackupRegisters, boots: nat) -> BackupRegisters
    decreases boots,
{
    if boots == 0 {
        registers
    } else {
        after_decision(booted(registers, (boots - 1) as nat), false)
    }
}

/// From a clear start, three boots go to the kernel, and the fourth stays
/// unless the kernel has reported itself healthy in between.
pub proof fn law_unhealthy_kernel_is_tried_three_times(registers: BackupRegisters)
    requires
        registers.gpbr6 == 0,
        registers.gpbr7 < DFU_MAGIC_TOCK_BOOTLOADER1,
    ensures
        !stays(booted(registers, 0)),
        !stays(booted(registers, 1)),
        !stays(booted(registers, 2)),
        stays(booted(registers, 3)),
        booted(registers, 4).gpbr6 == 0,
{
    reveal_with_fuel(booted, 5);
}

/// A kernel that reports itself healthy is always booted the next time.
pub proof fn law_healthy_kernel_is_booted(registers: BackupRegisters)
    requires
        !stays(registers),
    ensures
        !stays(
            (BackupRegisters { gpbr6: 0, ..after_decision(registers, false) }),
        ),
{
}

/// A request to stay is honoured once: the boot after it goes on as if there
/// had been none.
pub proof fn law_request_is_consumed(registers: BackupRegisters, chained: bool)
    requires
        registers.gpbr7 >= DFU_MAGIC_TOCK_BOOTLOADER1,
    ensures
        stays(registers),
        after_decision(registers, chained).gpbr7 == 0,
        after_decision(registers, chained).gpbr6 == registers.gpbr6,
{
}

/// What a boot does to the registers. A request is consumed and leaves the
/// counter alone; a third failed attempt clears the counter and leaves the
/// magic alone; and a boot that goes on counts itself, and leaves behind the
/// magic that holds a second bootloader where there is one, or none.
pub proof fn law_every_boot_is_accounted_for(registers: BackupRegisters, chained: bool)
    ensures
        ({
            let after = after_decision(registers, chained);
            let asked = registers.gpbr7 >= 0x90;
            let failed = registers.gpbr6 >= 3;
            &&& stays(registers) <==> asked || failed
            &&& asked ==> after.gpbr7 == 0 && after.gpbr6 == registers.gpbr6
            &&& !asked && failed ==> after.gpbr6 == 0 && after.gpbr7 == registers.gpbr7
            &&& !asked && !failed ==> after.gpbr6 == registers.gpbr6 + 1
            &&& !asked && !failed && chained ==> after.gpbr7 == 0x91
            &&& !asked && !failed && !chained ==> after.gpbr7 == 0
        }),
{
}

/// A chained bootloader hears the first one: what the first leaves behind
/// makes the second stay, and the second consumes it.
pub proof fn law_chained_bootloader_stays(registers: BackupRegisters)
    requires
        !stays(registers),
    ensures
        stays(after_decision(registers, true)),
        after_decision(after_decision(registers, true), false).gpbr7 == 0,
{
}

} // verus!

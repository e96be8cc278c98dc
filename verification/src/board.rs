//! What the SAMV71 Xplained Ultra decides before anything is served.
//!
//! Any of these holds the board in the bootloader:
//!
//!   1. The kernel failed its integrity check and no backup was worth
//!      restoring.
//!   2. `FLASH_EN` held low.
//!   3. Two NRST presses inside [`DOUBLE_RESET_WINDOW_MS`].
//!   4. A CAN knock inside [`CAN_ENTRY_WINDOW_MS`].
//!   5. GPBR7 >= 0x90: the kernel, or a debugger, asked for the bootloader.
//!   6. GPBR6 >= 3: three boots without the kernel reporting itself healthy.
//!
//! The first four set the entry magic in GPBR7; the last two are read out of
//! the backup registers by [`crate::gpbr_entry`].

use vstd::prelude::*;

use crate::bytes::{le_u32, write_at};
use crate::gpbr_entry::{
    after_decision, stays, BackupRegisters, BootloaderEntryGpRegRet, DFU_MAGIC_TOCK_BOOTLOADER1,
};
use crate::isotp::frames::{Id, Upcall};
use crate::isotp::model::{single_frame, IsoTpModel};
use crate::kernel_integrity::{
    check, describe, law_verdict_is_read_off_the_flash, recorded_digest, verdict, Verdict,
    DESCRIPTOR_LEN, MAGIC_IN_PROGRESS,
};
use crate::kernel_slot::{
    block_of, copied, copyable, law_copy_is_exact, law_interrupted_copy_can_be_repeated,
    law_interrupted_copy_has_its_first_pages, law_interrupted_copy_leaves_later_blocks, pages_of,
    CopierModel, Step, PAGE,
};

verus! {

/// CAN identifiers for the bootloader, ISO 15765-2 normal fixed addressing.
pub const CAN_REQUEST_ID: u32 = 0x18DA_41F1;
pub const CAN_RESPONSE_ID: u32 = 0x18DA_F141;

/// Start of the kernel region.
pub const KERNEL_START: u32 = 0x0001_0000;
/// Page holding the kernel integrity descriptor.
pub const KERNEL_DESCRIPTOR: u32 = 0x0003_C000;
/// End of the kernel region, and where its cold backup starts. The backup
/// mirrors the region byte for byte, descriptor and all.
pub const KERNEL_REGION_END: u32 = 0x0004_0000;
pub const KERNEL_BACKUP: u32 = 0x0004_0000;
pub const KERNEL_BACKUP_DESCRIPTOR: u32 = 0x0006_C000;
/// How much a rollback copies: the whole kernel region.
pub const ROLLBACK_LEN: usize = 0x0003_0000;
/// How many pages of it lie below the descriptor.
pub const PAGES_BELOW_DESCRIPTOR: usize = 352;

/// How long the bootloader listens on CAN before jumping to the kernel. Zero
/// disables the window.
pub const CAN_ENTRY_WINDOW_MS: u32 = 100;
/// How long after an NRST press a second press still counts. Zero disables
/// it.
pub const DOUBLE_RESET_WINDOW_MS: u32 = 500;
/// The value of the reset type for a user reset, which here means the button.
pub const RSTTYP_USER_RESET: u32 = 4;
/// Held in retained memory while the double-reset window is open.
pub const DOUBLE_RESET_MAGIC: u32 = 0x005A_1AD5;
/// How many of the `FLASH_EN` samples must read low to count as asserted.
pub const FLASH_EN_ASSERTED_LOW_COUNT: u32 = 3;
/// The timer runs from the 32 kHz slow clock.
pub const TC_TICKS_PER_SECOND: u32 = 32_768;

/// Is the `FLASH_EN` line held low? Three samples have to agree: a line long
/// enough to leave the board is long enough to pick up a transient.
pub fn flash_en_asserted(first: bool, second: bool, third: bool) -> (asserted: bool)
    ensures
        asserted == (!first && !second && !third),
{
    let mut low: u32 = 0;
    if !first {
        low = low + 1;
    }
    if !second {
        low = low + 1;
    }
    if !third {
        low = low + 1;
    }
    low == FLASH_EN_ASSERTED_LOW_COUNT
}

/// Timer ticks from `started` to `now`, by the lower 16 bits of both: those
/// are the hardware counter, which rolls over about every two seconds, and the
/// upper half does not move while nothing services interrupts.
pub open spec fn elapsed(now: u32, started: u32) -> int {
    (now as int - started as int) % 0x1_0000
}

/// Timer ticks elapsed since `started`, correct across the counter's rollover.
pub fn tc_elapsed(now: u32, started: u32) -> (ticks: u32)
    ensures
        ticks == elapsed(now, started),
{
    let a: u16 = (now % 0x1_0000) as u16;
    let b: u16 = (started % 0x1_0000) as u16;
    a.wrapping_sub(b) as u32
}

/// As long as less than one rollover passes, the time measured is the time
/// that passed, wherever the counter stood at the start.
pub proof fn law_elapsed_survives_the_rollover(started: u32, passed: int, counter: u32)
    requires
        0 <= passed < 0x1_0000,
        counter == (started + passed) % 0x1_0000,
    ensures
        elapsed(counter, started) == passed,
{
}

/// Only the lower sixteen bits of two readings count, and the time between two
/// readings is less than one rollover: whatever the upper bits are, a counter
/// that has gone on by `passed` ticks measures `passed`.
pub proof fn law_elapsed_is_the_time_that_passed(started: u32, now: u32, passed: int)
    requires
        0 <= passed < 0x1_0000,
        now as int % 0x1_0000 == (started + passed) % 0x1_0000,
    ensures
        elapsed(now, started) == passed,
{
}

/// A window of `ms` milliseconds in timer ticks, if it is to be opened at all:
/// zero disables it. It must stay under one rollover of the counter.
pub fn entry_window(ms: u32) -> (ticks: Option<u32>)
    requires
        ms < 2000,
    ensures
        ticks == if ms == 0 {
            None
        } else {
            Some((ms * TC_TICKS_PER_SECOND / 1000) as u32)
        },
        ticks matches Some(window) ==> window < 0x1_0000,
        // The slow clock makes 32768 ticks a second, rounded down.
        ms == 0 <==> ticks is None,
        ticks matches Some(window) ==> window * 1000 <= ms * 32768 < (window + 1) * 1000,
{
    if ms == 0 {
        None
    } else {
        Some(ms * TC_TICKS_PER_SECOND / 1000)
    }
}

/// What a reset means for the double-reset check.
#[derive(Copy, Clone, PartialEq, Eq, Structural)]
pub enum DoubleReset {
    /// Not a press of the button: nothing to do.
    Unrelated,
    /// The second press inside the window: clear the magic and stay.
    Second,
    /// The first press: write the magic, wait for the window, clear it.
    First,
}

/// What a reset means, from the reset controller's status and the retained
/// word. Testing the reset type first is what makes the word trustworthy:
/// memory is undefined after a power cycle.
pub open spec fn double_reset_of(reset_status: u32, retained: u32) -> DoubleReset {
    if (reset_status as int / 0x100) % 8 != RSTTYP_USER_RESET {
        DoubleReset::Unrelated
    } else if retained == DOUBLE_RESET_MAGIC {
        DoubleReset::Second
    } else {
        DoubleReset::First
    }
}

/// Did the operator press reset twice in quick succession?
pub fn double_reset_requested(reset_status: u32, retained: u32) -> (result: DoubleReset)
    ensures
        result == double_reset_of(reset_status, retained),
{
    if (reset_status / 0x100) % 8 != RSTTYP_USER_RESET {
        return DoubleReset::Unrelated;
    }
    if retained == DOUBLE_RESET_MAGIC {
        DoubleReset::Second
    } else {
        DoubleReset::First
    }
}

/// Two presses inside the window stay, whatever the word held before; a third
/// starts a fresh pair; and a reset of any other kind takes no part.
pub proof fn law_two_presses_stay(status: u32, retained: u32)
    requires
        (status as int / 0x100) % 8 == RSTTYP_USER_RESET,
        retained != DOUBLE_RESET_MAGIC,
    ensures
        double_reset_of(status, retained) is First,
        double_reset_of(status, DOUBLE_RESET_MAGIC) is Second,
        double_reset_of(status, 0) is First,
        forall|other: u32, word: u32|
            (other as int / 0x100) % 8 != RSTTYP_USER_RESET ==> #[trigger] double_reset_of(
                other,
                word,
            ) is Unrelated,
{
}

/// A press is a reset whose status has the value 4 in bits 8 to 10. It is the
/// second of a pair if the retained word says so, and the first of one
/// otherwise; any other reset is neither.
pub proof fn law_press_is_told_by_the_reset_type(status: u32, retained: u32)
    ensures
        ({
            let press = (status >> 8) & 7 == 4;
            let result = double_reset_of(status, retained);
            &&& result is Unrelated <==> !press
            &&& result is Second <==> press && retained == 0x005A_1AD5
            &&& result is First <==> press && retained != 0x005A_1AD5
        }),
{
    assert((status >> 8) & 7 == (status / 0x100) % 8) by (bit_vector);
}

/// A single-frame DiagnosticSessionControl(programming) on our identifier.
pub open spec fn knocks(id: Id, data: Seq<u8>, len: int) -> bool {
    &&& id == Id::Extended(CAN_REQUEST_ID)
    &&& len >= 3
    &&& data[0] == 0x02 && data[1] == 0x10 && data[2] == 0x02
}

/// The knock is the frame in which a tester asks for the programming session:
/// the frame that a link sends for the message 10 02 is a knock on the board's
/// identifier, in the extended format only. And what knocks carries the message
/// 10 02 to a link on that identifier that is ready for it.
pub proof fn law_knock_asks_for_the_programming_session(
    id: Id,
    data: Seq<u8>,
    len: int,
    link: IsoTpModel,
)
    requires
        data.len() == 8,
        link.wf(),
        link.vars.rx_id == Id::Extended(0x18DA_41F1),
        !link.transmitting(),
        link.rx_buffer is Some && link.rx_buffer->0.len() >= 2,
    ensures
        knocks(Id::Extended(0x18DA_41F1), single_frame(seq![0x10, 0x02]), 8),
        knocks(id, data, len) ==> 3 <= len && id == Id::Extended(0x18DA_41F1) && {
            let output = link.frame_received(id, data, true).1;
            &&& output.upcall matches Some(Upcall::Received { buffer, len: 2, result })
            &&& buffer[0] == 0x10 && buffer[1] == 0x02
            &&& result is Ok
        },
        id == Id::Extended(0x18DA_41F1) && 3 <= len && data[0] == 0x02 && data[1] == 0x10
            && data[2] == 0x02 ==> knocks(id, data, len),
{
}

/// Is this the frame that holds the board in the bootloader? Requiring one
/// payload keeps ordinary traffic from holding the board by accident.
pub fn is_can_knock(id: Id, data: &[u8], len: usize) -> (yes: bool)
    requires
        len <= data@.len(),
    ensures
        yes == knocks(id, data@, len as int),
{
    let ours: bool = match id {
        Id::Extended(value) => value == CAN_REQUEST_ID,
        Id::Standard(_) => false,
    };
    ours && len >= 3 && data[0] == 0x02 && data[1] == 0x10 && data[2] == 0x02
}

/// What to do in the CAN entry window.
#[derive(Copy, Clone, PartialEq, Eq, Structural)]
pub enum EntryWindow {
    /// Look again.
    Open,
    /// Somebody knocked: stay.
    Knocked,
    /// Time is up.
    Closed,
}

/// One look at the bus: a knock counts even on the last look.
pub fn can_entry_requested(knocked: bool, now: u32, started: u32, window: u32) -> (result:
    EntryWindow)
    ensures
        result == if knocked {
            EntryWindow::Knocked
        } else if elapsed(now, started) >= window {
            EntryWindow::Closed
        } else {
            EntryWindow::Open
        },
{
    if knocked {
        EntryWindow::Knocked
    } else if tc_elapsed(now, started) >= window {
        EntryWindow::Closed
    } else {
        EntryWindow::Open
    }
}

/// What to do about the kernel before the entry decision.
#[derive(Copy, Clone, PartialEq, Eq, Structural)]
pub enum KernelStep {
    /// It can be trusted, or nothing is known against it.
    Boot,
    /// It cannot be trusted: copy `len` bytes of the backup over it, and reset
    /// if that works, so that the whole entry sequence runs again.
    Rollback { src: u32, dst: u32, len: u32 },
    /// It cannot be trusted and neither can the backup: hold.
    Hold,
}

/// The kernel as the flash describes it. Only a backup that passes the same
/// check the kernel failed is worth restoring.
pub open spec fn kernel_step_of(flash: Seq<u8>) -> KernelStep {
    let kernel = verdict(flash, KERNEL_START, KERNEL_DESCRIPTOR);
    if kernel is Match || kernel is NoDescriptor {
        KernelStep::Boot
    } else if verdict(flash, KERNEL_BACKUP, KERNEL_BACKUP_DESCRIPTOR) is Match {
        KernelStep::Rollback {
            src: KERNEL_BACKUP,
            dst: KERNEL_START,
            len: (KERNEL_REGION_END - KERNEL_START) as u32,
        }
    } else {
        KernelStep::Hold
    }
}

/// The kernel is booted if and only if it matches its descriptor or has none.
/// One that does not match, or was never finished, is replaced by the backup if
/// and only if the backup matches its own descriptor: the whole region from
/// 0x40000 on goes over the one at 0x10000. Otherwise the board is held.
pub proof fn law_untrusted_kernel_is_never_booted(flash: Seq<u8>)
    ensures
        ({
            let kernel = verdict(flash, 0x1_0000, 0x3_C000);
            let backup = verdict(flash, 0x4_0000, 0x6_C000);
            let step = kernel_step_of(flash);
            let trusted = kernel is Match || kernel is NoDescriptor;
            &&& step is Boot <==> trusted
            &&& step is Hold <==> !trusted && !(backup is Match)
            &&& step is Rollback <==> !trusted && backup is Match
            &&& step is Rollback ==> step == (KernelStep::Rollback {
                src: 0x4_0000,
                dst: 0x1_0000,
                len: 0x3_0000,
            })
        }),
{
}

/// A half-written kernel, which carries the marker of an unfinished flash, is
/// never started, whatever else the flash holds. With no backup, or one that
/// was never finished either, the board is held.
pub proof fn law_unfinished_kernel_is_held_or_replaced(flash: Seq<u8>)
    requires
        0x6_C030 <= flash.len(),
        flash.subrange(0x3_C000, 0x3_C004) == seq![0x54u8, 0x4B, 0x49, 0x50],
    ensures
        !(kernel_step_of(flash) is Boot),
        flash.subrange(0x6_C000, 0x6_C004) != seq![0x54u8, 0x4B, 0x49, 0x56]
            ==> kernel_step_of(flash) is Hold,
{
    law_verdict_is_read_off_the_flash(flash, 0x1_0000, 0x3_C000);
    law_verdict_is_read_off_the_flash(flash, 0x4_0000, 0x6_C000);
}

/// A board that was flashed with a debugger, and so has no descriptor, boots.
pub proof fn law_kernel_without_descriptor_is_booted(flash: Seq<u8>)
    requires
        0x6_C030 <= flash.len(),
        flash.subrange(0x3_C000, 0x3_C004) != seq![0x54u8, 0x4B, 0x49, 0x50],
        flash.subrange(0x3_C000, 0x3_C004) != seq![0x54u8, 0x4B, 0x49, 0x56],
    ensures
        kernel_step_of(flash) is Boot,
{
    law_verdict_is_read_off_the_flash(flash, 0x1_0000, 0x3_C000);
}

/// Check the kernel image before considering a jump to it. `flash` is the
/// flash as it appears from address zero on.
pub fn kernel_step(flash: &[u8]) -> (step: KernelStep)
    requires
        KERNEL_BACKUP_DESCRIPTOR + DESCRIPTOR_LEN <= flash@.len() <= u32::MAX,
    ensures
        step == kernel_step_of(flash@),
{
    match check(flash, KERNEL_START, KERNEL_DESCRIPTOR) {
        Verdict::Match | Verdict::NoDescriptor => KernelStep::Boot,
        Verdict::Mismatch | Verdict::Interrupted => match try_rollback(flash) {
            Some(len) => KernelStep::Rollback { src: KERNEL_BACKUP, dst: KERNEL_START, len },
            None => KernelStep::Hold,
        },
    }
}

/// How much of the backup to restore over the active slot, if the backup is
/// worth restoring: the whole region, so that the descriptor comes across with
/// the image it vouches for.
pub fn try_rollback(flash: &[u8]) -> (len: Option<u32>)
    requires
        KERNEL_BACKUP_DESCRIPTOR + DESCRIPTOR_LEN <= flash@.len() <= u32::MAX,
    ensures
        len == if verdict(flash@, KERNEL_BACKUP, KERNEL_BACKUP_DESCRIPTOR) is Match {
            Some((KERNEL_REGION_END - KERNEL_START) as u32)
        } else {
            None
        },
{
    match describe(flash, KERNEL_BACKUP, KERNEL_BACKUP_DESCRIPTOR) {
        (Verdict::Match, _) => Some(KERNEL_REGION_END - KERNEL_START),
        _ => None,
    }
}

/// Say "stay resident" the one way there is: by the entry magic.
pub fn request_bootloader(registers: &mut BackupRegisters)
    ensures
        *final(registers) == (BackupRegisters {
            gpbr7: DFU_MAGIC_TOCK_BOOTLOADER1,
            ..*old(registers)
        }),
{
    registers.gpbr7 = DFU_MAGIC_TOCK_BOOTLOADER1;
}

/// The registers that the entry decision finds.
pub open spec fn prepared(
    registers: BackupRegisters,
    held: bool,
    asked_to_stay: bool,
) -> BackupRegisters {
    if held || asked_to_stay {
        BackupRegisters { gpbr7: DFU_MAGIC_TOCK_BOOTLOADER1, ..registers }
    } else {
        registers
    }
}

/// The whole decision to stay: `held` because the kernel cannot be trusted,
/// `asked_to_stay` by the line, the button or the bus, or as the backup
/// registers say.
pub fn stay_decision(
    entry: &BootloaderEntryGpRegRet,
    registers: &mut BackupRegisters,
    held: bool,
    asked_to_stay: bool,
) -> (stay: bool)
    ensures
        stay == stays(prepared(*old(registers), held, asked_to_stay)),
        *final(registers) == after_decision(
            prepared(*old(registers), held, asked_to_stay),
            entry.chained(),
        ),
{
    if held || asked_to_stay {
        request_bootloader(registers);
    }
    entry.stay_in_bootloader(registers)
}

/// Any one of the conditions holds the board, and without any of them it goes
/// on to the kernel.
pub proof fn law_any_condition_holds_the_board(
    registers: BackupRegisters,
    held: bool,
    asked_to_stay: bool,
)
    ensures
        stays(prepared(registers, held, asked_to_stay)) <==> held || asked_to_stay
            || registers.gpbr7 >= 0x90 || registers.gpbr6 >= 3,
{
}

/// A rollback never runs over itself: the two regions do not overlap, both are
/// whole pages, and the backup's descriptor lands on the kernel's.
pub proof fn law_rollback_mirrors_the_region(flash: Seq<u8>)
    ensures
        kernel_step_of(flash) matches KernelStep::Rollback { src, dst, len } ==> {
            &&& len == ROLLBACK_LEN && dst + len <= src
            &&& src as int % 512 == 0 && dst as int % 512 == 0 && len as int % 512 == 0
            &&& KERNEL_BACKUP_DESCRIPTOR - src == KERNEL_DESCRIPTOR - dst
            &&& KERNEL_DESCRIPTOR + DESCRIPTOR_LEN <= dst + len
            &&& KERNEL_DESCRIPTOR == dst + PAGES_BELOW_DESCRIPTOR * PAGE
        },
{
}

/// What a kernel region that mirrors the backup, up to the end of the
/// descriptor, says of its image.
proof fn lemma_mirror_matches(flash: Seq<u8>, after: Seq<u8>)
    requires
        KERNEL_BACKUP_DESCRIPTOR + DESCRIPTOR_LEN <= flash.len(),
        after.len() == flash.len(),
        forall|i: int|
            0 <= i < KERNEL_DESCRIPTOR + DESCRIPTOR_LEN - KERNEL_START ==> #[trigger] after[
            KERNEL_START + i] == flash[KERNEL_BACKUP + i],
        verdict(flash, KERNEL_BACKUP, KERNEL_BACKUP_DESCRIPTOR) is Match,
    ensures
        verdict(after, KERNEL_START, KERNEL_DESCRIPTOR) is Match,
{
    let kd = KERNEL_DESCRIPTOR as int;
    let kbd = KERNEL_BACKUP_DESCRIPTOR as int;
    let offset = kd - KERNEL_START;
    assert forall|j: int| 0 <= j < 12 implies #[trigger] after[kd + j] == flash[kbd + j] by {
        assert(after[KERNEL_START + (offset + j)] == flash[KERNEL_BACKUP + (offset + j)]);
    }
    assert(after[kd] == flash[kbd]) by {
        assert(after[kd + 0] == flash[kbd + 0]);
    }
    assert(le_u32(after, kd) == le_u32(flash, kbd));
    assert(le_u32(after, kd + 4) == le_u32(flash, kbd + 4)) by {
        assert(after[kd + 5] == flash[kbd + 5]);
        assert(after[kd + 6] == flash[kbd + 6]);
        assert(after[kd + 7] == flash[kbd + 7]);
    }
    assert(le_u32(after, kd + 8) == le_u32(flash, kbd + 8)) by {
        assert(after[kd + 9] == flash[kbd + 9]);
        assert(after[kd + 10] == flash[kbd + 10]);
        assert(after[kd + 11] == flash[kbd + 11]);
    }
    let image_len = le_u32(flash, kbd + 8) as int;
    assert(recorded_digest(after, KERNEL_DESCRIPTOR) =~= recorded_digest(
        flash,
        KERNEL_BACKUP_DESCRIPTOR,
    )) by {
        assert forall|j: int| 0 <= j < 32 implies recorded_digest(after, KERNEL_DESCRIPTOR)[j]
            == recorded_digest(flash, KERNEL_BACKUP_DESCRIPTOR)[j] by {
            assert(after[KERNEL_START + (offset + 16 + j)] == flash[KERNEL_BACKUP + (offset + 16
                + j)]);
        }
    }
    assert(after.subrange(KERNEL_START as int, KERNEL_START + image_len) =~= flash.subrange(
        KERNEL_BACKUP as int,
        KERNEL_BACKUP + image_len,
    )) by {
        assert(0 < image_len <= offset);
        assert forall|j: int| 0 <= j < image_len implies #[trigger] after.subrange(
            KERNEL_START as int,
            KERNEL_START + image_len,
        )[j] == flash.subrange(KERNEL_BACKUP as int, KERNEL_BACKUP + image_len)[j] by {
            assert(after[KERNEL_START + j] == flash[KERNEL_BACKUP + j]);
        }
    }
}

/// The flash after `writes` of the writes of a rollback, and how the rollback
/// stands.
pub open spec fn rolled_back(flash: Seq<u8>, copier: CopierModel, writes: nat) -> (
    Step<Seq<u8>>,
    Seq<u8>,
) {
    let (started, step) = copier.copy(KERNEL_BACKUP, KERNEL_START, ROLLBACK_LEN, flash);
    let (_, end, after) = copied(started, step, flash, writes);
    (end, after)
}

/// Can the backup be copied over the kernel region? The flash erases by
/// blocks, so the region must be [`pages_rewritable`]: for each of its blocks,
/// the backup has nothing below the first page that is in use now.
///
/// [`pages_rewritable`]: crate::kernel_slot::pages_rewritable
pub open spec fn restorable(flash: Seq<u8>) -> bool {
    copyable(KERNEL_BACKUP, KERNEL_START, ROLLBACK_LEN, flash)
}

/// A rollback restores a kernel that passes: once the copy is done, the kernel
/// region holds what the backup held, and the same check that sent the board
/// there now lets it boot.
///
/// Where the region is not [`restorable`], an erase takes pages with it that
/// were already copied. The check after the reset decides again, on what is
/// there then.
pub proof fn law_rollback_restores_a_trusted_kernel(flash: Seq<u8>, copier: CopierModel)
    requires
        restorable(flash),
        kernel_step_of(flash) is Rollback,
        copier.page is Some && copier.page->0.len() == PAGE,
    ensures
        ({
            let (end, after) = rolled_back(flash, copier, pages_of(ROLLBACK_LEN as int) as nat);
            &&& end == Step::<Seq<u8>>::Done(Ok(()))
            &&& verdict(after, KERNEL_START, KERNEL_DESCRIPTOR) is Match
            &&& kernel_step_of(after) is Boot
        }),
{
    law_copy_is_exact(copier, KERNEL_BACKUP, KERNEL_START, ROLLBACK_LEN, flash);
    let after = rolled_back(flash, copier, pages_of(ROLLBACK_LEN as int) as nat).1;
    let source = flash.subrange(KERNEL_BACKUP as int, KERNEL_BACKUP + ROLLBACK_LEN);
    assert(after == write_at(flash, KERNEL_START as int, source));
    lemma_mirror_matches(flash, after);
}

/// A rollback that power loss ends before it has come to the descriptor leaves
/// a kernel that was marked as unfinished marked as unfinished, whatever the
/// region holds by then: the next boot does not trust it, and takes the
/// rollback up again.
pub proof fn law_interrupted_rollback_is_taken_up_again(
    flash: Seq<u8>,
    copier: CopierModel,
    writes: nat,
)
    requires
        KERNEL_BACKUP + ROLLBACK_LEN <= flash.len() <= u32::MAX,
        kernel_step_of(flash) is Rollback,
        verdict(flash, KERNEL_START, KERNEL_DESCRIPTOR) is Interrupted,
        copier.page is Some && copier.page->0.len() == PAGE,
        writes <= PAGES_BELOW_DESCRIPTOR,
    ensures
        ({
            let after = rolled_back(flash, copier, writes).1;
            &&& verdict(after, KERNEL_START, KERNEL_DESCRIPTOR) is Interrupted
            &&& kernel_step_of(after) == kernel_step_of(flash)
            &&& restorable(flash) ==> restorable(after)
        }),
{
    let after = rolled_back(flash, copier, writes).1;
    law_interrupted_copy_leaves_later_blocks(
        copier,
        KERNEL_BACKUP,
        KERNEL_START,
        ROLLBACK_LEN,
        flash,
        writes,
    );
    assert forall|i: int| KERNEL_DESCRIPTOR <= i < flash.len() implies #[trigger] after[i]
        == flash[i] by {
        assert(block_of(KERNEL_START + writes * PAGE - 1) <= 29);
        assert(block_of(i) >= 30);
    }
    let kd = KERNEL_DESCRIPTOR as int;
    assert(le_u32(after, kd) == le_u32(flash, kd));
    assert(le_u32(flash, kd) == MAGIC_IN_PROGRESS) by {
        if le_u32(flash, kd) != MAGIC_IN_PROGRESS {
            assert(!(verdict(flash, KERNEL_START, KERNEL_DESCRIPTOR) is Interrupted));
        }
    }
    let kbd = KERNEL_BACKUP_DESCRIPTOR as int;
    assert(le_u32(after, kbd) == le_u32(flash, kbd));
    assert(le_u32(after, kbd + 4) == le_u32(flash, kbd + 4));
    assert(le_u32(after, kbd + 8) == le_u32(flash, kbd + 8));
    assert(recorded_digest(after, KERNEL_BACKUP_DESCRIPTOR) =~= recorded_digest(
        flash,
        KERNEL_BACKUP_DESCRIPTOR,
    ));
    let image_len = le_u32(flash, kbd + 8) as int;
    if KERNEL_BACKUP + image_len <= KERNEL_BACKUP_DESCRIPTOR {
        assert(after.subrange(KERNEL_BACKUP as int, KERNEL_BACKUP + image_len) =~= flash.subrange(
            KERNEL_BACKUP as int,
            KERNEL_BACKUP + image_len,
        ));
    }
    if restorable(flash) {
        law_interrupted_copy_can_be_repeated(
            copier,
            KERNEL_BACKUP,
            KERNEL_START,
            ROLLBACK_LEN,
            flash,
            writes,
        );
    }
}

/// Power loss between two writes of a rollback never leaves half a kernel that
/// is trusted: a kernel that was marked as unfinished stays so until the whole
/// image is in place, and once its descriptor's page is written it is the
/// backup's, and passes.
pub proof fn law_half_a_kernel_is_never_trusted(
    flash: Seq<u8>,
    copier: CopierModel,
    writes: nat,
)
    requires
        restorable(flash),
        kernel_step_of(flash) is Rollback,
        verdict(flash, KERNEL_START, KERNEL_DESCRIPTOR) is Interrupted,
        copier.page is Some && copier.page->0.len() == PAGE,
        writes <= pages_of(ROLLBACK_LEN as int),
    ensures
        ({
            let after = rolled_back(flash, copier, writes).1;
            verdict(after, KERNEL_START, KERNEL_DESCRIPTOR) == if writes
                <= PAGES_BELOW_DESCRIPTOR {
                Verdict::Interrupted
            } else {
                Verdict::Match
            }
        }),
{
    let after = rolled_back(flash, copier, writes).1;
    if writes <= PAGES_BELOW_DESCRIPTOR {
        law_interrupted_rollback_is_taken_up_again(flash, copier, writes);
    } else {
        law_interrupted_copy_has_its_first_pages(
            copier,
            KERNEL_BACKUP,
            KERNEL_START,
            ROLLBACK_LEN,
            flash,
            writes,
        );
        lemma_mirror_matches(flash, after);
    }
}

/// Holding the board and asking it to stay write 0x90 to GPBR7 and nothing
/// else; otherwise the registers are found as they were left.
pub proof fn law_stay_is_written_one_way(
    registers: BackupRegisters,
    held: bool,
    asked_to_stay: bool,
)
    ensures
        ({
            let found = prepared(registers, held, asked_to_stay);
            &&& found.gpbr6 == registers.gpbr6
            &&& found.gpbr7 == if held || asked_to_stay {
                0x90
            } else {
                registers.gpbr7
            }
        }),
{
}

} // verus!

//! Integrity, rollback and the entry decision.

use bootloader::board::{
    can_entry_requested, double_reset_requested, entry_window, flash_en_asserted, is_can_knock,
    kernel_step, request_bootloader, stay_decision, tc_elapsed, try_rollback, DoubleReset,
    EntryWindow, KernelStep, CAN_ENTRY_WINDOW_MS, CAN_REQUEST_ID, DOUBLE_RESET_MAGIC,
    DOUBLE_RESET_WINDOW_MS, KERNEL_BACKUP, KERNEL_BACKUP_DESCRIPTOR, KERNEL_DESCRIPTOR,
    KERNEL_REGION_END, KERNEL_START, PAGES_BELOW_DESCRIPTOR, ROLLBACK_LEN,
};
use bootloader::error::ErrorCode;
use bootloader::gpbr_entry::{clear_boot_attempts, BackupRegisters, BootloaderEntryGpRegRet};
use bootloader::isotp::frames::Id;
use bootloader::jumper::CortexMJumper;
use bootloader::kernel_integrity::{
    check, claim, compare_digest, describe, u32_at, Claim, Verdict, MAGIC, MAGIC_IN_PROGRESS,
};
use bootloader::kernel_slot::{SlotCopier, Step, PAGE};
use sha2::{Digest, Sha256};

const FLASH: usize = 0x8_0000;
/// What is erased at a time.
const BLOCK: usize = 0x2000;

fn flash() -> Vec<u8> {
    vec![0xFF; FLASH]
}

fn descriptor(magic: u32, version: u32, length: u32, digest: &[u8]) -> Vec<u8> {
    let mut result = Vec::new();
    result.extend_from_slice(&magic.to_le_bytes());
    result.extend_from_slice(&version.to_le_bytes());
    result.extend_from_slice(&length.to_le_bytes());
    result.extend_from_slice(&[0; 4]);
    result.extend_from_slice(digest);
    result
}

/// Put an image with its descriptor into flash.
fn install(flash: &mut [u8], start: u32, at: u32, image: &[u8]) {
    flash[start as usize..start as usize + image.len()].copy_from_slice(image);
    let digest = Sha256::digest(image);
    let bytes = descriptor(MAGIC, 1, image.len() as u32, digest.as_slice());
    flash[at as usize..at as usize + 48].copy_from_slice(&bytes);
}

#[test]
fn digest_is_sha256() {
    // SHA-256 of "abc".
    let digest: [u8; 32] = [
        0xBA, 0x78, 0x16, 0xBF, 0x8F, 0x01, 0xCF, 0xEA, 0x41, 0x41, 0x40, 0xDE, 0x5D, 0xAE, 0x22,
        0x23, 0xB0, 0x03, 0x61, 0xA3, 0x96, 0x17, 0x7A, 0x9C, 0xB4, 0x10, 0xFF, 0x61, 0xF2, 0x00,
        0x15, 0xAD,
    ];
    let mut flash = flash();
    flash[0x1_0000..0x1_0003].copy_from_slice(b"abc");
    flash[0x3_C000..0x3_C030].copy_from_slice(&descriptor(MAGIC, 1, 3, &digest));
    assert_eq!(check(&flash, KERNEL_START, KERNEL_DESCRIPTOR), Verdict::Match);
    assert_eq!(describe(&flash, KERNEL_START, KERNEL_DESCRIPTOR), (Verdict::Match, 3));
    flash[0x1_0001] ^= 1;
    assert_eq!(check(&flash, KERNEL_START, KERNEL_DESCRIPTOR), Verdict::Mismatch);
    assert_eq!(describe(&flash, KERNEL_START, KERNEL_DESCRIPTOR), (Verdict::Mismatch, 0));
}

#[test]
fn absent_and_malformed_descriptors() {
    let mut flash = flash();
    assert_eq!(check(&flash, KERNEL_START, KERNEL_DESCRIPTOR), Verdict::NoDescriptor);
    let digest = [0u8; 32];
    for (magic, version, length) in [
        (MAGIC, 2, 100),
        (MAGIC, 1, 0),
        (MAGIC, 1, KERNEL_DESCRIPTOR - KERNEL_START + 1),
        (MAGIC, 1, 0xFFFF_FFFF),
        (0x1234_5678, 1, 100),
    ] {
        flash[0x3_C000..0x3_C030].copy_from_slice(&descriptor(magic, version, length, &digest));
        assert_eq!(check(&flash, KERNEL_START, KERNEL_DESCRIPTOR), Verdict::NoDescriptor);
    }
    // A length that just reaches the descriptor is an image.
    let length = KERNEL_DESCRIPTOR - KERNEL_START;
    flash[0x3_C000..0x3_C030].copy_from_slice(&descriptor(MAGIC, 1, length, &digest));
    assert_eq!(claim(&flash, KERNEL_START, KERNEL_DESCRIPTOR), Claim::Image(length));
    assert_eq!(check(&flash, KERNEL_START, KERNEL_DESCRIPTOR), Verdict::Mismatch);
}

#[test]
fn unfinished_flash_is_interrupted() {
    let mut flash = flash();
    flash[0x3_C000..0x3_C004].copy_from_slice(&MAGIC_IN_PROGRESS.to_le_bytes());
    assert_eq!(check(&flash, KERNEL_START, KERNEL_DESCRIPTOR), Verdict::Interrupted);
    assert_eq!(&flash[0x3_C000..0x3_C004], b"TKIP");
    assert_eq!(&MAGIC.to_le_bytes(), b"TKIV");
}

#[test]
fn digests_compare_in_full() {
    let digest = [7u8; 32];
    assert_eq!(compare_digest(&digest, &digest), Verdict::Match);
    for i in 0..32 {
        let mut other = digest;
        other[i] = 8;
        assert_eq!(compare_digest(&digest, &other), Verdict::Mismatch);
    }
    assert_eq!(compare_digest(&digest, &digest[..31]), Verdict::Mismatch);
    assert_eq!(u32_at(&[0, 1, 2, 3, 4], 1), 0x0403_0201);
}

#[test]
fn kernel_steps() {
    let mut flash = flash();
    assert!(kernel_step(&flash) == KernelStep::Boot);
    install(&mut flash, KERNEL_START, KERNEL_DESCRIPTOR, &[1; 5000]);
    assert!(kernel_step(&flash) == KernelStep::Boot);
    flash[KERNEL_START as usize + 7] = 9;
    assert!(kernel_step(&flash) == KernelStep::Hold);
    assert!(try_rollback(&flash).is_none());
    install(&mut flash, KERNEL_BACKUP, KERNEL_BACKUP_DESCRIPTOR, &[2; 6000]);
    let rollback =
        KernelStep::Rollback { src: KERNEL_BACKUP, dst: KERNEL_START, len: 0x3_0000 };
    assert!(kernel_step(&flash) == rollback);
    assert_eq!(try_rollback(&flash), Some(KERNEL_REGION_END - KERNEL_START));
}

/// Write a page as the driver does: a page that is not blank has its whole
/// block erased first.
fn write_page(flash: &mut [u8], page_number: usize, page: &[u8]) {
    let at = page_number * PAGE;
    if flash[at..at + PAGE].iter().any(|byte| *byte != 0xFF) {
        let block = at / BLOCK * BLOCK;
        flash[block..block + BLOCK].fill(0xFF);
    }
    flash[at..at + PAGE].copy_from_slice(page);
}

/// Run a copy against a flash that completes each write within the call, until
/// it is over or `writes` pages are written. What became of it, if it is over,
/// and the pages written.
fn copy_some(
    copier: &mut SlotCopier,
    flash: &mut Vec<u8>,
    src: u32,
    dst: u32,
    len: usize,
    writes: usize,
) -> (Option<Result<(), ErrorCode>>, Vec<usize>) {
    let mut written = Vec::new();
    let mut step = copier.copy(src, dst, len, flash);
    loop {
        match step {
            Step::Done(result) => return (Some(result), written),
            Step::Write { page_number, page } => {
                if written.len() == writes {
                    return (None, written);
                }
                write_page(flash, page_number, &page[..PAGE]);
                written.push(page_number);
                copier.write_complete(page);
                step = copier.write_started(flash);
            }
        }
    }
}

fn copy(
    copier: &mut SlotCopier,
    flash: &mut Vec<u8>,
    src: u32,
    dst: u32,
    len: usize,
) -> (Result<(), ErrorCode>, Vec<usize>) {
    let (result, written) = copy_some(copier, flash, src, dst, len, usize::MAX);
    (result.unwrap(), written)
}

/// A board whose kernel was being replaced when the power went, with a good
/// kernel in the backup.
fn half_flashed() -> Vec<u8> {
    let mut flash = flash();
    let old: Vec<u8> = (0..60_000).map(|i| (i % 251) as u8).collect();
    install(&mut flash, KERNEL_START, KERNEL_DESCRIPTOR, &old);
    let image: Vec<u8> = (0..90_000).map(|i| (i % 255) as u8).collect();
    install(&mut flash, KERNEL_BACKUP, KERNEL_BACKUP_DESCRIPTOR, &image);
    flash[0x3_C000..0x3_C004].copy_from_slice(&MAGIC_IN_PROGRESS.to_le_bytes());
    flash
}

#[test]
fn rollback_over_an_older_kernel() {
    let mut flash = half_flashed();
    let backup = flash[0x4_0000..0x7_0000].to_vec();
    let mut copier = SlotCopier::new(vec![0; PAGE]);
    let (result, _) = copy(&mut copier, &mut flash, KERNEL_BACKUP, KERNEL_START, ROLLBACK_LEN);
    assert_eq!(result, Ok(()));
    assert_eq!(flash[0x1_0000..0x4_0000], backup);
    assert_eq!(flash[0x4_0000..0x7_0000], backup);
    assert!(kernel_step(&flash) == KernelStep::Boot);
}

#[test]
fn interrupted_rollback_is_not_trusted_and_can_be_repeated() {
    for writes in [0, 1, 15, 16, 17, 100, 176, 351, 352, 353, 383, 384] {
        let mut flash = half_flashed();
        let before = flash.clone();
        let mut copier = SlotCopier::new(vec![0; PAGE]);
        let (_, written) =
            copy_some(&mut copier, &mut flash, KERNEL_BACKUP, KERNEL_START, ROLLBACK_LEN, writes);
        assert_eq!(written.len(), writes);
        let done = writes * PAGE;
        assert_eq!(flash[0x1_0000..0x1_0000 + done], before[0x4_0000..0x4_0000 + done]);
        assert_eq!(flash[..0x1_0000], before[..0x1_0000]);
        assert_eq!(flash[0x4_0000..], before[0x4_0000..]);
        if writes <= PAGES_BELOW_DESCRIPTOR {
            assert_eq!(flash[0x3_C000..0x4_0000], before[0x3_C000..0x4_0000]);
            assert_eq!(check(&flash, KERNEL_START, KERNEL_DESCRIPTOR), Verdict::Interrupted);
            assert!(matches!(kernel_step(&flash), KernelStep::Rollback { .. }));
        } else {
            assert_eq!(check(&flash, KERNEL_START, KERNEL_DESCRIPTOR), Verdict::Match);
        }
        let mut copier = SlotCopier::new(vec![0; PAGE]);
        let (result, _) =
            copy(&mut copier, &mut flash, KERNEL_BACKUP, KERNEL_START, ROLLBACK_LEN);
        assert_eq!(result, Ok(()));
        assert_eq!(flash[0x1_0000..0x4_0000], before[0x4_0000..0x7_0000]);
        assert!(kernel_step(&flash) == KernelStep::Boot);
    }
}

#[test]
fn erase_takes_the_pages_below_with_it() {
    // The block starts blank and has something in its second page.
    let mut flash = flash();
    flash[0x2_0000..0x2_0400].fill(7);
    flash[0x3_0200] = 1;
    let mut copier = SlotCopier::new(vec![0; PAGE]);
    let (result, _) = copy(&mut copier, &mut flash, 0x2_0000, 0x3_0000, 1024);
    assert_eq!(result, Ok(()));
    assert_eq!(flash[0x3_0000..0x3_0200], [0xFF; 512]);
    assert_eq!(flash[0x3_0200..0x3_0400], [7; 512]);
    // Filled from its start, it takes everything.
    flash[0x3_0000] = 1;
    let (result, _) = copy(&mut copier, &mut flash, 0x2_0000, 0x3_0000, 1024);
    assert_eq!(result, Ok(()));
    assert_eq!(flash[0x3_0000..0x3_0400], [7; 1024]);
}

#[test]
fn rollback_restores_a_kernel_that_boots() {
    let mut flash = flash();
    let image: Vec<u8> = (0..9000).map(|i| (i % 255) as u8).collect();
    install(&mut flash, KERNEL_BACKUP, KERNEL_BACKUP_DESCRIPTOR, &image);
    flash[0x3_C000..0x3_C004].copy_from_slice(&MAGIC_IN_PROGRESS.to_le_bytes());
    assert!(kernel_step(&flash) != KernelStep::Boot);
    let mut copier = SlotCopier::new(vec![0; PAGE]);
    let (result, written) =
        copy(&mut copier, &mut flash, KERNEL_BACKUP, KERNEL_START, 0x3_0000);
    assert_eq!(result, Ok(()));
    let first = KERNEL_START as usize / PAGE;
    assert_eq!(written, (first..first + 384).collect::<Vec<_>>());
    assert_eq!(flash[0x1_0000..0x4_0000], flash[0x4_0000..0x7_0000]);
    assert_eq!(check(&flash, KERNEL_START, KERNEL_DESCRIPTOR), Verdict::Match);
    assert!(kernel_step(&flash) == KernelStep::Boot);
}

#[test]
fn copy_takes_whole_pages() {
    let mut flash = flash();
    for i in 0..1024 {
        flash[0x2_0000 + i] = i as u8;
    }
    let mut copier = SlotCopier::new(vec![0; PAGE]);
    let (result, written) = copy(&mut copier, &mut flash, 0x2_0000, 0x3_0000, 513);
    assert_eq!(result, Ok(()));
    assert_eq!(written.len(), 2);
    assert_eq!(flash[0x3_0000..0x3_0400], flash[0x2_0000..0x2_0400]);
    let (result, written) = copy(&mut copier, &mut flash, 0x2_0000, 0x3_0000, 0);
    assert_eq!((result, written), (Ok(()), vec![]));
}

#[test]
fn copy_errors() {
    let mut flash = flash();
    let mut copier = SlotCopier::new(vec![0; PAGE]);
    assert_eq!(copy(&mut copier, &mut flash, 1, 0, 512).0, Err(ErrorCode::INVAL));
    assert_eq!(copy(&mut copier, &mut flash, 0, 511, 512).0, Err(ErrorCode::INVAL));
    // Wherever they lie, and however long the range is.
    assert_eq!(copy(&mut copier, &mut flash, 0xFFFF_FFFF, 0, 512).0, Err(ErrorCode::INVAL));
    assert_eq!(copy(&mut copier, &mut flash, 0, 1, usize::MAX).0, Err(ErrorCode::INVAL));
    // Nothing to copy is copied from anywhere.
    assert_eq!(copy(&mut copier, &mut flash, 0xFFFF_FE00, 0, 0).0, Ok(()));
    let mut small = SlotCopier::new(vec![0; PAGE - 1]);
    assert_eq!(copy(&mut small, &mut flash, 0, 0x1000, 512).0, Err(ErrorCode::SIZE));
    // The page did not come back before the call returned.
    match copier.copy(0, 0x1000, 1024, &flash) {
        Step::Write { page, .. } => {
            match copier.write_started(&flash) {
                Step::Done(result) => assert_eq!(result, Err(ErrorCode::FAIL)),
                _ => panic!(),
            }
            // And the next copy finds no page.
            match copier.copy(0, 0x1000, 512, &flash) {
                Step::Done(result) => assert_eq!(result, Err(ErrorCode::NOMEM)),
                _ => panic!(),
            }
            copier.read_complete(page);
        }
        _ => panic!(),
    }
    match copier.copy(0, 0x1000, 512, &flash) {
        Step::Write { page, .. } => match copier.write_refused(ErrorCode::BUSY, page) {
            Step::Done(result) => assert_eq!(result, Err(ErrorCode::BUSY)),
            _ => panic!(),
        },
        _ => panic!(),
    }
}

#[test]
fn three_attempts_and_then_the_bootloader() {
    let entry = BootloaderEntryGpRegRet::new();
    let mut registers = BackupRegisters { gpbr6: 0, gpbr7: 0 };
    for attempt in 1..4 {
        assert!(!entry.stay_in_bootloader(&mut registers));
        assert_eq!((registers.gpbr6, registers.gpbr7), (attempt, 0));
    }
    assert!(entry.stay_in_bootloader(&mut registers));
    assert_eq!(registers.gpbr6, 0);
    // A healthy kernel starts over.
    assert!(!entry.stay_in_bootloader(&mut registers));
    clear_boot_attempts(&mut registers);
    assert_eq!(registers.gpbr6, 0);
}

#[test]
fn magic_is_honoured_once() {
    let entry = BootloaderEntryGpRegRet::new();
    for magic in [0x90, 0x91, 0xFFFF_FFFF] {
        let mut registers = BackupRegisters { gpbr6: 2, gpbr7: magic };
        assert!(entry.stay_in_bootloader(&mut registers));
        assert_eq!((registers.gpbr6, registers.gpbr7), (2, 0));
        assert!(!entry.stay_in_bootloader(&mut registers));
    }
    let mut registers = BackupRegisters { gpbr6: 0, gpbr7: 0x8F };
    assert!(!entry.stay_in_bootloader(&mut registers));
    assert_eq!(registers.gpbr7, 0);
}

#[test]
fn chained_bootloader_is_told_to_stay() {
    let first = BootloaderEntryGpRegRet::new_chained();
    let second = BootloaderEntryGpRegRet::new();
    let mut registers = BackupRegisters { gpbr6: 0, gpbr7: 0 };
    assert!(!first.stay_in_bootloader(&mut registers));
    assert_eq!(registers.gpbr7, 0x91);
    assert!(second.stay_in_bootloader(&mut registers));
    assert_eq!(registers.gpbr7, 0);
}

#[test]
fn any_condition_holds_the_board() {
    let entry = BootloaderEntryGpRegRet::new();
    for (held, asked, gpbr6, gpbr7, expected) in [
        (false, false, 0, 0, false),
        (true, false, 0, 0, true),
        (false, true, 0, 0, true),
        (false, false, 3, 0, true),
        (false, false, 2, 0, false),
        (false, false, 0, 0x90, true),
    ] {
        let mut registers = BackupRegisters { gpbr6, gpbr7 };
        assert_eq!(stay_decision(&entry, &mut registers, held, asked), expected);
    }
    let mut registers = BackupRegisters { gpbr6: 1, gpbr7: 0 };
    request_bootloader(&mut registers);
    assert_eq!((registers.gpbr6, registers.gpbr7), (1, 0x90));
}

#[test]
fn flash_en_needs_three_low_samples() {
    assert!(flash_en_asserted(false, false, false));
    assert!(!flash_en_asserted(true, false, false));
    assert!(!flash_en_asserted(false, true, false));
    assert!(!flash_en_asserted(false, false, true));
    assert!(!flash_en_asserted(true, true, true));
}

#[test]
fn elapsed_survives_the_rollover() {
    assert_eq!(tc_elapsed(100, 40), 60);
    assert_eq!(tc_elapsed(0x0005, 0xFFFB), 10);
    assert_eq!(tc_elapsed(0x1_0005, 0xFFFB), 10);
    assert_eq!(tc_elapsed(7, 7), 0);
}

#[test]
fn windows_in_ticks() {
    assert_eq!(entry_window(DOUBLE_RESET_WINDOW_MS), Some(16_384));
    assert_eq!(entry_window(CAN_ENTRY_WINDOW_MS), Some(3_276));
    assert_eq!(entry_window(0), None);
}

#[test]
fn double_reset() {
    let user = 4 << 8;
    assert!(double_reset_requested(user, 0x1234) == DoubleReset::First);
    assert!(double_reset_requested(user, DOUBLE_RESET_MAGIC) == DoubleReset::Second);
    assert!(double_reset_requested(user | 1, 0) == DoubleReset::First);
    for kind in [0, 1, 2, 3, 5, 6, 7] {
        assert!(
            double_reset_requested(kind << 8, DOUBLE_RESET_MAGIC) == DoubleReset::Unrelated
        );
    }
}

#[test]
fn can_knock() {
    let ours = Id::Extended(CAN_REQUEST_ID);
    let knock = [0x02, 0x10, 0x02, 0, 0, 0, 0, 0];
    assert!(is_can_knock(ours, &knock, 8));
    assert!(is_can_knock(ours, &knock, 3));
    assert!(!is_can_knock(ours, &knock, 2));
    assert!(!is_can_knock(Id::Extended(1), &knock, 8));
    assert!(!is_can_knock(Id::Standard(0x41F1), &knock, 8));
    assert!(!is_can_knock(ours, &[0x02, 0x3E, 0x00], 3));
    assert!(!is_can_knock(ours, &[0x02, 0x10, 0x01], 3));
}

#[test]
fn can_window() {
    assert!(can_entry_requested(false, 10, 0, 3276) == EntryWindow::Open);
    assert!(can_entry_requested(false, 3276, 0, 3276) == EntryWindow::Closed);
    assert!(can_entry_requested(true, 4000, 0, 3276) == EntryWindow::Knocked);
}

#[test]
fn jumper_has_no_state() {
    let _jumper = CortexMJumper::new();
}

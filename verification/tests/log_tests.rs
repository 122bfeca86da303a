use bootlog::bootmeta::{BootBank, BootMeta};
use bootlog::flash_intel::{FlashError, IntelFlash};
use bootlog::port::FlashFault;
use bootlog::sim::SimFlash;

const BLOCK: usize = 32;
const META_OFFSET: usize = 32;
const META_SIZE: usize = 32;

/// A log over a 64-byte flash whose last 32-byte block holds 8 word
/// slots.
fn make_log(mem: Vec<u8>, fault: FlashFault) -> BootMeta<SimFlash> {
    let sim = SimFlash::new(mem, BLOCK, fault);
    let flash = IntelFlash { port: sim, block_size: BLOCK };
    BootMeta::new(flash, META_OFFSET, META_SIZE)
}

fn erased_image() -> Vec<u8> {
    vec![0xFFu8; 64]
}

/// An image whose log region starts with `a` bank-A slots then `b`
/// bank-B slots.
fn image_with_counts(a: usize, b: usize) -> Vec<u8> {
    let mut mem = vec![0xFFu8; 192];
    for i in 0..a {
        for t in 0..4 {
            mem[64 + 4 * i + t] = 0x11;
        }
    }
    for i in a..a + b {
        for t in 0..4 {
            mem[64 + 4 * i + t] = 0x00;
        }
    }
    mem
}

/// A wider log (16 slots) for the exhaustive policy sweep.
fn make_wide_log(mem: Vec<u8>, fault: FlashFault) -> BootMeta<SimFlash> {
    let sim = SimFlash::new(mem, 64, fault);
    let flash = IntelFlash { port: sim, block_size: 64 };
    BootMeta::new(flash, 64, 64)
}

#[test]
fn erased_log_scans_to_zero() {
    let meta = make_log(erased_image(), FlashFault::Healthy);
    assert_eq!(meta.scan(), (0, 0, 0));
}

#[test]
fn scan_is_idempotent() {
    let mut mem = erased_image();
    // slot 0: bank A, slot 1: garbage, slot 2: bank B (unreached)
    for t in 0..4 {
        mem[32 + t] = 0x11;
    }
    mem[36] = 0xDE;
    mem[37] = 0xAD;
    mem[38] = 0xBE;
    mem[39] = 0xEF;
    for t in 0..4 {
        mem[40 + t] = 0x00;
    }
    let meta = make_log(mem, FlashFault::Healthy);
    let first = meta.scan();
    let second = meta.scan();
    assert_eq!(first, second);
    assert_eq!(first, (1, 0, 1));
}

#[test]
fn unknown_word_ends_the_scan() {
    let mut mem = erased_image();
    for t in 0..4 {
        mem[32 + t] = 0x11;
    }
    mem[36] = 0xDE;
    mem[37] = 0xAD;
    mem[38] = 0xBE;
    mem[39] = 0xEF;
    let meta = make_log(mem, FlashFault::Healthy);
    assert_eq!(meta.scan(), (1, 0, 1));
}

#[test]
fn record_boot_reclaims_an_unknown_slot_for_bank_b() {
    let mut mem = erased_image();
    for t in 0..4 {
        mem[32 + t] = 0x11;
    }
    mem[36] = 0xDE;
    mem[37] = 0xAD;
    mem[38] = 0xBE;
    mem[39] = 0xEF;
    let mut meta = make_log(mem, FlashFault::Healthy);
    // the all-zero bank-B token can be programmed over any garbage
    assert_eq!(meta.record_boot(BootBank::B), Ok(()));
    assert_eq!(meta.scan(), (1, 1, 2));
}

#[test]
fn record_boot_on_incompatible_garbage_fails_for_bank_a() {
    let mut mem = erased_image();
    mem[32] = 0xDE;
    mem[33] = 0xAD;
    mem[34] = 0xBE;
    mem[35] = 0xEF;
    let mut meta = make_log(mem, FlashFault::Healthy);
    assert_eq!(meta.record_boot(BootBank::A), Err(FlashError::ProgramError));
    assert_eq!(meta.scan(), (0, 0, 0));
}

#[test]
fn append_increments_only_the_chosen_bank() {
    let mut meta = make_log(erased_image(), FlashFault::Healthy);
    assert_eq!(meta.record_boot(BootBank::B), Ok(()));
    assert_eq!(meta.scan(), (0, 1, 1));
    assert_eq!(meta.record_boot(BootBank::A), Ok(()));
    assert_eq!(meta.scan(), (1, 1, 2));
    assert_eq!(meta.record_boot(BootBank::B), Ok(()));
    assert_eq!(meta.scan(), (1, 2, 3));
}

#[test]
fn policy_is_deterministic_over_small_counts() {
    for t in 0..8u32 {
        for a in 0..8usize {
            for b in 0..8usize {
                let meta = make_wide_log(image_with_counts(a, b), FlashFault::Healthy);
                let expected = if (b as u32) < t {
                    BootBank::B
                } else if (a as u32) < t {
                    BootBank::A
                } else {
                    BootBank::B
                };
                assert_eq!(meta.choose_bank(t), expected);
            }
        }
    }
}

#[test]
fn full_log_with_unimplemented_erase_fails_without_append() {
    let mut meta = make_log(erased_image(), FlashFault::NoErase);
    for _ in 0..4 {
        assert_eq!(meta.record_boot(BootBank::B), Ok(()));
    }
    for _ in 0..4 {
        assert_eq!(meta.record_boot(BootBank::A), Ok(()));
    }
    assert_eq!(meta.scan(), (4, 4, 8));
    // full: compaction is attempted, erase fails, nothing is recorded
    assert_eq!(meta.record_boot(BootBank::B), Err(FlashError::EraseError));
    assert_eq!(meta.scan(), (4, 4, 8));
}

#[test]
fn full_log_of_valid_tokens_stays_full_through_compaction() {
    let mut meta = make_log(erased_image(), FlashFault::Healthy);
    for _ in 0..4 {
        assert_eq!(meta.record_boot(BootBank::B), Ok(()));
    }
    for _ in 0..4 {
        assert_eq!(meta.record_boot(BootBank::A), Ok(()));
    }
    assert_eq!(meta.scan(), (4, 4, 8));
    // compaction succeeds but reproduces the same counts: no free slot
    assert_eq!(meta.record_boot(BootBank::B), Err(FlashError::ProgramError));
    assert_eq!(meta.scan(), (4, 4, 8));
}

#[test]
fn full_log_with_hung_device_times_out() {
    // eight valid tokens, but the device hangs on the compaction erase
    let mut meta = make_log(image_with_counts_small(), FlashFault::Busy);
    assert_eq!(meta.scan(), (4, 4, 8));
    assert_eq!(meta.record_boot(BootBank::B), Err(FlashError::Timeout));
    assert_eq!(meta.scan(), (4, 4, 8));
}

/// A 64-byte image whose 8-slot log region is full: 4 bank-A then 4
/// bank-B tokens.
fn image_with_counts_small() -> Vec<u8> {
    let mut mem = vec![0xFFu8; 64];
    for i in 0..4 {
        for t in 0..4 {
            mem[32 + 4 * i + t] = 0x11;
        }
    }
    for i in 4..8 {
        for t in 0..4 {
            mem[32 + 4 * i + t] = 0x00;
        }
    }
    mem
}

#[test]
fn trailing_bytes_of_an_unaligned_region_are_ignored() {
    // a 30-byte region holds 7 whole word slots; the spare 2 bytes are
    // never part of the log
    let sim = SimFlash::new(erased_image(), BLOCK, FlashFault::NoErase);
    let flash = IntelFlash { port: sim, block_size: BLOCK };
    let mut meta = BootMeta::new(flash, META_OFFSET, 30);
    assert_eq!(meta.scan(), (0, 0, 0));
    for i in 1..=7u32 {
        assert_eq!(meta.record_boot(BootBank::B), Ok(()));
        assert_eq!(meta.scan(), (0, i, i as usize));
    }
    // slot 7 does not exist: the log is full at 7 entries
    assert_eq!(meta.record_boot(BootBank::B), Err(FlashError::EraseError));
    assert_eq!(meta.scan(), (0, 7, 7));
}

#[test]
fn record_boot_on_bad_vpp_reports_vpp_error() {
    let mut meta = make_log(erased_image(), FlashFault::BadVpp);
    assert_eq!(meta.record_boot(BootBank::B), Err(FlashError::VppError));
    assert_eq!(meta.scan(), (0, 0, 0));
}

#[test]
fn record_boot_on_locked_region_reports_protected() {
    let mut meta = make_log(erased_image(), FlashFault::Locked);
    assert_eq!(meta.record_boot(BootBank::A), Err(FlashError::Protected));
    assert_eq!(meta.scan(), (0, 0, 0));
}

#[test]
fn end_to_end_fail_over_scenario() {
    // capacity 8 words, max_trials 4, erase unimplemented as on the
    // constrained target
    let mut meta = make_log(erased_image(), FlashFault::NoErase);

    assert_eq!(meta.scan(), (0, 0, 0));
    assert_eq!(meta.choose_bank(4), BootBank::B);

    for i in 1..=4u32 {
        let bank = meta.choose_bank(4);
        assert_eq!(bank, BootBank::B);
        assert_eq!(meta.record_boot(bank), Ok(()));
        assert_eq!(meta.scan(), (0, i, i as usize));
    }

    // bank B has used its budget: fail over to bank A
    assert_eq!(meta.choose_bank(4), BootBank::A);

    for i in 1..=4u32 {
        let bank = meta.choose_bank(4);
        assert_eq!(bank, BootBank::A);
        assert_eq!(meta.record_boot(bank), Ok(()));
        assert_eq!(meta.scan(), (i, 4, 4 + i as usize));
    }

    // both budgets exhausted: fallback to B, log full, append needs
    // compaction, which this target cannot do
    assert_eq!(meta.scan(), (4, 4, 8));
    assert_eq!(meta.choose_bank(4), BootBank::B);
    assert_eq!(meta.record_boot(BootBank::B), Err(FlashError::EraseError));
}

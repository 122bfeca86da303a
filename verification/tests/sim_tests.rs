use bootlog::port::{
    FlashFault, FlashPort, CMD_BLOCK_ERASE_CONFIRM, CMD_BLOCK_ERASE_SETUP, CMD_CLEAR_STATUS,
    CMD_PROGRAM, CMD_READ_ARRAY, CMD_READ_STATUS, SR_ERASE_ERROR, SR_WSM_READY,
};
use bootlog::sim::SimFlash;

#[test]
fn reads_follow_the_device_mode() {
    let mut dev = SimFlash::new(vec![0x5Au8; 16], 8, FlashFault::Healthy);
    assert_eq!(dev.read8(0), 0x5A);
    dev.write8(0, CMD_READ_STATUS);
    // status mode: reads return the status register, not data
    assert_eq!(dev.read8(0), SR_WSM_READY);
    assert_eq!(dev.read8(5), SR_WSM_READY);
    dev.write8(0, CMD_READ_ARRAY);
    assert_eq!(dev.read8(5), 0x5A);
}

#[test]
fn manual_program_sequence_clears_bits() {
    let mut dev = SimFlash::new(vec![0x3Cu8; 16], 8, FlashFault::Healthy);
    dev.write8(0, CMD_CLEAR_STATUS);
    dev.write8(4, CMD_PROGRAM);
    dev.write8(4, 0x0F);
    // NOR programming is an AND: 0x3C & 0x0F == 0x0C
    assert_eq!(dev.read8(0), SR_WSM_READY);
    dev.write8(0, CMD_READ_ARRAY);
    assert_eq!(dev.read8(4), 0x0C);
    assert_eq!(dev.read8(3), 0x3C);
}

#[test]
fn manual_erase_sequence_erases_one_block() {
    let mut dev = SimFlash::new(vec![0x00u8; 16], 8, FlashFault::Healthy);
    dev.write8(0, CMD_CLEAR_STATUS);
    dev.write8(9, CMD_BLOCK_ERASE_SETUP);
    dev.write8(9, CMD_BLOCK_ERASE_CONFIRM);
    assert_eq!(dev.read8(0), SR_WSM_READY);
    dev.write8(0, CMD_READ_ARRAY);
    // the block containing offset 9 is bytes 8..16
    for off in 8..16 {
        assert_eq!(dev.read8(off), 0xFF);
    }
    for off in 0..8 {
        assert_eq!(dev.read8(off), 0x00);
    }
}

#[test]
fn bad_erase_confirm_sets_the_erase_error_bit() {
    let mut dev = SimFlash::new(vec![0x00u8; 16], 8, FlashFault::Healthy);
    dev.write8(0, CMD_CLEAR_STATUS);
    dev.write8(0, CMD_BLOCK_ERASE_SETUP);
    dev.write8(0, 0x12);
    let sr = dev.read8(0);
    assert!(sr & SR_ERASE_ERROR != 0);
    // nothing was erased
    dev.write8(0, CMD_READ_ARRAY);
    assert_eq!(dev.read8(0), 0x00);
}

#[test]
fn size_reports_the_array_length() {
    let dev = SimFlash::new(vec![0xFFu8; 48], 16, FlashFault::Healthy);
    assert_eq!(dev.size(), 48);
}

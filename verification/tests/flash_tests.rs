use bootlog::flash_intel::{FlashError, IntelFlash};
use bootlog::port::FlashFault;
use bootlog::sim::SimFlash;

fn make_flash(mem: Vec<u8>, block_size: usize, fault: FlashFault) -> IntelFlash<SimFlash> {
    IntelFlash { port: SimFlash::new(mem, block_size, fault), block_size }
}

#[test]
fn read_u8_returns_array_data() {
    let mut mem = vec![0xFFu8; 32];
    mem[3] = 0xAB;
    let flash = make_flash(mem, 16, FlashFault::Healthy);
    assert_eq!(flash.read_u8(3), 0xAB);
    assert_eq!(flash.read_u8(0), 0xFF);
}

#[test]
fn read_u32_le_assembles_little_endian() {
    let mut mem = vec![0xFFu8; 32];
    mem[8] = 0x78;
    mem[9] = 0x56;
    mem[10] = 0x34;
    mem[11] = 0x12;
    let flash = make_flash(mem, 16, FlashFault::Healthy);
    assert_eq!(flash.read_u32_le(8), 0x1234_5678);
}

#[test]
fn read_slice_fills_buffer() {
    let mut mem = vec![0u8; 32];
    for i in 0..32 {
        mem[i] = i as u8;
    }
    let flash = make_flash(mem, 16, FlashFault::Healthy);
    let mut buf = vec![0u8; 4];
    flash.read_slice(10, &mut buf);
    assert_eq!(buf, vec![10, 11, 12, 13]);
}

#[test]
fn program_byte_rejects_bit_set_transition() {
    // value 0xF0 needs bits that current 0x0F has cleared: rejected
    // before any hardware command, and the device is left untouched.
    let mut mem = vec![0xFFu8; 32];
    mem[5] = 0x0F;
    let mut flash = make_flash(mem, 16, FlashFault::Healthy);
    assert_eq!(flash.program_byte(5, 0xF0), Err(FlashError::ProgramError));
    assert_eq!(flash.read_u8(5), 0x0F);
}

#[test]
fn program_byte_clears_bits() {
    let mut flash = make_flash(vec![0xFFu8; 32], 16, FlashFault::Healthy);
    assert_eq!(flash.program_byte(6, 0x12), Ok(()));
    assert_eq!(flash.read_u8(6), 0x12);
    // a further clear-only transition is allowed
    assert_eq!(flash.program_byte(6, 0x02), Ok(()));
    assert_eq!(flash.read_u8(6), 0x02);
    // but bits cannot come back
    assert_eq!(flash.program_byte(6, 0x0F), Err(FlashError::ProgramError));
    assert_eq!(flash.read_u8(6), 0x02);
}

#[test]
fn program_writes_all_bytes() {
    let mut flash = make_flash(vec![0xFFu8; 32], 16, FlashFault::Healthy);
    let data = vec![0x11u8, 0x22, 0x33];
    assert_eq!(flash.program(4, &data[..]), Ok(()));
    assert_eq!(flash.read_u8(4), 0x11);
    assert_eq!(flash.read_u8(5), 0x22);
    assert_eq!(flash.read_u8(6), 0x33);
}

#[test]
fn program_stops_at_first_stuck_byte_without_rollback() {
    let mut mem = vec![0xFFu8; 32];
    mem[1] = 0x00;
    let mut flash = make_flash(mem, 16, FlashFault::Healthy);
    let data = vec![0x01u8, 0x01, 0x01];
    assert_eq!(flash.program(0, &data[..]), Err(FlashError::ProgramError));
    // byte 0 was already written and stays written
    assert_eq!(flash.read_u8(0), 0x01);
    assert_eq!(flash.read_u8(1), 0x00);
    assert_eq!(flash.read_u8(2), 0xFF);
}

#[test]
fn block_erase_sets_all_bits_of_the_block() {
    let mut flash = make_flash(vec![0xFFu8; 64], 16, FlashFault::Healthy);
    assert_eq!(flash.program_byte(17, 0x00), Ok(()));
    assert_eq!(flash.program_byte(40, 0x00), Ok(()));
    assert_eq!(flash.block_erase(1), Ok(()));
    for off in 16..32 {
        assert_eq!(flash.read_u8(off), 0xFF);
    }
    // bytes outside the erased block keep their data
    assert_eq!(flash.read_u8(40), 0x00);
}

#[test]
fn block_erase_reports_unimplemented_erase() {
    let mut flash = make_flash(vec![0x00u8; 64], 16, FlashFault::NoErase);
    assert_eq!(flash.block_erase(2), Err(FlashError::EraseError));
    assert_eq!(flash.read_u8(32), 0x00);
}

#[test]
fn busy_device_times_out() {
    let mut flash = make_flash(vec![0xFFu8; 32], 16, FlashFault::Busy);
    assert_eq!(flash.program_byte(0, 0x00), Err(FlashError::Timeout));
    assert_eq!(flash.block_erase(0), Err(FlashError::Timeout));
    // reads still work afterwards: the driver returned to array mode
    assert_eq!(flash.read_u8(0), 0xFF);
}

#[test]
fn vpp_fault_is_reported() {
    let mut flash = make_flash(vec![0xFFu8; 32], 16, FlashFault::BadVpp);
    assert_eq!(flash.program_byte(0, 0x00), Err(FlashError::VppError));
    assert_eq!(flash.block_erase(0), Err(FlashError::VppError));
    assert_eq!(flash.read_u8(0), 0xFF);
}

#[test]
fn protected_device_is_reported() {
    let mut flash = make_flash(vec![0xFFu8; 32], 16, FlashFault::Locked);
    assert_eq!(flash.program_byte(0, 0x00), Err(FlashError::Protected));
    assert_eq!(flash.block_erase(0), Err(FlashError::Protected));
    assert_eq!(flash.read_u8(0), 0xFF);
}

#[test]
fn bit_transition_check_precedes_hardware_fault() {
    // even on a hung device the forbidden transition is caught locally
    let mut mem = vec![0xFFu8; 32];
    mem[2] = 0x0F;
    let mut flash = make_flash(mem, 16, FlashFault::Busy);
    assert_eq!(flash.program_byte(2, 0xF0), Err(FlashError::ProgramError));
    assert_eq!(flash.read_u8(2), 0x0F);
}

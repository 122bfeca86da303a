//! Model of a CFI NOR flash device behind a byte-wide command window.
//!
//! A write into the flash window is a command (or, after a program/erase
//! setup command, its data/confirm byte); a read returns either array data
//! or the status register, depending on the device mode.  [`write_step`] and
//! [`read_result`] give the exact semantics; the [`FlashPort`] trait states
//! them as the contract every port implementation must meet.

use vstd::prelude::*;

verus! {

/// Return the device to array-read mode.
pub const CMD_READ_ARRAY: u8 = 0xFF;
/// Switch reads to the status register.
pub const CMD_READ_STATUS: u8 = 0x70;
/// Clear the status register's error bits.
pub const CMD_CLEAR_STATUS: u8 = 0x50;
/// First half of the block-erase sequence.
pub const CMD_BLOCK_ERASE_SETUP: u8 = 0x20;
/// Second half of the block-erase sequence.
pub const CMD_BLOCK_ERASE_CONFIRM: u8 = 0xD0;
/// Program setup: the next write carries the data byte.
pub const CMD_PROGRAM: u8 = 0x40;

/// Status register: write state machine is ready.
pub const SR_WSM_READY: u8 = 0x80;
/// Status register: erase failed.
pub const SR_ERASE_ERROR: u8 = 0x20;
/// Status register: program failed.
pub const SR_PROGRAM_ERROR: u8 = 0x10;
/// Status register: program/erase supply voltage fault.
pub const SR_VPP_ERROR: u8 = 0x08;
/// Status register: the target region is write-protected.
pub const SR_PROTECT_ERROR: u8 = 0x02;

/// What a read of the flash window returns, and how the next write is
/// interpreted.
#[derive(Clone, Copy, PartialEq, Eq, Structural, Debug)]
pub enum CfiMode {
    /// Reads return array data; writes are commands.
    ReadArray,
    /// Reads return the status register; writes are commands.
    ReadStatus,
    /// A program command was issued; the next write is the data byte.
    ProgramSetup,
    /// An erase-setup command was issued; the next write must confirm it.
    EraseSetup,
}

/// Health of the device: which outcome every program/erase operation has.
///
/// A fault is a fixed property of a device instance (a part without erase
/// support, a missing programming voltage, a locked region, a hung write
/// state machine), not a per-operation roll of the dice.
#[derive(Clone, Copy, PartialEq, Eq, Structural, Debug)]
pub enum FlashFault {
    /// Program and erase both work.
    Healthy,
    /// Program works; erase always fails with the erase-error status bit.
    NoErase,
    /// The write state machine never reports ready: every operation hangs.
    Busy,
    /// Every operation fails with the supply-voltage status bit.
    BadVpp,
    /// Every operation fails with the write-protection status bit.
    Locked,
}

/// The whole observable state of a flash device.
#[verifier::ext_equal]
pub struct FlashState {
    /// Contents of the flash array.
    pub mem: Seq<u8>,
    /// Current interpretation of reads and writes.
    pub mode: CfiMode,
    /// Status register value.
    pub status: u8,
    /// Fixed health of this device instance.
    pub fault: FlashFault,
    /// Erase-block size in bytes.
    pub block_size: nat,
    /// How many writes the window has received (counts every command,
    /// data and confirm byte).
    pub writes: nat,
}

/// `mem` with every byte of `[base, base + count)` erased to all-ones.
pub open spec fn erase_bytes(mem: Seq<u8>, base: int, count: int) -> Seq<u8> {
    mem.map(|i: int, v: u8| if base <= i && i < base + count { 0xFFu8 } else { v })
}

/// What a read of the window at `off` returns.
pub open spec fn read_result(s: FlashState, off: int) -> u8 {
    if s.mode == CfiMode::ReadArray {
        s.mem[off]
    } else {
        s.status
    }
}

/// Effect of the data byte that follows a program command: NOR programming
/// can only clear bits, so the cell keeps `old & data`.
pub open spec fn program_data_step(t: FlashState, off: int, b: u8) -> FlashState {
    match t.fault {
        FlashFault::Busy => FlashState { mode: CfiMode::ReadStatus, status: 0, ..t },
        FlashFault::BadVpp => FlashState {
            mode: CfiMode::ReadStatus,
            status: SR_WSM_READY | SR_VPP_ERROR,
            ..t
        },
        FlashFault::Locked => FlashState {
            mode: CfiMode::ReadStatus,
            status: SR_WSM_READY | SR_PROTECT_ERROR,
            ..t
        },
        _ => FlashState {
            mode: CfiMode::ReadStatus,
            status: SR_WSM_READY,
            mem: t.mem.update(off, t.mem[off] & b),
            ..t
        },
    }
}

/// Effect of the erase-confirm byte: the block containing `off` is erased
/// to all-ones, unless the device's fault says otherwise.
pub open spec fn erase_confirm_step(t: FlashState, off: int) -> FlashState {
    match t.fault {
        FlashFault::Busy => FlashState { mode: CfiMode::ReadStatus, status: 0, ..t },
        FlashFault::BadVpp => FlashState {
            mode: CfiMode::ReadStatus,
            status: SR_WSM_READY | SR_VPP_ERROR,
            ..t
        },
        FlashFault::Locked => FlashState {
            mode: CfiMode::ReadStatus,
            status: SR_WSM_READY | SR_PROTECT_ERROR,
            ..t
        },
        FlashFault::NoErase => FlashState {
            mode: CfiMode::ReadStatus,
            status: SR_WSM_READY | SR_ERASE_ERROR,
            ..t
        },
        FlashFault::Healthy => FlashState {
            mode: CfiMode::ReadStatus,
            status: SR_WSM_READY,
            mem: erase_bytes(
                t.mem,
                off / (t.block_size as int) * (t.block_size as int),
                t.block_size as int,
            ),
            ..t
        },
    }
}

/// Effect of a command byte written while reads return data or status.
pub open spec fn command_step(t: FlashState, b: u8) -> FlashState {
    if b == CMD_READ_ARRAY {
        FlashState { mode: CfiMode::ReadArray, ..t }
    } else if b == CMD_READ_STATUS {
        FlashState { mode: CfiMode::ReadStatus, ..t }
    } else if b == CMD_CLEAR_STATUS {
        FlashState { mode: CfiMode::ReadStatus, status: SR_WSM_READY, ..t }
    } else if b == CMD_PROGRAM {
        FlashState { mode: CfiMode::ProgramSetup, ..t }
    } else if b == CMD_BLOCK_ERASE_SETUP {
        FlashState { mode: CfiMode::EraseSetup, ..t }
    } else {
        FlashState { mode: CfiMode::ReadArray, ..t }
    }
}

/// Effect of a write into the flash window: the device's one-step
/// transition function.
pub open spec fn write_step(s: FlashState, off: int, b: u8) -> FlashState {
    let t = FlashState { writes: s.writes + 1, ..s };
    match s.mode {
        CfiMode::ProgramSetup => program_data_step(t, off, b),
        CfiMode::EraseSetup => if b == CMD_BLOCK_ERASE_CONFIRM {
            erase_confirm_step(t, off)
        } else {
            FlashState {
                mode: CfiMode::ReadStatus,
                status: SR_WSM_READY | SR_ERASE_ERROR,
                ..t
            }
        },
        _ => command_step(t, b),
    }
}

/// Byte-wide access to a flash window.
///
/// An implementation is a device (or a view of one) whose behaviour is the
/// state machine above: reads are given by [`read_result`] and never change
/// the device, writes step the device by [`write_step`].
pub trait FlashPort: Sized {
    /// The device state this port gives access to.  An implementation
    /// outside the verified library may leave this default, unknowable
    /// state; nothing is then promised about the port's behaviour.
    open spec fn state(&self) -> FlashState {
        arbitrary()
    }

    /// Size of the flash array in bytes.
    fn size(&self) -> (n: usize)
        ensures
            n == self.state().mem.len(),
    ;

    /// Read one byte from the window.
    fn read8(&self, off: usize) -> (r: u8)
        requires
            off < self.state().mem.len(),
        ensures
            r == read_result(self.state(), off as int),
    ;

    /// Write one byte into the window.
    fn write8(&mut self, off: usize, b: u8)
        requires
            off < old(self).state().mem.len(),
            old(self).state().block_size >= 1,
        ensures
            final(self).state() == write_step(old(self).state(), off as int, b),
    ;
}

} // verus!

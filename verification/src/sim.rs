//! An in-memory flash device: the one port implementation the library
//! itself provides, proved to follow the device model in [`crate::port`].
//!
//! It doubles as the test double for the driver: every command written to
//! it is counted, and its fault knob forces each hardware failure.

use vstd::prelude::*;
use crate::port::{
    CfiMode, FlashFault, FlashPort, FlashState, erase_bytes, write_step,
    CMD_BLOCK_ERASE_CONFIRM, CMD_BLOCK_ERASE_SETUP, CMD_CLEAR_STATUS, CMD_PROGRAM,
    CMD_READ_ARRAY, CMD_READ_STATUS, SR_ERASE_ERROR, SR_PROTECT_ERROR, SR_VPP_ERROR,
    SR_WSM_READY,
};

verus! {

/// A NOR flash device held in ordinary memory.
pub struct SimFlash {
    /// The flash array.
    pub mem: Vec<u8>,
    /// Current interpretation of reads and writes.
    pub mode: CfiMode,
    /// Status register.
    pub status: u8,
    /// Fixed health of this device.
    pub fault: FlashFault,
    /// Erase-block size in bytes.
    pub block_size: usize,
    /// Count of writes received by the window.
    pub writes: Ghost<nat>,
}

/// Set every byte of `mem[base..end]` to all-ones.
fn fill_erased(mem: &mut Vec<u8>, base: usize, end: usize)
    requires
        base <= end,
        end <= old(mem).len(),
    ensures
        final(mem)@.len() == old(mem)@.len(),
        forall|j: int|
            0 <= j < old(mem)@.len() ==> final(mem)@[j] == (if base <= j && j < end {
                0xFFu8
            } else {
                old(mem)@[j]
            }),
{
    let mut i = base;
    while i < end
        invariant
            base <= i <= end,
            end <= mem.len(),
            mem@.len() == old(mem)@.len(),
            forall|j: int|
                0 <= j < mem@.len() ==> mem@[j] == (if base <= j && j < i {
                    0xFFu8
                } else {
                    old(mem)@[j]
                }),
        decreases end - i,
    {
        mem.set(i, 0xFF);
        i = i + 1;
    }
}

impl SimFlash {
    /// A fresh device over the given array contents, in array-read mode
    /// with a clean, ready status.
    pub fn new(mem: Vec<u8>, block_size: usize, fault: FlashFault) -> (r: Self)
        ensures
            r.state() == (FlashState {
                mem: mem@,
                mode: CfiMode::ReadArray,
                status: SR_WSM_READY,
                fault: fault,
                block_size: block_size as nat,
                writes: 0,
            }),
    {
        SimFlash {
            mem,
            mode: CfiMode::ReadArray,
            status: SR_WSM_READY,
            fault,
            block_size,
            writes: Ghost(0),
        }
    }
}

impl FlashPort for SimFlash {
    open spec fn state(&self) -> FlashState {
        FlashState {
            mem: self.mem@,
            mode: self.mode,
            status: self.status,
            fault: self.fault,
            block_size: self.block_size as nat,
            writes: self.writes@,
        }
    }

    fn size(&self) -> (n: usize) {
        self.mem.len()
    }

    fn read8(&self, off: usize) -> (r: u8) {
        match self.mode {
            CfiMode::ReadArray => self.mem[off],
            _ => self.status,
        }
    }

    fn write8(&mut self, off: usize, b: u8) {
        let ghost s0 = self.state();
        self.writes = Ghost(self.writes@ + 1);
        match self.mode {
            CfiMode::ProgramSetup => {
                self.mode = CfiMode::ReadStatus;
                match self.fault {
                    FlashFault::Busy => {
                        self.status = 0;
                    },
                    FlashFault::BadVpp => {
                        self.status = SR_WSM_READY | SR_VPP_ERROR;
                    },
                    FlashFault::Locked => {
                        self.status = SR_WSM_READY | SR_PROTECT_ERROR;
                    },
                    _ => {
                        let cur = self.mem[off];
                        self.mem.set(off, cur & b);
                        self.status = SR_WSM_READY;
                    },
                }
                proof {
                    assert(self.state() =~= write_step(s0, off as int, b));
                }
            },
            CfiMode::EraseSetup => {
                self.mode = CfiMode::ReadStatus;
                if b == CMD_BLOCK_ERASE_CONFIRM {
                    match self.fault {
                        FlashFault::Busy => {
                            self.status = 0;
                        },
                        FlashFault::BadVpp => {
                            self.status = SR_WSM_READY | SR_VPP_ERROR;
                        },
                        FlashFault::Locked => {
                            self.status = SR_WSM_READY | SR_PROTECT_ERROR;
                        },
                        FlashFault::NoErase => {
                            self.status = SR_WSM_READY | SR_ERASE_ERROR;
                        },
                        FlashFault::Healthy => {
                            proof {
                                vstd::arithmetic::div_mod::lemma_fundamental_div_mod(
                                    off as int,
                                    self.block_size as int,
                                );
                                vstd::arithmetic::div_mod::lemma_mod_bound(
                                    off as int,
                                    self.block_size as int,
                                );
                            }
                            let base = off / self.block_size * self.block_size;
                            let len = self.mem.len();
                            let end = if len - base >= self.block_size {
                                base + self.block_size
                            } else {
                                len
                            };
                            fill_erased(&mut self.mem, base, end);
                            self.status = SR_WSM_READY;
                            proof {
                                assert(self.mem@ =~= erase_bytes(
                                    s0.mem,
                                    base as int,
                                    self.block_size as int,
                                ));
                            }
                        },
                    }
                } else {
                    self.status = SR_WSM_READY | SR_ERASE_ERROR;
                }
                proof {
                    assert(self.state() =~= write_step(s0, off as int, b));
                }
            },
            _ => {
                if b == CMD_READ_ARRAY {
                    self.mode = CfiMode::ReadArray;
                } else if b == CMD_READ_STATUS {
                    self.mode = CfiMode::ReadStatus;
                } else if b == CMD_CLEAR_STATUS {
                    self.mode = CfiMode::ReadStatus;
                    self.status = SR_WSM_READY;
                } else if b == CMD_PROGRAM {
                    self.mode = CfiMode::ProgramSetup;
                } else if b == CMD_BLOCK_ERASE_SETUP {
                    self.mode = CfiMode::EraseSetup;
                } else {
                    self.mode = CfiMode::ReadArray;
                }
                proof {
                    assert(self.state() =~= write_step(s0, off as int, b));
                }
            },
        }
    }
}

} // verus!

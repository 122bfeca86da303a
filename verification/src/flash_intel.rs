//! Intel-style CFI NOR driver over a [`FlashPort`]: reads, a bit-transition
//! checked program operation, and block erase, each sequenced through the
//! command protocol and proved against the device model.

use vstd::prelude::*;
use crate::port::{
    CfiMode, FlashFault, FlashPort, erase_bytes, write_step,
    CMD_BLOCK_ERASE_CONFIRM, CMD_BLOCK_ERASE_SETUP, CMD_CLEAR_STATUS, CMD_PROGRAM,
    CMD_READ_ARRAY, CMD_READ_STATUS, SR_ERASE_ERROR, SR_PROGRAM_ERROR, SR_PROTECT_ERROR,
    SR_VPP_ERROR, SR_WSM_READY,
};

verus! {

/// How many status polls a program or erase operation waits before it is
/// declared timed out.
pub const MAX_POLLS: usize = 1_000_000;

/// Failures a flash operation can surface.
#[derive(Debug, Clone, Copy, PartialEq, Eq, Structural)]
pub enum FlashError {
    /// The status-ready bit was not observed within the poll bound.
    Timeout,
    /// The hardware rejected a program operation, or a forbidden
    /// zero-to-one bit transition was detected before touching hardware.
    ProgramError,
    /// The hardware rejected or cannot perform a block erase.
    EraseError,
    /// Program/erase supply voltage fault.
    VppError,
    /// The target region is write-protected.
    Protected,
}

/// CFI NOR driver: command sequencing, status decoding and the NOR
/// bit-transition check, over any [`FlashPort`].
pub struct IntelFlash<P: FlashPort> {
    /// The flash window.
    pub port: P,
    /// Erase-block size in bytes.
    pub block_size: usize,
}

/// `n` is a power of two.
pub open spec fn is_power_of_two(n: int) -> bool
    decreases n,
{
    if n <= 0 {
        false
    } else if n == 1 {
        true
    } else {
        n % 2 == 0 && is_power_of_two(n / 2)
    }
}

/// NOR programming can only clear bits: `value` can be stored over `cur`
/// exactly when it sets no bit that `cur` has cleared.
pub open spec fn byte_fits(cur: u8, value: u8) -> bool {
    (value | cur) == cur
}

/// The little-endian 32-bit word whose bytes start at `a`.
pub open spec fn word_at(mem: Seq<u8>, a: int) -> int {
    mem[a] + mem[a + 1] * 0x100 + mem[a + 2] * 0x10000 + mem[a + 3] * 0x1000000
}

/// Index of the first byte of `data` that cannot be programmed over the
/// bytes at `off`, scanning from `i`; `data.len()` if every byte fits.
pub open spec fn first_stuck_from(mem: Seq<u8>, off: int, data: Seq<u8>, i: int) -> int
    decreases data.len() - i,
{
    if i < 0 || i >= data.len() {
        data.len() as int
    } else if !byte_fits(mem[off + i], data[i]) {
        i
    } else {
        first_stuck_from(mem, off, data, i + 1)
    }
}

/// Index of the first byte of `data` that cannot be programmed at `off`.
pub open spec fn first_stuck(mem: Seq<u8>, off: int, data: Seq<u8>) -> int {
    first_stuck_from(mem, off, data, 0)
}

/// `mem` with the first `k` bytes of `data` stored at `off`.
pub open spec fn programmed(mem: Seq<u8>, off: int, data: Seq<u8>, k: int) -> Seq<u8>
    decreases k,
{
    if k <= 0 {
        mem
    } else {
        programmed(mem, off, data, k - 1).update(off + (k - 1), data[k - 1])
    }
}

/// What each byte of `programmed` is, and that the length is kept.
pub proof fn lemma_programmed_index(mem: Seq<u8>, off: int, data: Seq<u8>, k: int)
    requires
        0 <= off,
        0 <= k <= data.len(),
        off + data.len() <= mem.len(),
    ensures
        programmed(mem, off, data, k).len() == mem.len(),
        forall|j: int|
            0 <= j < mem.len() ==> programmed(mem, off, data, k)[j] == (if off <= j < off + k {
                data[j - off]
            } else {
                mem[j]
            }),
    decreases k,
{
    if k > 0 {
        lemma_programmed_index(mem, off, data, k - 1);
    }
}

/// `first_stuck` lies between `i` and `data.len()` when scanning from `i`.
pub proof fn lemma_first_stuck_bounds(mem: Seq<u8>, off: int, data: Seq<u8>, i: int)
    requires
        0 <= i <= data.len(),
    ensures
        i <= first_stuck_from(mem, off, data, i) <= data.len(),
    decreases data.len() - i,
{
    if i < data.len() && byte_fits(mem[off + i], data[i]) {
        lemma_first_stuck_bounds(mem, off, data, i + 1);
    }
}

/// If every byte before `i` fits and byte `i` (when there is one) does
/// not, then `i` is exactly where programming gets stuck.
pub proof fn lemma_first_stuck_at(mem: Seq<u8>, off: int, data: Seq<u8>, i: int)
    requires
        0 <= i <= data.len(),
        forall|j: int| 0 <= j < i ==> byte_fits(mem[off + j], data[j]),
        i < data.len() ==> !byte_fits(mem[off + i], data[i]),
    ensures
        first_stuck(mem, off, data) == i,
{
    lemma_first_stuck_step(mem, off, data, 0, i);
}

proof fn lemma_first_stuck_step(mem: Seq<u8>, off: int, data: Seq<u8>, lo: int, i: int)
    requires
        0 <= lo <= i <= data.len(),
        forall|j: int| lo <= j < i ==> byte_fits(mem[off + j], data[j]),
        i < data.len() ==> !byte_fits(mem[off + i], data[i]),
    ensures
        first_stuck_from(mem, off, data, lo) == i,
    decreases i - lo,
{
    if lo < i {
        lemma_first_stuck_step(mem, off, data, lo + 1, i);
    }
}

/// Facts about the status-register constants that status decoding uses.
proof fn lemma_status_bits()
    by (bit_vector)
    ensures
        SR_WSM_READY & SR_WSM_READY != 0,
        (SR_WSM_READY | SR_VPP_ERROR) & SR_WSM_READY != 0,
        (SR_WSM_READY | SR_PROTECT_ERROR) & SR_WSM_READY != 0,
        (SR_WSM_READY | SR_ERASE_ERROR) & SR_WSM_READY != 0,
        0u8 & SR_WSM_READY == 0,
        SR_WSM_READY & SR_PROGRAM_ERROR == 0,
        SR_WSM_READY & SR_VPP_ERROR == 0,
        SR_WSM_READY & SR_PROTECT_ERROR == 0,
        SR_WSM_READY & SR_ERASE_ERROR == 0,
        (SR_WSM_READY | SR_VPP_ERROR) & SR_PROGRAM_ERROR == 0,
        (SR_WSM_READY | SR_VPP_ERROR) & SR_VPP_ERROR != 0,
        (SR_WSM_READY | SR_VPP_ERROR) & SR_ERASE_ERROR == 0,
        (SR_WSM_READY | SR_PROTECT_ERROR) & SR_PROGRAM_ERROR == 0,
        (SR_WSM_READY | SR_PROTECT_ERROR) & SR_VPP_ERROR == 0,
        (SR_WSM_READY | SR_PROTECT_ERROR) & SR_PROTECT_ERROR != 0,
        (SR_WSM_READY | SR_PROTECT_ERROR) & SR_ERASE_ERROR == 0,
        (SR_WSM_READY | SR_ERASE_ERROR) & SR_ERASE_ERROR != 0,
{
}

/// Facts about NOR bit transitions: a fitting byte is stored exactly, an
/// erased cell accepts anything, and an all-zero byte always fits.
pub proof fn lemma_nor_bits(cur: u8, value: u8)
    by (bit_vector)
    ensures
        (value | cur) == cur ==> (cur & value) == value,
        (value | 0xFFu8) == 0xFFu8,
        (0u8 | cur) == cur,
{
}

impl<P: FlashPort> IntelFlash<P> {
    /// Contents of the flash array behind the port.
    pub open spec fn mem(&self) -> Seq<u8> {
        self.port.state().mem
    }

    /// Fixed health of the device behind the port.
    pub open spec fn fault(&self) -> FlashFault {
        self.port.state().fault
    }

    /// The driver's invariant: the recorded block size is the device's,
    /// is a power of two, and the device is idle in array-read mode.
    pub open spec fn wf(&self) -> bool {
        &&& self.port.state().block_size == self.block_size as nat
        &&& self.block_size >= 1
        &&& is_power_of_two(self.block_size as int)
        &&& self.port.state().mode == CfiMode::ReadArray
    }

    /// Everything a command sequence must leave alone: the array
    /// contents, the device's health, and its geometry.
    pub open spec fn same_array(&self, other: &Self) -> bool {
        &&& self.port.state().mem == other.port.state().mem
        &&& self.port.state().fault == other.port.state().fault
        &&& self.port.state().block_size == other.port.state().block_size
        &&& self.block_size == other.block_size
    }

    /// Read the byte at `off`.
    pub fn read_u8(&self, off: usize) -> (r: u8)
        requires
            self.wf(),
            off < self.mem().len(),
        ensures
            r == self.mem()[off as int],
    {
        self.port.read8(off)
    }

    /// Issue a command byte at `offset`.
    fn write_cmd8(&mut self, offset: usize, cmd: u8)
        requires
            offset < old(self).mem().len(),
            old(self).port.state().block_size >= 1,
        ensures
            final(self).port.state() == write_step(old(self).port.state(), offset as int, cmd),
            final(self).block_size == old(self).block_size,
    {
        self.port.write8(offset, cmd);
    }

    /// Write a data byte at `offset` (the second half of a program
    /// sequence).
    fn write_data8(&mut self, offset: usize, data: u8)
        requires
            offset < old(self).mem().len(),
            old(self).port.state().block_size >= 1,
        ensures
            final(self).port.state() == write_step(old(self).port.state(), offset as int, data),
            final(self).block_size == old(self).block_size,
    {
        self.port.write8(offset, data);
    }

    /// Switch reads to the status register.
    fn enter_read_status(&mut self)
        requires
            old(self).mem().len() >= 1,
            old(self).port.state().block_size >= 1,
            old(self).port.state().mode == CfiMode::ReadArray || old(self).port.state().mode
                == CfiMode::ReadStatus,
        ensures
            final(self).same_array(&*old(self)),
            final(self).port.state().mode == CfiMode::ReadStatus,
            final(self).port.state().status == old(self).port.state().status,
    {
        self.write_cmd8(0, CMD_READ_STATUS);
    }

    /// Clear the status register's error bits.
    fn clear_status(&mut self)
        requires
            old(self).mem().len() >= 1,
            old(self).port.state().block_size >= 1,
            old(self).port.state().mode == CfiMode::ReadArray || old(self).port.state().mode
                == CfiMode::ReadStatus,
        ensures
            final(self).same_array(&*old(self)),
            final(self).port.state().mode == CfiMode::ReadStatus,
            final(self).port.state().status == SR_WSM_READY,
    {
        self.write_cmd8(0, CMD_CLEAR_STATUS);
    }

    /// Read the status register.
    fn read_status(&self) -> (r: u8)
        requires
            self.mem().len() >= 1,
            self.port.state().mode == CfiMode::ReadStatus,
        ensures
            r == self.port.state().status,
    {
        self.port.read8(0)
    }

    /// Return the device to array-read mode, so subsequent plain reads
    /// return data rather than stale status.
    fn return_to_read_array(&mut self)
        requires
            old(self).mem().len() >= 1,
            old(self).port.state().block_size >= 1,
            old(self).port.state().mode == CfiMode::ReadArray || old(self).port.state().mode
                == CfiMode::ReadStatus,
        ensures
            final(self).same_array(&*old(self)),
            final(self).port.state().mode == CfiMode::ReadArray,
            final(self).port.state().status == old(self).port.state().status,
    {
        self.write_cmd8(0, CMD_READ_ARRAY);
    }

    /// Poll the status register until the write state machine reports
    /// ready, at most `max_polls` times.
    fn wait_ready(&mut self, max_polls: usize) -> (r: Result<u8, FlashError>)
        requires
            old(self).mem().len() >= 1,
            old(self).port.state().block_size >= 1,
            old(self).port.state().mode == CfiMode::ReadArray || old(self).port.state().mode
                == CfiMode::ReadStatus,
            max_polls >= 1,
        ensures
            final(self).same_array(&*old(self)),
            final(self).port.state().mode == CfiMode::ReadStatus,
            final(self).port.state().status == old(self).port.state().status,
            old(self).port.state().status & SR_WSM_READY != 0 ==> r == Ok::<u8, FlashError>(
                old(self).port.state().status,
            ),
            old(self).port.state().status & SR_WSM_READY == 0 ==> r == Err::<u8, FlashError>(
                FlashError::Timeout,
            ),
    {
        self.enter_read_status();
        let mut i: usize = 0;
        loop
            invariant
                i < max_polls,
                self.mem().len() >= 1,
                self.same_array(&*old(self)),
                self.port.state().mode == CfiMode::ReadStatus,
                self.port.state().status == old(self).port.state().status,
            decreases max_polls - i,
        {
            let sr = self.read_status();
            if sr & SR_WSM_READY != 0 {
                return Ok(sr);
            }
            i = i + 1;
            if i >= max_polls {
                return Err(FlashError::Timeout);
            }
        }
    }

    /// Read `buf.len()` bytes starting from `flash_offset`.
    pub fn read_slice(&self, flash_offset: usize, buf: &mut Vec<u8>)
        requires
            self.wf(),
            flash_offset + old(buf).len() <= self.mem().len(),
        ensures
            final(buf).len() == old(buf).len(),
            forall|i: int|
                0 <= i < old(buf).len() ==> final(buf)[i] == self.mem()[flash_offset + i],
    {
        let total = self.port.size();
        let n = buf.len();
        let mut i: usize = 0;
        while i < n
            invariant
                i <= n,
                buf.len() == n,
                self.wf(),
                total == self.mem().len(),
                flash_offset + n <= self.mem().len(),
                forall|j: int| 0 <= j < i ==> buf[j] == self.mem()[flash_offset + j],
            decreases n - i,
        {
            let b = self.read_u8(flash_offset + i);
            buf.set(i, b);
            i = i + 1;
        }
    }

    /// Read a little-endian 32-bit word from flash.
    pub fn read_u32_le(&self, flash_offset: usize) -> (r: u32)
        requires
            self.wf(),
            flash_offset + 4 <= self.mem().len(),
        ensures
            r as int == word_at(self.mem(), flash_offset as int),
    {
        let _total = self.port.size();
        let b0 = self.read_u8(flash_offset);
        let b1 = self.read_u8(flash_offset + 1);
        let b2 = self.read_u8(flash_offset + 2);
        let b3 = self.read_u8(flash_offset + 3);
        b0 as u32 + b1 as u32 * 0x100 + b2 as u32 * 0x10000 + b3 as u32 * 0x1000000
    }

    /// Program a single byte at `offset`.
    ///
    /// A byte that would need a zero-to-one bit transition is rejected
    /// before any hardware command is issued: the device receives no
    /// write at all. Otherwise the outcome is decided by the device's
    /// health, and the device is returned to array-read mode on every
    /// path, timeout included.
    pub fn program_byte(&mut self, offset: usize, value: u8) -> (r: Result<(), FlashError>)
        requires
            old(self).wf(),
            offset < old(self).mem().len(),
        ensures
            final(self).wf(),
            final(self).block_size == old(self).block_size,
            final(self).fault() == old(self).fault(),
            final(self).mem().len() == old(self).mem().len(),
            !byte_fits(old(self).mem()[offset as int], value) ==> {
                &&& r == Err::<(), FlashError>(FlashError::ProgramError)
                &&& final(self).port.state() == old(self).port.state()
            },
            byte_fits(old(self).mem()[offset as int], value) ==> match old(self).fault() {
                FlashFault::Healthy | FlashFault::NoErase => {
                    &&& r == Ok::<(), FlashError>(())
                    &&& final(self).mem() == old(self).mem().update(offset as int, value)
                },
                FlashFault::Busy => {
                    &&& r == Err::<(), FlashError>(FlashError::Timeout)
                    &&& final(self).mem() == old(self).mem()
                },
                FlashFault::BadVpp => {
                    &&& r == Err::<(), FlashError>(FlashError::VppError)
                    &&& final(self).mem() == old(self).mem()
                },
                FlashFault::Locked => {
                    &&& r == Err::<(), FlashError>(FlashError::Protected)
                    &&& final(self).mem() == old(self).mem()
                },
            },
    {
        let current = self.read_u8(offset);
        if (value | current) != current {
            return Err(FlashError::ProgramError);
        }
        proof {
            lemma_nor_bits(current, value);
            lemma_status_bits();
        }
        self.clear_status();
        self.write_cmd8(offset, CMD_PROGRAM);
        self.write_data8(offset, value);
        match self.wait_ready(MAX_POLLS) {
            Err(e) => {
                self.return_to_read_array();
                Err(e)
            },
            Ok(sr) => {
                if sr & SR_PROGRAM_ERROR != 0 {
                    self.return_to_read_array();
                    Err(FlashError::ProgramError)
                } else if sr & SR_VPP_ERROR != 0 {
                    self.return_to_read_array();
                    Err(FlashError::VppError)
                } else if sr & SR_PROTECT_ERROR != 0 {
                    self.return_to_read_array();
                    Err(FlashError::Protected)
                } else {
                    self.return_to_read_array();
                    Ok(())
                }
            },
        }
    }

    /// Program `data` at increasing offsets from `flash_offset`, one byte
    /// at a time; stop at the first error without rolling back bytes
    /// already written.
    pub fn program(&mut self, flash_offset: usize, data: &[u8]) -> (r: Result<(), FlashError>)
        requires
            old(self).wf(),
            flash_offset + data@.len() <= old(self).mem().len(),
        ensures
            final(self).wf(),
            final(self).block_size == old(self).block_size,
            final(self).fault() == old(self).fault(),
            final(self).mem().len() == old(self).mem().len(),
            ({
                let stuck = first_stuck(old(self).mem(), flash_offset as int, data@);
                let n = data@.len() as int;
                match old(self).fault() {
                    FlashFault::Healthy | FlashFault::NoErase => {
                        &&& stuck == n ==> {
                            &&& r == Ok::<(), FlashError>(())
                            &&& final(self).mem() == programmed(
                                old(self).mem(),
                                flash_offset as int,
                                data@,
                                n,
                            )
                        }
                        &&& stuck < n ==> {
                            &&& r == Err::<(), FlashError>(FlashError::ProgramError)
                            &&& final(self).mem() == programmed(
                                old(self).mem(),
                                flash_offset as int,
                                data@,
                                stuck,
                            )
                        }
                    },
                    FlashFault::Busy => {
                        &&& final(self).mem() == old(self).mem()
                        &&& n == 0 ==> r == Ok::<(), FlashError>(())
                        &&& (n > 0 && stuck == 0) ==> r == Err::<(), FlashError>(
                            FlashError::ProgramError,
                        )
                        &&& (n > 0 && stuck > 0) ==> r == Err::<(), FlashError>(
                            FlashError::Timeout,
                        )
                    },
                    FlashFault::BadVpp => {
                        &&& final(self).mem() == old(self).mem()
                        &&& n == 0 ==> r == Ok::<(), FlashError>(())
                        &&& (n > 0 && stuck == 0) ==> r == Err::<(), FlashError>(
                            FlashError::ProgramError,
                        )
                        &&& (n > 0 && stuck > 0) ==> r == Err::<(), FlashError>(
                            FlashError::VppError,
                        )
                    },
                    FlashFault::Locked => {
                        &&& final(self).mem() == old(self).mem()
                        &&& n == 0 ==> r == Ok::<(), FlashError>(())
                        &&& (n > 0 && stuck == 0) ==> r == Err::<(), FlashError>(
                            FlashError::ProgramError,
                        )
                        &&& (n > 0 && stuck > 0) ==> r == Err::<(), FlashError>(
                            FlashError::Protected,
                        )
                    },
                }
            }),
    {
        let ghost m0 = self.mem();
        let ghost o = flash_offset as int;
        let total = self.port.size();
        let n = data.len();
        let mut i: usize = 0;
        while i < n
            invariant
                i <= n,
                n == data@.len(),
                self.wf(),
                total == m0.len(),
                self.block_size == old(self).block_size,
                self.fault() == old(self).fault(),
                flash_offset + n <= m0.len(),
                m0.len() == old(self).mem().len(),
                m0 == old(self).mem(),
                o == flash_offset as int,
                self.mem() == programmed(m0, o, data@, i as int),
                forall|j: int| 0 <= j < i ==> byte_fits(m0[o + j], data@[j]),
                i > 0 ==> (old(self).fault() == FlashFault::Healthy || old(self).fault()
                    == FlashFault::NoErase),
            decreases n - i,
        {
            proof {
                lemma_programmed_index(m0, o, data@, i as int);
            }
            let dst_off = flash_offset + i;
            let b = data[i];
            match self.program_byte(dst_off, b) {
                Ok(()) => {
                    proof {
                        assert(self.mem() == programmed(m0, o, data@, i + 1));
                    }
                },
                Err(e) => {
                    proof {
                        if !byte_fits(m0[o + i], data@[i as int]) {
                            lemma_first_stuck_at(m0, o, data@, i as int);
                        } else {
                            lemma_first_stuck_bounds(m0, o, data@, i as int);
                            lemma_first_stuck_from_ge(m0, o, data@, i as int);
                        }
                        lemma_programmed_index(m0, o, data@, i as int);
                    }
                    return Err(e);
                },
            }
            i = i + 1;
        }
        proof {
            lemma_first_stuck_at(m0, o, data@, n as int);
            lemma_programmed_index(m0, o, data@, n as int);
        }
        Ok(())
    }

    /// Erase a single block by zero-based index; on success every bit of
    /// the block is left set.
    pub fn block_erase(&mut self, block_index: usize) -> (r: Result<(), FlashError>)
        requires
            old(self).wf(),
            block_index * old(self).block_size + old(self).block_size <= old(self).mem().len(),
        ensures
            final(self).wf(),
            final(self).block_size == old(self).block_size,
            final(self).fault() == old(self).fault(),
            final(self).mem().len() == old(self).mem().len(),
            match old(self).fault() {
                FlashFault::Healthy => {
                    &&& r == Ok::<(), FlashError>(())
                    &&& final(self).mem() == erase_bytes(
                        old(self).mem(),
                        block_index as int * old(self).block_size as int,
                        old(self).block_size as int,
                    )
                },
                FlashFault::NoErase => {
                    &&& r == Err::<(), FlashError>(FlashError::EraseError)
                    &&& final(self).mem() == old(self).mem()
                },
                FlashFault::Busy => {
                    &&& r == Err::<(), FlashError>(FlashError::Timeout)
                    &&& final(self).mem() == old(self).mem()
                },
                FlashFault::BadVpp => {
                    &&& r == Err::<(), FlashError>(FlashError::VppError)
                    &&& final(self).mem() == old(self).mem()
                },
                FlashFault::Locked => {
                    &&& r == Err::<(), FlashError>(FlashError::Protected)
                    &&& final(self).mem() == old(self).mem()
                },
            },
    {
        proof {
            lemma_status_bits();
            vstd::arithmetic::div_mod::lemma_div_by_multiple(
                block_index as int,
                self.block_size as int,
            );
        }
        let _total = self.port.size();
        let block_base = block_index * self.block_size;
        self.clear_status();
        self.write_cmd8(block_base, CMD_BLOCK_ERASE_SETUP);
        self.write_cmd8(block_base, CMD_BLOCK_ERASE_CONFIRM);
        match self.wait_ready(MAX_POLLS) {
            Err(e) => {
                self.return_to_read_array();
                Err(e)
            },
            Ok(sr) => {
                if sr & SR_ERASE_ERROR != 0 {
                    self.return_to_read_array();
                    Err(FlashError::EraseError)
                } else if sr & SR_VPP_ERROR != 0 {
                    self.return_to_read_array();
                    Err(FlashError::VppError)
                } else if sr & SR_PROTECT_ERROR != 0 {
                    self.return_to_read_array();
                    Err(FlashError::Protected)
                } else {
                    self.return_to_read_array();
                    Ok(())
                }
            },
        }
    }
}

/// Scanning for a stuck byte from `i` never reports an index below `i`.
proof fn lemma_first_stuck_from_ge(mem: Seq<u8>, off: int, data: Seq<u8>, i: int)
    requires
        0 <= i <= data.len(),
        forall|j: int| 0 <= j < i ==> byte_fits(mem[off + j], data[j]),
        i < data.len() ==> byte_fits(mem[off + i], data[i]),
    ensures
        first_stuck(mem, off, data) > i || first_stuck(mem, off, data) == data.len(),
{
    if i < data.len() {
        lemma_first_stuck_bounds(mem, off, data, i + 1);
        lemma_first_stuck_ge_step(mem, off, data, 0, i);
    } else {
        lemma_first_stuck_at(mem, off, data, i);
    }
}

proof fn lemma_first_stuck_ge_step(mem: Seq<u8>, off: int, data: Seq<u8>, lo: int, i: int)
    requires
        0 <= lo <= i < data.len(),
        forall|j: int| lo <= j <= i ==> byte_fits(mem[off + j], data[j]),
    ensures
        first_stuck_from(mem, off, data, lo) == first_stuck_from(mem, off, data, i + 1),
    decreases i - lo,
{
    if lo < i {
        lemma_first_stuck_ge_step(mem, off, data, lo + 1, i);
    }
}

} // verus!

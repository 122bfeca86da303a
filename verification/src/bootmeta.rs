//! Append-only A/B boot-attempt log stored in a reserved flash region,
//! with the bank-selection policy on top.
//!
//! Layout: the region holds 32-bit little-endian words at 4-byte-aligned
//! offsets; all-ones is erased/unused, `0x1111_1111` records a bank-A
//! trial, `0x0000_0000` a bank-B trial, and anything else is treated as
//! corruption, ending the log at that slot.

use vstd::prelude::*;
use crate::flash_intel::{
    byte_fits, first_stuck, programmed, word_at, FlashError, IntelFlash,
    lemma_first_stuck_at, lemma_programmed_index,
};
use crate::port::{FlashFault, FlashPort};

verus! {

/// Word value of an erased/unused slot.
pub const ERASED_WORD: u32 = 0xFFFF_FFFF;

/// Word value recording a bank-A boot trial: programmable from the erased
/// state with 1-bit transitions only.
pub const TOKEN_BANK_A: u32 = 0x1111_1111;

/// Word value recording a bank-B boot trial.
pub const TOKEN_BANK_B: u32 = 0x0000_0000;

/// Size of one log slot in bytes.
pub const WORD_SIZE: usize = 4;

/// Which redundant firmware image is being tried or selected.
#[derive(Debug, Clone, Copy, PartialEq, Eq, Structural)]
pub enum BootBank {
    /// Bank A.
    A,
    /// Bank B.
    B,
}

/// The decoded meaning of one flash word.
#[derive(Clone, Copy, PartialEq, Eq, Structural)]
pub enum LogWord {
    /// All bits one: unused slot.
    Erased,
    /// A recorded bank-A trial.
    BankAToken,
    /// A recorded bank-B trial.
    BankBToken,
    /// Any other bit pattern: corruption, ends the log.
    Unknown,
}

/// Decode one word value.
pub open spec fn decode(w: int) -> LogWord {
    if w == ERASED_WORD as int {
        LogWord::Erased
    } else if w == TOKEN_BANK_A as int {
        LogWord::BankAToken
    } else if w == TOKEN_BANK_B as int {
        LogWord::BankBToken
    } else {
        LogWord::Unknown
    }
}

/// The `i`-th log word of the region at byte offset `o`.
pub open spec fn log_word(mem: Seq<u8>, o: int, i: int) -> int {
    word_at(mem, o + 4 * i)
}

/// The word records a boot trial (for either bank).
pub open spec fn is_token(w: int) -> bool {
    decode(w) == LogWord::BankAToken || decode(w) == LogWord::BankBToken
}

/// The word value that records a trial of `bank`.
pub open spec fn token_of(bank: BootBank) -> int {
    match bank {
        BootBank::A => TOKEN_BANK_A as int,
        BootBank::B => TOKEN_BANK_B as int,
    }
}

/// The little-endian bytes of a 32-bit value.
pub open spec fn le_bytes(v: int) -> Seq<u8> {
    seq![
        (v % 0x100) as u8,
        (v / 0x100 % 0x100) as u8,
        (v / 0x10000 % 0x100) as u8,
        (v / 0x1000000 % 0x100) as u8,
    ]
}

/// Index of the first slot in `[i, cap)` that does not hold a trial
/// token; `cap` if every slot does.
pub open spec fn scan_from(mem: Seq<u8>, o: int, cap: int, i: int) -> int
    decreases cap - i,
{
    if i < 0 || i >= cap {
        cap
    } else if is_token(log_word(mem, o, i)) {
        scan_from(mem, o, cap, i + 1)
    } else {
        i
    }
}

/// The log's length: the index of the first erased or unknown slot,
/// which is also the next free append slot.
pub open spec fn scan_len(mem: Seq<u8>, o: int, cap: int) -> int {
    scan_from(mem, o, cap, 0)
}

/// How many of the first `n` slots record a bank-A trial.
pub open spec fn count_a(mem: Seq<u8>, o: int, n: int) -> int
    decreases n,
{
    if n <= 0 {
        0
    } else {
        count_a(mem, o, n - 1) + if decode(log_word(mem, o, n - 1)) == LogWord::BankAToken {
            1int
        } else {
            0int
        }
    }
}

/// How many of the first `n` slots record a bank-B trial.
pub open spec fn count_b(mem: Seq<u8>, o: int, n: int) -> int
    decreases n,
{
    if n <= 0 {
        0
    } else {
        count_b(mem, o, n - 1) + if decode(log_word(mem, o, n - 1)) == LogWord::BankBToken {
            1int
        } else {
            0int
        }
    }
}

/// The bank-selection policy: bank B while it is under budget, then bank
/// A while it is, then bank B as the terminal degraded fallback.
pub open spec fn chosen_bank(a: int, b: int, max_trials: int) -> BootBank {
    if b < max_trials {
        BootBank::B
    } else if a < max_trials {
        BootBank::A
    } else {
        BootBank::B
    }
}

/// The region after compaction: `a` bank-A words, then `b` bank-B words,
/// then the rest of the erase block all-ones; bytes outside the block
/// untouched.
pub open spec fn compacted(m: Seq<u8>, o: int, blk: int, a: int, b: int) -> Seq<u8> {
    m.map(
        |i: int, v: u8|
            if o <= i && i < o + 4 * a {
                0x11u8
            } else if o + 4 * a <= i && i < o + 4 * (a + b) {
                0x00u8
            } else if o <= i && i < o + blk {
                0xFFu8
            } else {
                v
            },
    )
}

/// `scan_from` stays within `[i, cap]`.
pub proof fn lemma_scan_from_bounds(mem: Seq<u8>, o: int, cap: int, i: int)
    requires
        0 <= i <= cap,
    ensures
        i <= scan_from(mem, o, cap, i) <= cap,
    decreases cap - i,
{
    if i < cap && is_token(log_word(mem, o, i)) {
        lemma_scan_from_bounds(mem, o, cap, i + 1);
    }
}

/// Every slot before the scan stop holds a trial token.
pub proof fn lemma_scan_prefix_tokens(mem: Seq<u8>, o: int, cap: int, i: int)
    requires
        0 <= i <= cap,
    ensures
        forall|j: int|
            i <= j < scan_from(mem, o, cap, i) ==> is_token(log_word(mem, o, j)),
    decreases cap - i,
{
    if i < cap && is_token(log_word(mem, o, i)) {
        lemma_scan_prefix_tokens(mem, o, cap, i + 1);
    }
}

/// If the slots before `e` hold tokens and slot `e` (when in range) does
/// not, the scan stops exactly at `e`.
pub proof fn lemma_scan_stop(mem: Seq<u8>, o: int, cap: int, e: int)
    requires
        0 <= e <= cap,
        forall|j: int| 0 <= j < e ==> is_token(log_word(mem, o, j)),
        e < cap ==> !is_token(log_word(mem, o, e)),
    ensures
        scan_len(mem, o, cap) == e,
{
    lemma_scan_stop_step(mem, o, cap, 0, e);
}

proof fn lemma_scan_stop_step(mem: Seq<u8>, o: int, cap: int, lo: int, e: int)
    requires
        0 <= lo <= e <= cap,
        forall|j: int| lo <= j < e ==> is_token(log_word(mem, o, j)),
        e < cap ==> !is_token(log_word(mem, o, e)),
    ensures
        scan_from(mem, o, cap, lo) == e,
    decreases e - lo,
{
    if lo < e {
        lemma_scan_stop_step(mem, o, cap, lo + 1, e);
    }
}

/// Counts lie within `[0, n]`, sum to at most `n`, and to exactly `n`
/// when every counted slot holds a token.
pub proof fn lemma_counts_bound(mem: Seq<u8>, o: int, n: int)
    requires
        0 <= n,
    ensures
        0 <= count_a(mem, o, n) <= n,
        0 <= count_b(mem, o, n) <= n,
        count_a(mem, o, n) + count_b(mem, o, n) <= n,
        (forall|j: int| 0 <= j < n ==> is_token(log_word(mem, o, j))) ==> count_a(mem, o, n)
            + count_b(mem, o, n) == n,
    decreases n,
{
    if n > 0 {
        lemma_counts_bound(mem, o, n - 1);
    }
}

/// Counting only looks at the counted slots' bytes.
pub proof fn lemma_counts_agree(m1: Seq<u8>, m2: Seq<u8>, o: int, n: int)
    requires
        0 <= n,
        forall|k: int| o <= k < o + 4 * n ==> m1[k] == m2[k],
    ensures
        count_a(m1, o, n) == count_a(m2, o, n),
        count_b(m1, o, n) == count_b(m2, o, n),
    decreases n,
{
    if n > 0 {
        lemma_counts_agree(m1, m2, o, n - 1);
        assert(log_word(m1, o, n - 1) == log_word(m2, o, n - 1));
    }
}

/// A run of `a` bank-A words followed by bank-B words up to `k` counts as
/// exactly `a` and `k - a`.
pub proof fn lemma_counts_of_run(mem: Seq<u8>, o: int, a: int, k: int)
    requires
        0 <= a <= k,
        forall|j: int| 0 <= j < a ==> decode(log_word(mem, o, j)) == LogWord::BankAToken,
        forall|j: int| a <= j < k ==> decode(log_word(mem, o, j)) == LogWord::BankBToken,
    ensures
        count_a(mem, o, k) == a,
        count_b(mem, o, k) == k - a,
    decreases k,
{
    if k > a {
        lemma_counts_of_run(mem, o, a, k - 1);
    } else if k > 0 {
        lemma_counts_of_run(mem, o, a - 1, k - 1);
    }
}

/// The append-only log over a reserved region of one flash device.
///
/// The in-memory handle owns no cached state: every query re-scans the
/// region from flash.
pub struct BootMeta<P: FlashPort> {
    flash: IntelFlash<P>,
    meta_offset: usize,
    meta_size: usize,
}

impl<P: FlashPort> BootMeta<P> {
    /// Contents of the flash array the log lives in.
    pub closed spec fn mem(&self) -> Seq<u8> {
        self.flash.mem()
    }

    /// Byte offset of the log region.
    pub closed spec fn off(&self) -> int {
        self.meta_offset as int
    }

    /// Number of word slots in the region.
    pub closed spec fn cap(&self) -> int {
        self.meta_size as int / 4
    }

    /// Fixed health of the underlying device.
    pub closed spec fn fault(&self) -> FlashFault {
        self.flash.fault()
    }

    /// Erase-block size of the underlying device.
    pub closed spec fn blk(&self) -> int {
        self.flash.block_size as int
    }

    /// The log's invariant: a well-formed device, and a region that is
    /// block-aligned, within one erase block, and within the array.
    pub closed spec fn wf(&self) -> bool {
        &&& self.flash.wf()
        &&& self.off() % self.blk() == 0
        &&& self.off() + self.blk() <= self.mem().len()
        &&& self.meta_size as int <= self.blk()
        &&& self.meta_size < 0x1_0000_0000
        &&& self.mem().len() <= usize::MAX as int
    }

    /// What well-formedness guarantees about the region's geometry, for
    /// callers reasoning about scans and appends from outside.
    pub proof fn lemma_wf_region(&self)
        requires
            self.wf(),
        ensures
            0 <= self.off(),
            0 <= self.cap(),
            1 <= self.blk(),
            self.off() % self.blk() == 0,
            4 * self.cap() <= self.blk(),
            self.off() + 4 * self.cap() <= self.mem().len(),
            self.mem().len() <= usize::MAX as int,
    {
    }

    /// A log handle over `flash`, managing the `meta_size` bytes starting
    /// at byte offset `meta_offset`.
    pub fn new(flash: IntelFlash<P>, meta_offset: usize, meta_size: usize) -> (r: Self)
        requires
            flash.wf(),
            meta_offset as int % flash.block_size as int == 0,
            meta_offset + flash.block_size <= flash.mem().len(),
            meta_size <= flash.block_size,
            meta_size < 0x1_0000_0000,
            flash.mem().len() <= usize::MAX as int,
        ensures
            r.wf(),
            r.mem() == flash.mem(),
            r.off() == meta_offset as int,
            r.cap() == meta_size as int / 4,
            r.fault() == flash.fault(),
            r.blk() == flash.block_size as int,
    {
        BootMeta { flash, meta_offset, meta_size }
    }

    /// How many word slots the region holds.
    fn words_capacity(&self) -> (r: usize)
        ensures
            r as int == self.cap(),
    {
        self.meta_size / WORD_SIZE
    }

    /// Byte offset of slot `idx`.
    fn word_offset(&self, idx: usize) -> (r: usize)
        requires
            self.wf(),
            idx as int <= self.cap(),
        ensures
            r as int == self.off() + 4 * idx,
    {
        self.meta_offset + idx * WORD_SIZE
    }

    /// Read slot `idx`.
    fn read_word(&self, idx: usize) -> (r: u32)
        requires
            self.wf(),
            (idx as int) < self.cap(),
        ensures
            r as int == log_word(self.mem(), self.off(), idx as int),
    {
        self.flash.read_u32_le(self.word_offset(idx))
    }

    /// Scan the log: count the trials recorded for each bank and find the
    /// next free slot.
    ///
    /// Returns `(a_count, b_count, next_free_index)`.  The result is a
    /// function of the flash contents alone and the handle is not
    /// touched, so scanning twice without an intervening write yields
    /// identical results.
    pub fn scan(&self) -> (r: (u32, u32, usize))
        requires
            self.wf(),
        ensures
            r.2 as int == scan_len(self.mem(), self.off(), self.cap()),
            r.0 as int == count_a(self.mem(), self.off(), scan_len(self.mem(), self.off(), self.cap())),
            r.1 as int == count_b(self.mem(), self.off(), scan_len(self.mem(), self.off(), self.cap())),
    {
        let mut a_count: u32 = 0;
        let mut b_count: u32 = 0;
        let mut idx: usize = 0;
        let mut done = false;
        let cap = self.words_capacity();

        while !done && idx < cap
            invariant
                self.wf(),
                cap as int == self.cap(),
                0 <= idx as int <= cap as int,
                a_count as int == count_a(self.mem(), self.off(), idx as int),
                b_count as int == count_b(self.mem(), self.off(), idx as int),
                a_count as int <= idx as int,
                b_count as int <= idx as int,
                forall|j: int| 0 <= j < idx as int ==> is_token(log_word(self.mem(), self.off(), j)),
                done ==> idx as int == scan_len(self.mem(), self.off(), self.cap()),
                !done ==> scan_len(self.mem(), self.off(), self.cap()) == scan_from(
                    self.mem(),
                    self.off(),
                    self.cap(),
                    idx as int,
                ),
            decreases cap - idx + if done { 0int } else { 1int },
        {
            let w = self.read_word(idx);
            if w == TOKEN_BANK_A {
                a_count = a_count + 1;
                idx = idx + 1;
            } else if w == TOKEN_BANK_B {
                b_count = b_count + 1;
                idx = idx + 1;
            } else {
                proof {
                    lemma_scan_stop(self.mem(), self.off(), self.cap(), idx as int);
                }
                done = true;
            }
        }
        proof {
            if !done {
                lemma_scan_stop(self.mem(), self.off(), self.cap(), idx as int);
            }
        }
        (a_count, b_count, idx)
    }

    /// Pick which bank to boot next.
    ///
    /// Bank B is preferred while it has trials left under `max_trials`,
    /// then bank A; once both budgets are exhausted the choice falls back
    /// to bank B, a terminal degraded state until compaction or external
    /// intervention.  The choice is a pure function of the current scan.
    pub fn choose_bank(&self, max_trials: u32) -> (r: BootBank)
        requires
            self.wf(),
        ensures
            r == chosen_bank(
                count_a(self.mem(), self.off(), scan_len(self.mem(), self.off(), self.cap())),
                count_b(self.mem(), self.off(), scan_len(self.mem(), self.off(), self.cap())),
                max_trials as int,
            ),
    {
        let (a_count, b_count, _idx) = self.scan();

        if b_count < max_trials {
            BootBank::B
        } else if a_count < max_trials {
            BootBank::A
        } else {
            BootBank::B
        }
    }

    /// Program the word `value` into slot `idx`.
    fn write_word(&mut self, idx: usize, value: u32) -> (r: Result<(), FlashError>)
        requires
            old(self).wf(),
            (idx as int) < old(self).cap(),
        ensures
            final(self).wf(),
            final(self).off() == old(self).off(),
            final(self).cap() == old(self).cap(),
            final(self).blk() == old(self).blk(),
            final(self).fault() == old(self).fault(),
            final(self).mem().len() == old(self).mem().len(),
            ({
                let m = old(self).mem();
                let p = old(self).off() + 4 * idx;
                let d = le_bytes(value as int);
                let st = first_stuck(m, p, d);
                match old(self).fault() {
                    FlashFault::Healthy | FlashFault::NoErase => {
                        &&& (st == 4 ==> r == Ok::<(), FlashError>(()) && final(self).mem()
                            == programmed(m, p, d, 4))
                        &&& (st < 4 ==> r == Err::<(), FlashError>(FlashError::ProgramError)
                            && final(self).mem() == programmed(m, p, d, st))
                    },
                    FlashFault::Busy => {
                        &&& final(self).mem() == m
                        &&& (st == 0 ==> r == Err::<(), FlashError>(FlashError::ProgramError))
                        &&& (st > 0 ==> r == Err::<(), FlashError>(FlashError::Timeout))
                    },
                    FlashFault::BadVpp => {
                        &&& final(self).mem() == m
                        &&& (st == 0 ==> r == Err::<(), FlashError>(FlashError::ProgramError))
                        &&& (st > 0 ==> r == Err::<(), FlashError>(FlashError::VppError))
                    },
                    FlashFault::Locked => {
                        &&& final(self).mem() == m
                        &&& (st == 0 ==> r == Err::<(), FlashError>(FlashError::ProgramError))
                        &&& (st > 0 ==> r == Err::<(), FlashError>(FlashError::Protected))
                    },
                }
            }),
    {
        let b0 = (value % 0x100) as u8;
        let b1 = (value / 0x100 % 0x100) as u8;
        let b2 = (value / 0x10000 % 0x100) as u8;
        let b3 = (value / 0x1000000 % 0x100) as u8;
        let bytes: Vec<u8> = vec![b0, b1, b2, b3];
        proof {
            assert(bytes@ =~= le_bytes(value as int));
        }
        let off = self.word_offset(idx);
        self.flash.program(off, bytes.as_slice())
    }

    /// Compact the log: erase the block holding the region and rewrite
    /// exactly `a_count` bank-A tokens followed by `b_count` bank-B
    /// tokens.
    fn compact(&mut self, a_count: u32, b_count: u32) -> (r: Result<(), FlashError>)
        requires
            old(self).wf(),
            a_count as int + b_count as int <= old(self).cap(),
        ensures
            final(self).wf(),
            final(self).off() == old(self).off(),
            final(self).cap() == old(self).cap(),
            final(self).blk() == old(self).blk(),
            final(self).fault() == old(self).fault(),
            final(self).mem().len() == old(self).mem().len(),
            match old(self).fault() {
                FlashFault::Healthy => r == Ok::<(), FlashError>(()) && final(self).mem()
                    == compacted(
                    old(self).mem(),
                    old(self).off(),
                    old(self).blk(),
                    a_count as int,
                    b_count as int,
                ),
                FlashFault::NoErase => r == Err::<(), FlashError>(FlashError::EraseError)
                    && final(self).mem() == old(self).mem(),
                FlashFault::Busy => r == Err::<(), FlashError>(FlashError::Timeout) && final(self).mem() == old(self).mem(),
                FlashFault::BadVpp => r == Err::<(), FlashError>(FlashError::VppError) && final(self).mem() == old(self).mem(),
                FlashFault::Locked => r == Err::<(), FlashError>(FlashError::Protected) && final(self).mem() == old(self).mem(),
            },
    {
        let ghost m0 = self.mem();
        let ghost o = self.off();
        let ghost blk = self.blk();
        proof {
            vstd::arithmetic::div_mod::lemma_fundamental_div_mod(o, blk);
        }
        let block_index = self.meta_offset / self.flash.block_size;

        match self.flash.block_erase(block_index) {
            Err(e) => {
                return Err(e);
            },
            Ok(()) => {},
        }
        proof {
            assert(self.mem() =~= compacted(m0, o, blk, 0, 0));
        }

        let mut idx: usize = 0;
        let mut rem_a = a_count;
        while rem_a > 0
            invariant
                self.wf(),
                self.off() == o,
                self.blk() == blk,
                self.cap() == old(self).cap(),
                self.fault() == FlashFault::Healthy,
                self.mem().len() == m0.len(),
                rem_a as int <= a_count as int,
                idx as int == a_count as int - rem_a as int,
                a_count as int + b_count as int <= self.cap(),
                self.mem() == compacted(m0, o, blk, idx as int, 0),
            decreases rem_a,
        {
            proof {
                lemma_token_fits_erased(self.mem(), o + 4 * idx, TOKEN_BANK_A as int);
            }
            match self.write_word(idx, TOKEN_BANK_A) {
                Err(e) => {
                    return Err(e);
                },
                Ok(()) => {},
            }
            proof {
                lemma_programmed_index(
                    compacted(m0, o, blk, idx as int, 0),
                    o + 4 * idx,
                    le_bytes(TOKEN_BANK_A as int),
                    4,
                );
                assert(self.mem() =~= compacted(m0, o, blk, idx as int + 1, 0));
            }
            idx = idx + 1;
            rem_a = rem_a - 1;
        }

        let mut rem_b = b_count;
        while rem_b > 0
            invariant
                self.wf(),
                self.off() == o,
                self.blk() == blk,
                self.cap() == old(self).cap(),
                self.fault() == FlashFault::Healthy,
                self.mem().len() == m0.len(),
                rem_b as int <= b_count as int,
                idx as int == a_count as int + b_count as int - rem_b as int,
                a_count as int + b_count as int <= self.cap(),
                self.mem() == compacted(m0, o, blk, a_count as int, idx as int - a_count as int),
            decreases rem_b,
        {
            proof {
                lemma_token_fits_erased(self.mem(), o + 4 * idx, TOKEN_BANK_B as int);
            }
            match self.write_word(idx, TOKEN_BANK_B) {
                Err(e) => {
                    return Err(e);
                },
                Ok(()) => {},
            }
            proof {
                lemma_programmed_index(
                    compacted(m0, o, blk, a_count as int, idx as int - a_count as int),
                    o + 4 * idx,
                    le_bytes(TOKEN_BANK_B as int),
                    4,
                );
                assert(self.mem() =~= compacted(
                    m0,
                    o,
                    blk,
                    a_count as int,
                    idx as int + 1 - a_count as int,
                ));
            }
            idx = idx + 1;
            rem_b = rem_b - 1;
        }
        Ok(())
    }

    /// Record a boot attempt for `bank`.
    ///
    /// The log is re-scanned; if the region is full, compaction is
    /// attempted first, and a compaction failure fails the whole
    /// operation with the underlying flash error, recording nothing.  A
    /// full log of valid tokens compacts to its own length, so in that
    /// case no free slot can appear and the append is refused as a
    /// program error rather than writing past the region.
    pub fn record_boot(&mut self, bank: BootBank) -> (r: Result<(), FlashError>)
        requires
            old(self).wf(),
        ensures
            final(self).wf(),
            final(self).off() == old(self).off(),
            final(self).cap() == old(self).cap(),
            final(self).blk() == old(self).blk(),
            final(self).fault() == old(self).fault(),
            final(self).mem().len() == old(self).mem().len(),
            ({
                let m = old(self).mem();
                let o = old(self).off();
                let c = old(self).cap();
                let n = scan_len(m, o, c);
                let p = o + 4 * n;
                let d = le_bytes(token_of(bank));
                let st = first_stuck(m, p, d);
                &&& n < c ==> match old(self).fault() {
                    FlashFault::Healthy | FlashFault::NoErase => {
                        &&& (st == 4 ==> r == Ok::<(), FlashError>(()) && final(self).mem()
                            == programmed(m, p, d, 4))
                        &&& (st < 4 ==> r == Err::<(), FlashError>(FlashError::ProgramError)
                            && final(self).mem() == programmed(m, p, d, st))
                    },
                    FlashFault::Busy => {
                        &&& final(self).mem() == m
                        &&& (st == 0 ==> r == Err::<(), FlashError>(FlashError::ProgramError))
                        &&& (st > 0 ==> r == Err::<(), FlashError>(FlashError::Timeout))
                    },
                    FlashFault::BadVpp => {
                        &&& final(self).mem() == m
                        &&& (st == 0 ==> r == Err::<(), FlashError>(FlashError::ProgramError))
                        &&& (st > 0 ==> r == Err::<(), FlashError>(FlashError::VppError))
                    },
                    FlashFault::Locked => {
                        &&& final(self).mem() == m
                        &&& (st == 0 ==> r == Err::<(), FlashError>(FlashError::ProgramError))
                        &&& (st > 0 ==> r == Err::<(), FlashError>(FlashError::Protected))
                    },
                }
                &&& n == c ==> match old(self).fault() {
                    FlashFault::Healthy => r == Err::<(), FlashError>(FlashError::ProgramError)
                        && final(self).mem() == compacted(
                        m,
                        o,
                        old(self).blk(),
                        count_a(m, o, c),
                        count_b(m, o, c),
                    ),
                    FlashFault::NoErase => r == Err::<(), FlashError>(FlashError::EraseError)
                        && final(self).mem() == m,
                    FlashFault::Busy => r == Err::<(), FlashError>(FlashError::Timeout) && final(self).mem() == m,
                    FlashFault::BadVpp => r == Err::<(), FlashError>(FlashError::VppError)
                        && final(self).mem() == m,
                    FlashFault::Locked => r == Err::<(), FlashError>(FlashError::Protected)
                        && final(self).mem() == m,
                }
                // success is owed whenever there is room, the free slot is
                // really erased, and the device is healthy
                &&& (n < c && decode(log_word(m, o, n)) == LogWord::Erased && old(self).fault()
                    == FlashFault::Healthy) ==> r == Ok::<(), FlashError>(())
            }),
    {
        let (a_count, b_count, mut next_idx) = self.scan();
        let cap = self.words_capacity();
        let ghost m = self.mem();
        let ghost o = self.off();
        let ghost c = self.cap();
        let ghost n = scan_len(m, o, c);
        proof {
            lemma_scan_from_bounds(m, o, c, 0);
        }

        if next_idx >= cap {
            proof {
                lemma_scan_prefix_tokens(m, o, c, 0);
                lemma_counts_bound(m, o, c);
            }
            match self.compact(a_count, b_count) {
                Err(e) => {
                    return Err(e);
                },
                Ok(()) => {},
            }
            proof {
                lemma_compacted_scan(
                    m,
                    o,
                    self.blk(),
                    c,
                    self.meta_size as int,
                    a_count as int,
                    b_count as int,
                );
            }
            let (_a2, _b2, idx2) = self.scan();
            next_idx = idx2;
            if next_idx >= cap {
                // a full log of valid tokens keeps its length through
                // compaction: still no free slot, so refuse the append
                return Err(FlashError::ProgramError);
            }
        }

        let token = match bank {
            BootBank::A => TOKEN_BANK_A,
            BootBank::B => TOKEN_BANK_B,
        };

        proof {
            if next_idx as int == n && n < c && decode(log_word(m, o, n)) == LogWord::Erased {
                lemma_erased_word_bytes(m, o + 4 * n);
                lemma_token_fits_erased(m, o + 4 * n, token as int);
            }
        }
        self.write_word(next_idx, token)
    }
}

/// A word whose value is the erased pattern has all four bytes erased.
pub proof fn lemma_erased_word_bytes(mem: Seq<u8>, p: int)
    requires
        0 <= p,
        p + 4 <= mem.len(),
        word_at(mem, p) == ERASED_WORD as int,
    ensures
        mem[p] == 0xFFu8,
        mem[p + 1] == 0xFFu8,
        mem[p + 2] == 0xFFu8,
        mem[p + 3] == 0xFFu8,
{
}

/// A token word fits over four erased bytes, and programming gets stuck
/// nowhere within it.
pub proof fn lemma_token_fits_erased(mem: Seq<u8>, p: int, tok: int)
    requires
        0 <= p,
        p + 4 <= mem.len(),
        mem[p] == 0xFFu8,
        mem[p + 1] == 0xFFu8,
        mem[p + 2] == 0xFFu8,
        mem[p + 3] == 0xFFu8,
        tok == TOKEN_BANK_A as int || tok == TOKEN_BANK_B as int,
    ensures
        first_stuck(mem, p, le_bytes(tok)) == 4,
{
    let d = le_bytes(tok);
    assert forall|j: int| 0 <= j < 4 implies byte_fits(mem[p + j], d[j]) by {
        crate::flash_intel::lemma_nor_bits(0xFFu8, d[j]);
    }
    lemma_first_stuck_at(mem, p, d, 4);
}

/// What each slot of a compacted region decodes to, and hence what a
/// scan of it yields: the counts it was rewritten from, with the next
/// free slot right after them.
pub proof fn lemma_compacted_scan(
    m: Seq<u8>,
    o: int,
    blk: int,
    c: int,
    meta_size: int,
    a: int,
    b: int,
)
    requires
        0 <= o,
        0 <= a,
        0 <= b,
        a + b <= c,
        c == meta_size / 4,
        meta_size <= blk,
        o + blk <= m.len(),
    ensures
        scan_len(compacted(m, o, blk, a, b), o, c) == a + b,
        count_a(compacted(m, o, blk, a, b), o, a + b) == a,
        count_b(compacted(m, o, blk, a, b), o, a + b) == b,
{
    let cm = compacted(m, o, blk, a, b);
    assert(4 * c <= meta_size);
    assert forall|j: int| 0 <= j < a implies decode(log_word(cm, o, j))
        == LogWord::BankAToken by {
        assert(cm[o + 4 * j] == 0x11u8);
        assert(cm[o + 4 * j + 1] == 0x11u8);
        assert(cm[o + 4 * j + 2] == 0x11u8);
        assert(cm[o + 4 * j + 3] == 0x11u8);
    }
    assert forall|j: int| a <= j < a + b implies decode(log_word(cm, o, j))
        == LogWord::BankBToken by {
        assert(cm[o + 4 * j] == 0x00u8);
        assert(cm[o + 4 * j + 1] == 0x00u8);
        assert(cm[o + 4 * j + 2] == 0x00u8);
        assert(cm[o + 4 * j + 3] == 0x00u8);
    }
    if a + b < c {
        assert(cm[o + 4 * (a + b)] == 0xFFu8);
        assert(cm[o + 4 * (a + b) + 1] == 0xFFu8);
        assert(cm[o + 4 * (a + b) + 2] == 0xFFu8);
        assert(cm[o + 4 * (a + b) + 3] == 0xFFu8);
        assert(decode(log_word(cm, o, a + b)) == LogWord::Erased);
    }
    lemma_scan_stop(cm, o, c, a + b);
    lemma_counts_of_run(cm, o, a, a + b);
}

/// Appending a token to a cleanly-ended log moves the scan stop one slot
/// up and increments exactly the appended bank's count.
proof fn lemma_append_extends_scan(m: Seq<u8>, m2: Seq<u8>, o: int, c: int, bank: BootBank)
    requires
        0 <= o,
        0 <= c,
        o + 4 * c <= m.len(),
        m2.len() == m.len(),
        scan_len(m, o, c) < c,
        forall|j: int|
            scan_len(m, o, c) < j < c ==> decode(log_word(m, o, j)) == LogWord::Erased,
        forall|k: int|
            0 <= k < m.len() && !(o + 4 * scan_len(m, o, c) <= k < o + 4 * scan_len(m, o, c)
                + 4) ==> m2[k] == m[k],
        log_word(m2, o, scan_len(m, o, c)) == token_of(bank),
    ensures
        scan_len(m2, o, c) == scan_len(m, o, c) + 1,
        count_a(m2, o, scan_len(m, o, c) + 1) == count_a(m, o, scan_len(m, o, c)) + (
        if bank == BootBank::A {
            1int
        } else {
            0int
        }),
        count_b(m2, o, scan_len(m, o, c) + 1) == count_b(m, o, scan_len(m, o, c)) + (
        if bank == BootBank::B {
            1int
        } else {
            0int
        }),
{
    let n = scan_len(m, o, c);
    lemma_scan_from_bounds(m, o, c, 0);
    lemma_scan_prefix_tokens(m, o, c, 0);
    assert forall|j: int| 0 <= j < c && j != n implies log_word(m2, o, j) == log_word(
        m,
        o,
        j,
    ) by {
        assert(m2[o + 4 * j] == m[o + 4 * j]);
        assert(m2[o + 4 * j + 1] == m[o + 4 * j + 1]);
        assert(m2[o + 4 * j + 2] == m[o + 4 * j + 2]);
        assert(m2[o + 4 * j + 3] == m[o + 4 * j + 3]);
    }
    lemma_scan_stop(m2, o, c, n + 1);
    assert forall|k: int| o <= k < o + 4 * n implies m[k] == m2[k] by {}
    lemma_counts_agree(m, m2, o, n);
}

/// Append monotonicity.
///
/// If a scan finds `n` occupied slots with every slot from `n + 1` on
/// erased, and the bytes of `bank`'s token are then stored at slot `n` —
/// exactly what a successful `record_boot` on a log with room leaves
/// behind — a new scan finds the chosen bank's count incremented by one,
/// the other count unchanged, and the next free slot at `n + 1`.
pub proof fn lemma_append_monotonic(m: Seq<u8>, o: int, c: int, bank: BootBank)
    requires
        0 <= o,
        0 <= c,
        o + 4 * c <= m.len(),
        scan_len(m, o, c) < c,
        forall|j: int|
            scan_len(m, o, c) < j < c ==> decode(log_word(m, o, j)) == LogWord::Erased,
    ensures
        ({
            let n = scan_len(m, o, c);
            let m2 = programmed(m, o + 4 * n, le_bytes(token_of(bank)), 4);
            &&& scan_len(m2, o, c) == n + 1
            &&& count_a(m2, o, n + 1) == count_a(m, o, n) + (if bank == BootBank::A {
                1int
            } else {
                0int
            })
            &&& count_b(m2, o, n + 1) == count_b(m, o, n) + (if bank == BootBank::B {
                1int
            } else {
                0int
            })
        }),
{
    let n = scan_len(m, o, c);
    let d = le_bytes(token_of(bank));
    let m2 = programmed(m, o + 4 * n, d, 4);
    lemma_scan_from_bounds(m, o, c, 0);
    lemma_programmed_index(m, o + 4 * n, d, 4);
    assert(m2[o + 4 * n] == d[0]);
    assert(m2[o + 4 * n + 1] == d[1]);
    assert(m2[o + 4 * n + 2] == d[2]);
    assert(m2[o + 4 * n + 3] == d[3]);
    assert(log_word(m2, o, n) == token_of(bank));
    lemma_append_extends_scan(m, m2, o, c, bank);
}

} // verus!

//! Second-stage boot support: a CFI NOR flash driver and an append-only
//! A/B boot-attempt log stored in a reserved flash region.
//!
//! The hardware is reached through the [`port::FlashPort`] capability, whose
//! contract is a small state machine for the flash command protocol.  The
//! in-memory device [`sim::SimFlash`] implements that contract and is proved
//! against it; a real memory-mapped port can implement the same trait outside
//! the verified library.

pub mod port;
pub mod sim;
pub mod flash_intel;
pub mod bootmeta;

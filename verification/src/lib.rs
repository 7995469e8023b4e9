//! # iss-core: RV32I_Zicsr instruction-set-simulator Core
//!
//! A verified functional model of one RISC-V **RV32I_Zicsr Machine-mode hart**.
//!
//! One [`Core::step`] runs the canonical pipeline
//!
//! ```text
//! Fetch -> Decode -> Execute -> [barrier] -> Commit
//! ```
//!
//! and returns a [`CommitPacket`] describing the architectural footprint of that
//! step: a normal retirement (GPR write and/or store), a trap entry (`ECALL` or an
//! interrupt), or a halt event (voluntary `EBREAK` or an involuntary fault). The
//! barrier *between* Execute and Commit is the single trap insertion point: an
//! asynchronous interrupt or a staged synchronous trap routes to trap entry and
//! bypasses Commit entirely.
//!
//! The Core is generic over a [`Bus`]; it knows nothing about concrete devices. Two
//! bus implementations ship with the crate: [`RamBus`] (a flat little-endian
//! memory) and [`DeviceBus`] (an address-range dispatcher composed of
//! [`MmioDevice`] trait objects).
//!
//! ## Quick start
//!
//! ```
//! use iss_core::{Core, RamBus, Bus, Width};
//!
//! // `ebreak` (0x00100073) at address 0 with a0 (x10) = 0x2A: exit code 42.
//! let mut bus = RamBus::new(0, 0x1000);
//! bus.write(0, Width::Word, 0x0010_0073, 0xF).unwrap();
//!
//! let mut core = Core::new(bus);
//! core.state_mut().gpr[10] = 0x2A;
//!
//! let halt = core.run_until_halt(|_pkt| { /* observe each retired step */ });
//! assert_eq!(halt.exit_code, 42);
//! ```
//!
//! ## Module map
//! - [`word`]: the arithmetic of 32-bit words that the contracts speak of.
//! - [`bus`]: the [`Bus`] trait, [`AxiResp`], [`Width`], and [`RamBus`].
//! - [`device`]: the [`MmioDevice`] trait and the [`DeviceBus`] range dispatcher.
//! - [`csr`]: the M-mode [`CsrFile`].
//! - [`arch`]: [`ArchState`] (PC, 32 GPRs and CSR file).
//! - [`alu`]: ALU operations and branch conditions.
//! - [`decode`]: instruction decode into a [`Uop`].
//! - [`execute`]: Execute, which stages effects and commits none.
//! - [`hart`]: the [`Core`] and its step FSM.
//! - [`isa`]: what each instruction does to registers, memory and CSRs.
//! - [`laws`]: what holds of every step and every run.
//! - [`packet`]: the [`CommitPacket`] verification protocol.
//! - [`loader`]: staging the segments of an ELF image on a bus.
//! - [`runner`]: pacing of an interactive run.

pub mod alu;
pub mod arch;
pub mod bus;
pub mod csr;
pub mod decode;
pub mod device;
pub mod execute;
pub mod hart;
pub mod isa;
pub mod laws;
pub mod loader;
pub mod packet;
pub mod runner;
pub mod word;

pub use arch::ArchState;
pub use bus::{AxiResp, Bus, RamBus, Width};
pub use csr::CsrFile;
pub use decode::{decode, Uop};
pub use device::{AddError, DeviceBus, MmioDevice, Ram};
pub use hart::Core;
pub use loader::{load_elf_bytes, ElfError};
pub use packet::{CommitPacket, HaltEvent, HaltKind, StoreObserved, TrapEvent};

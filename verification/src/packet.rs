//! [`CommitPacket`]: the architectural footprint of one [`Core::step`].
//!
//! Every step, halt events among them, emits one packet, so that a cross-verifier
//! can compare the architectural effect before either side exits. An effect that
//! did not occur is `None`.
//!
//! [`Core::step`]: crate::Core::step

use vstd::prelude::*;

use crate::csr::{CsrFile, CsrModel};

verus! {

/// Why a step terminated the simulation.
///
/// Each variant maps to a process exit code: the involuntary kinds use the fixed
/// range 130-135, while a voluntary `EBREAK` carries the low byte of `a0`.
#[derive(Copy, Clone, PartialEq, Eq, Debug, Structural)]
pub enum HaltKind {
    /// `EBREAK`; exit code = `a0`.
    Voluntary {
        /// The low byte of `a0` at the retiring `EBREAK`.
        a0: u8,
    },
    /// Decoder reject or CSR access violation; exit 130.
    Illegal,
    /// Instruction-fetch bus error; exit 131.
    BusErrorIf,
    /// Load bus error; exit 132.
    BusErrorLd,
    /// Store bus error; exit 133.
    BusErrorSt,
    /// Fetch address, `JALR` or branch target misaligned; exit 134.
    MisalignPc,
    /// Load address misaligned; exit 134.
    MisalignLd,
    /// Store address misaligned; exit 134.
    MisalignSt,
    /// A trap on the trap handler's first instruction; exit 135.
    DoubleTrap,
}

impl HaltKind {
    /// The exit code of each kind.
    pub open spec fn code(self) -> u8 {
        match self {
            HaltKind::Voluntary { a0 } => a0,
            HaltKind::Illegal => 130,
            HaltKind::BusErrorIf => 131,
            HaltKind::BusErrorLd => 132,
            HaltKind::BusErrorSt => 133,
            HaltKind::MisalignPc => 134,
            HaltKind::MisalignLd => 134,
            HaltKind::MisalignSt => 134,
            HaltKind::DoubleTrap => 135,
        }
    }

    /// The diagnostic tag of each kind.
    pub open spec fn label(self) -> Seq<char> {
        match self {
            HaltKind::Voluntary { .. } => "EBREAK voluntary"@,
            HaltKind::Illegal => "illegal instruction"@,
            HaltKind::BusErrorIf => "IF bus error"@,
            HaltKind::BusErrorLd => "LD bus error"@,
            HaltKind::BusErrorSt => "ST bus error"@,
            HaltKind::MisalignPc => "misaligned PC"@,
            HaltKind::MisalignLd => "misaligned load"@,
            HaltKind::MisalignSt => "misaligned store"@,
            HaltKind::DoubleTrap => "double trap"@,
        }
    }

    /// The process exit code this halt maps to.
    pub fn exit_code(self) -> (r: u8)
        ensures
            r == self.code(),
    {
        match self {
            HaltKind::Voluntary { a0 } => a0,
            HaltKind::Illegal => 130,
            HaltKind::BusErrorIf => 131,
            HaltKind::BusErrorLd => 132,
            HaltKind::BusErrorSt => 133,
            HaltKind::MisalignPc | HaltKind::MisalignLd | HaltKind::MisalignSt => 134,
            HaltKind::DoubleTrap => 135,
        }
    }

    /// A short diagnostic tag.
    pub fn tag(self) -> (r: &'static str)
        ensures
            r@ == self.label(),
    {
        match self {
            HaltKind::Voluntary { .. } => "EBREAK voluntary",
            HaltKind::Illegal => "illegal instruction",
            HaltKind::BusErrorIf => "IF bus error",
            HaltKind::BusErrorLd => "LD bus error",
            HaltKind::BusErrorSt => "ST bus error",
            HaltKind::MisalignPc => "misaligned PC",
            HaltKind::MisalignLd => "misaligned load",
            HaltKind::MisalignSt => "misaligned store",
            HaltKind::DoubleTrap => "double trap",
        }
    }
}

/// A halt event: the kind and its resolved exit code.
#[derive(Copy, Clone, PartialEq, Eq, Debug, Structural)]
pub struct HaltEvent {
    /// The halt classification.
    pub kind: HaltKind,
    /// The process exit code (`kind.exit_code()`).
    pub exit_code: u8,
}

impl HaltEvent {
    /// The event for `kind`.
    pub open spec fn of(kind: HaltKind) -> HaltEvent {
        HaltEvent { kind, exit_code: kind.code() }
    }

    /// Build the event for `kind`, computing its exit code.
    pub fn new(kind: HaltKind) -> (r: Self)
        ensures
            r == HaltEvent::of(kind),
    {
        HaltEvent { kind, exit_code: kind.exit_code() }
    }
}

/// A trap entry, by `ECALL` or by an interrupt. It carries the CSR values that the
/// trap-entry microsequence wrote.
#[derive(Copy, Clone, PartialEq, Eq, Debug, Structural)]
pub struct TrapEvent {
    /// `mcause` (interrupt bit set for an interrupt).
    pub cause: u32,
    /// `mepc` (the un-retired instruction's PC).
    pub mepc: u32,
    /// `mtval` (always 0).
    pub mtval: u32,
}

/// An architectural store effect.
#[derive(Copy, Clone, PartialEq, Eq, Debug, Structural)]
pub struct StoreObserved {
    /// Target address.
    pub addr: u32,
    /// Data written (low `width` bytes meaningful).
    pub data: u32,
    /// Byte-enable strobe.
    pub strb: u8,
}

/// Post-step snapshot of the seven storage CSRs.
#[derive(Copy, Clone, PartialEq, Eq, Debug, Structural)]
pub struct CsrSnapshot {
    /// `mstatus` (with MPP synthesised to `0b11`).
    pub mstatus: u32,
    /// `mtvec`.
    pub mtvec: u32,
    /// `mepc`.
    pub mepc: u32,
    /// `mcause`.
    pub mcause: u32,
    /// `mtval`.
    pub mtval: u32,
    /// `mscratch`.
    pub mscratch: u32,
    /// `mie`.
    pub mie: u32,
}

impl CsrSnapshot {
    /// What the seven storage CSRs of `csrs` read as.
    pub open spec fn of(csrs: CsrModel) -> CsrSnapshot {
        CsrSnapshot {
            mstatus: csrs.mstatus_word(),
            mtvec: csrs.mtvec,
            mepc: csrs.mepc,
            mcause: csrs.mcause,
            mtval: csrs.mtval,
            mscratch: csrs.mscratch,
            mie: csrs.mie_word(),
        }
    }

    /// The snapshot with every field zero.
    pub open spec fn zero() -> CsrSnapshot {
        CsrSnapshot { mstatus: 0, mtvec: 0, mepc: 0, mcause: 0, mtval: 0, mscratch: 0, mie: 0 }
    }

    /// Capture the current CSR storage.
    pub fn capture(csrs: &CsrFile) -> (r: Self)
        ensures
            r == CsrSnapshot::of(csrs@),
    {
        CsrSnapshot {
            mstatus: csrs.mstatus_snapshot(),
            mtvec: csrs.mtvec_raw(),
            mepc: csrs.mepc(),
            mcause: csrs.mcause_raw(),
            mtval: csrs.mtval_raw(),
            mscratch: csrs.mscratch_raw(),
            mie: csrs.mie_raw(),
        }
    }
}

impl Default for CsrSnapshot {
    /// The snapshot with every field zero.
    fn default() -> (r: Self)
        ensures
            r == CsrSnapshot::zero(),
    {
        CsrSnapshot { mstatus: 0, mtvec: 0, mepc: 0, mcause: 0, mtval: 0, mscratch: 0, mie: 0 }
    }
}

/// The architectural footprint of one step. An effect that did not occur is
/// `None`.
#[derive(Copy, Clone, PartialEq, Eq, Debug)]
pub struct CommitPacket {
    /// PC of the instruction this step processed.
    pub pc: u32,
    /// GPR write target (`0`: no architectural write happened).
    pub rd: u8,
    /// The value written to `rd` (meaningful only when `rd != 0`).
    pub rd_value: u32,
    /// A store effect, if one retired this step.
    pub store: Option<StoreObserved>,
    /// A halt event, if this step terminated the simulation. The caller **must**
    /// stop stepping when this is `Some`.
    pub halt: Option<HaltEvent>,
    /// A trap entry, if this step took a synchronous or asynchronous trap.
    pub trap: Option<TrapEvent>,
    /// Post-step CSR snapshot.
    pub csr_snapshot: CsrSnapshot,
}

impl CommitPacket {
    /// The packet for the instruction at `pc` that records no effect.
    pub open spec fn blank(pc: u32) -> CommitPacket {
        CommitPacket {
            pc,
            rd: 0,
            rd_value: 0,
            store: None,
            halt: None,
            trap: None,
            csr_snapshot: CsrSnapshot::zero(),
        }
    }

    /// A pending packet for the instruction at `pc`: no effects recorded yet.
    pub(crate) fn pending(pc: u32) -> (r: Self)
        ensures
            r == CommitPacket::blank(pc),
    {
        CommitPacket { pc, ..CommitPacket::default() }
    }
}

impl Default for CommitPacket {
    /// The packet at PC 0 that records no effect.
    fn default() -> (r: Self)
        ensures
            r == CommitPacket::blank(0),
    {
        CommitPacket {
            pc: 0,
            rd: 0,
            rd_value: 0,
            store: None,
            halt: None,
            trap: None,
            csr_snapshot: CsrSnapshot::default(),
        }
    }
}

/// Involuntary halts exit with a code from 130 to 135, and an event carries the
/// code of its kind.
pub proof fn law_involuntary_exit_codes(kind: HaltKind)
    ensures
        kind !is Voluntary ==> 130 <= kind.code() <= 135,
        HaltEvent::of(kind).exit_code == kind.code(),
{
}

/// The exit code of each halt.
pub proof fn law_exit_codes(a0: u8)
    ensures
        (HaltKind::Voluntary { a0 }).code() == a0,
        HaltKind::Illegal.code() == 130,
        HaltKind::BusErrorIf.code() == 131,
        HaltKind::BusErrorLd.code() == 132,
        HaltKind::BusErrorSt.code() == 133,
        HaltKind::MisalignPc.code() == 134,
        HaltKind::MisalignLd.code() == 134,
        HaltKind::MisalignSt.code() == 134,
        HaltKind::DoubleTrap.code() == 135,
{
}

/// The tag of each halt.
pub proof fn law_halt_tags(a0: u8)
    ensures
        (HaltKind::Voluntary { a0 }).label() == "EBREAK voluntary"@,
        HaltKind::Illegal.label() == "illegal instruction"@,
        HaltKind::BusErrorIf.label() == "IF bus error"@,
        HaltKind::BusErrorLd.label() == "LD bus error"@,
        HaltKind::BusErrorSt.label() == "ST bus error"@,
        HaltKind::MisalignPc.label() == "misaligned PC"@,
        HaltKind::MisalignLd.label() == "misaligned load"@,
        HaltKind::MisalignSt.label() == "misaligned store"@,
        HaltKind::DoubleTrap.label() == "double trap"@,
{
}

/// A snapshot holds what software reads from the seven CSRs with storage.
pub proof fn law_snapshot_reads(csrs: CsrModel)
    ensures
        ({
            let s = CsrSnapshot::of(csrs);
            &&& csrs.read(0x300) == Some(s.mstatus)
            &&& csrs.read(0x304) == Some(s.mie)
            &&& csrs.read(0x305) == Some(s.mtvec)
            &&& csrs.read(0x340) == Some(s.mscratch)
            &&& csrs.read(0x341) == Some(s.mepc)
            &&& csrs.read(0x342) == Some(s.mcause)
            &&& csrs.read(0x343) == Some(s.mtval)
        }),
{
}

} // verus!

//! Execute: reads architectural state, computes results, and produces a
//! [`Staging`] describing the intended commit. No architectural state changes
//! here; that is Commit's job (in [`hart`](crate::hart)).
//!
//! Loads read the bus during Execute (there is no separate memory stage), but
//! stores only *stage* a [`StoreReq`]: the bus write happens at Commit. Fault
//! conditions (illegal instruction, load bus error, misalignment) return
//! `Err(HaltKind)`.

use vstd::prelude::*;

use crate::alu::BranchType;
use crate::arch::{ArchModel, ArchState};
use crate::bus::{AxiResp, Bus, Width};
use crate::csr::{CsrFile, CsrModel};
use crate::decode::{AluSrc1, AluSrc2, CsrOp, MemOp, RdSource, SystemKind, Uop};
use crate::packet::HaltKind;

verus! {

/// The retirement or trap action Execute requests of the barrier.
///
/// [`Action::SyncTrap`] is a *request*: the barrier consumes it and routes to trap
/// entry. Commit only ever sees the other three.
#[derive(Copy, Clone, PartialEq, Eq, Debug, Structural)]
pub enum Action {
    /// Plain retirement: optional GPR write and `PC <- new_pc`.
    Normal,
    /// Zicsr: GPR write of the old value and optional CSR write of the new value.
    Zicsr {
        /// CSR address to write.
        addr: u16,
        /// The new CSR value.
        write_value: u32,
        /// Whether the CSR is actually written.
        writes: bool,
    },
    /// `MRET`: restore `mstatus` from MPIE, `PC <- mepc`. No GPR write.
    Mret,
    /// Synchronous trap requested by Execute (`ECALL`). Consumed by the barrier.
    SyncTrap {
        /// Trap cause (11 for `ECALL`).
        cause: u32,
        /// Trap value (always 0).
        tval: u32,
    },
}

/// A staged store: the 1-entry store buffer, drained to the bus at Commit.
#[derive(Copy, Clone, PartialEq, Eq, Debug, Structural)]
pub struct StoreReq {
    /// Target address.
    pub addr: u32,
    /// Data to write.
    pub data: u32,
    /// Byte-enable strobe.
    pub strb: u8,
    /// Access width.
    pub width: Width,
}

/// Everything Commit needs to retire the instruction, or the barrier to route it
/// to a trap.
#[derive(Copy, Clone, PartialEq, Eq, Debug)]
pub struct Staging {
    /// The commit or trap action.
    pub action: Action,
    /// PC target for `Normal` / `Zicsr` / `Mret` (unused for `SyncTrap`).
    pub new_pc: u32,
    /// GPR write target (`0`: no write).
    pub rd: u8,
    /// GPR write value.
    pub rd_value: u32,
    /// A staged store, if any.
    pub store: Option<StoreReq>,
}

impl Staging {
    /// Plain retirement of the instruction at `pc`.
    pub open spec fn plain(pc: u32) -> Staging {
        Staging {
            action: Action::Normal,
            new_pc: crate::word::wrap(pc + 4),
            rd: 0,
            rd_value: 0,
            store: None,
        }
    }

    /// The default staging for the instruction at `pc`: plain retirement,
    /// `new_pc = pc + 4`, no GPR write, no store.
    fn normal(pc: u32) -> (r: Self)
        ensures
            r == Staging::plain(pc),
    {
        Staging {
            action: Action::Normal,
            new_pc: pc.wrapping_add(4),
            rd: 0,
            rd_value: 0,
            store: None,
        }
    }
}

/// The ALU's output for a uop.
pub open spec fn alu_output(uop: Uop) -> u32 {
    let op1 = match uop.alu_src1 {
        AluSrc1::Rs1 => uop.rs1_val,
        AluSrc1::Pc => uop.pc,
        AluSrc1::Zero => 0,
    };
    let op2 = match uop.alu_src2 {
        AluSrc2::Rs2 => uop.rs2_val,
        AluSrc2::Imm => uop.imm,
    };
    uop.alu_op.result(op1, op2)
}

/// The one bus access that executing `uop` makes, if it makes one: the read of a
/// load whose address is aligned.
pub open spec fn load_request(uop: Uop) -> Option<(u32, Width)> {
    match uop.mem {
        Some(mem) => if !uop.illegal && uop.system is NotSystem && !mem.store && mem.width.aligned(
            alu_output(uop),
        ) {
            Some((alu_output(uop), mem.width))
        } else {
            None
        },
        None => None,
    }
}

/// A freshly loaded value as the load delivers it: sign-extended from its width
/// for `LB` and `LH`, as read otherwise.
pub open spec fn extended(raw: u32, mem: MemOp) -> u32 {
    if mem.load_signext && mem.width is Byte {
        crate::word::sign_extend((raw % 0x100) as int, 0x100)
    } else if mem.load_signext && mem.width is Half {
        crate::word::sign_extend((raw % 0x1_0000) as int, 0x1_0000)
    } else {
        raw
    }
}

/// The fault that the memory access of `uop` runs into, if any. `load` is the
/// bus's reply to [`load_request`].
pub open spec fn mem_fault(uop: Uop, load: Option<Result<u32, AxiResp>>) -> Option<HaltKind> {
    match uop.mem {
        Some(mem) => if !mem.width.aligned(alu_output(uop)) {
            if mem.store {
                Some(HaltKind::MisalignSt)
            } else {
                Some(HaltKind::MisalignLd)
            }
        } else if !mem.store && load matches Some(Err(_)) {
            Some(HaltKind::BusErrorLd)
        } else {
            None
        },
        None => None,
    }
}

/// The PC after `uop`, or nothing if it jumps to a misaligned target. `JAL` and
/// `JALR` clear bit 0 of their target.
pub open spec fn next_pc(uop: Uop) -> Option<u32> {
    match uop.branch {
        Some(bt) => {
            let out = alu_output(uop);
            let target = if bt is JumpAnyway {
                (out - out % 2) as u32
            } else {
                out
            };
            if !bt.holds(uop.rs1_val, uop.rs2_val) {
                Some(crate::word::wrap(uop.pc + 4))
            } else if target % 4 == 0 {
                Some(target)
            } else {
                None
            }
        },
        None => Some(crate::word::wrap(uop.pc + 4)),
    }
}

/// The value that `uop` delivers to `rd`.
pub open spec fn rd_result(uop: Uop, load: Option<Result<u32, AxiResp>>) -> u32 {
    match uop.rd_source {
        RdSource::PcPlus4 => crate::word::wrap(uop.pc + 4),
        RdSource::AluResult => alu_output(uop),
        RdSource::MemLoad => match (uop.mem, load) {
            (Some(mem), Some(Ok(raw))) => extended(raw, mem),
            _ => 0,
        },
        RdSource::Skip => 0,
    }
}

/// What executing a SYSTEM uop stages.
pub open spec fn system_staging(state: ArchModel, uop: Uop) -> Result<Staging, HaltKind> {
    let plain = Staging::plain(uop.pc);
    match uop.system {
        SystemKind::NotSystem => Ok(plain),
        SystemKind::Ecall => Ok(
            Staging { action: Action::SyncTrap { cause: 11, tval: 0 }, ..plain },
        ),
        SystemKind::Ebreak => Err(HaltKind::Voluntary { a0: (state.gpr[10] % 0x100) as u8 }),
        SystemKind::Mret => Ok(
            Staging { action: Action::Mret, new_pc: state.csrs.mepc, ..plain },
        ),
        SystemKind::Wfi => Ok(plain),
        SystemKind::Csr { op, addr, source, writes } => match state.csrs.read(addr) {
            None => Err(HaltKind::Illegal),
            Some(value) => if writes && !CsrModel::writable(addr) {
                Err(HaltKind::Illegal)
            } else {
                Ok(
                    Staging {
                        action: Action::Zicsr {
                            addr,
                            write_value: op.file_op().combine(value, source.number()),
                            writes,
                        },
                        rd: uop.rd,
                        rd_value: value,
                        ..plain
                    },
                )
            },
        },
    }
}

/// What executing `uop` in `state` stages, or the fault it halts on. `load` is the
/// bus's reply to [`load_request`], `None` where there is no such request.
pub open spec fn staged(state: ArchModel, uop: Uop, load: Option<Result<u32, AxiResp>>) -> Result<
    Staging,
    HaltKind,
> {
    if uop.illegal {
        Err(HaltKind::Illegal)
    } else if uop.system !is NotSystem {
        system_staging(state, uop)
    } else {
        match (mem_fault(uop, load), next_pc(uop)) {
            (Some(kind), _) => Err(kind),
            (None, None) => Err(HaltKind::MisalignPc),
            (None, Some(new_pc)) => {
                let writes_rd = uop.rd_source !is Skip && uop.rd != 0;
                Ok(
                    Staging {
                        action: Action::Normal,
                        new_pc,
                        rd: if writes_rd {
                            uop.rd
                        } else {
                            0
                        },
                        rd_value: if writes_rd {
                            rd_result(uop, load)
                        } else {
                            0
                        },
                        store: match uop.mem {
                            Some(mem) => if mem.store {
                                Some(
                                    StoreReq {
                                        addr: alu_output(uop),
                                        data: uop.rs2_val,
                                        strb: mem.width.strobe(),
                                        width: mem.width,
                                    },
                                )
                            } else {
                                None
                            },
                            None => None,
                        },
                    },
                )
            },
        }
    }
}

/// Whether `load` can be the bus's reply to the load of `uop`, with `before` and
/// `after` the bus on either side of it. Without a load the bus is left alone.
pub open spec fn load_performed<B: Bus>(
    uop: Uop,
    before: B,
    load: Option<Result<u32, AxiResp>>,
    after: B,
) -> bool {
    match load_request(uop) {
        Some((addr, width)) => load is Some && before.model().read_to(
            addr,
            width,
            load->0,
            after.model(),
        ),
        None => load is None && after == before,
    }
}

/// Execute one decoded uop against `state` (read-only) using `bus` for loads.
///
/// Returns the [`Staging`] for Commit, or `Err(HaltKind)` for a fault that halts
/// the simulation during Execute.
pub fn execute<B: Bus>(state: &ArchState, uop: &Uop, bus: &mut B) -> (r: Result<Staging, HaltKind>)
    ensures
        exists|load: Option<Result<u32, AxiResp>>| #[trigger]
            load_performed(*uop, *old(bus), load, *final(bus)) && r == staged(state@, *uop, load),
{
    if uop.illegal {
        assert(load_performed(*uop, *old(bus), None, *bus));
        return Err(HaltKind::Illegal);
    }
    if uop.system != SystemKind::NotSystem {
        assert(load_performed(*uop, *old(bus), None, *bus));
        return execute_system(state, uop);
    }
    let mut stg = Staging::normal(uop.pc);
    // ALU.
    let op1: u32 = match uop.alu_src1 {
        AluSrc1::Rs1 => uop.rs1_val,
        AluSrc1::Pc => uop.pc,
        AluSrc1::Zero => 0,
    };
    let op2: u32 = match uop.alu_src2 {
        AluSrc2::Rs2 => uop.rs2_val,
        AluSrc2::Imm => uop.imm,
    };
    let alu_result: u32 = uop.alu_op.apply(op1, op2);
    // Memory: a load reads now, a store is staged for Commit.
    let mut mem_load: u32 = 0;
    let ghost mut load: Option<Result<u32, AxiResp>> = None;
    if let Some(mem) = uop.mem {
        let (r, Ghost(reply)) = execute_mem(uop, mem, alu_result, &mut stg, bus);
        proof {
            load = reply;
        }
        mem_load = match r {
            Ok(v) => v,
            Err(kind) => return Err(kind),
        };
    }
    assert(load_performed(*uop, *old(bus), load, *bus));
    // Branch / jump.
    if let Some(bt) = uop.branch {
        let mut target: u32 = alu_result;
        if bt == BranchType::JumpAnyway {
            // clear bit 0 (JALR semantics; harmless for JAL)
            target = target - target % 2;
        }
        if bt.taken(uop.rs1_val, uop.rs2_val) {
            if !Width::Word.is_aligned(target) {
                return Err(HaltKind::MisalignPc);
            }
            stg.new_pc = target;
        }
    }
    // Stage the rd write.
    let rd_value: u32 = match uop.rd_source {
        RdSource::PcPlus4 => uop.pc.wrapping_add(4),
        RdSource::AluResult => alu_result,
        RdSource::MemLoad => mem_load,
        RdSource::Skip => 0,
    };
    if uop.rd_source != RdSource::Skip && uop.rd != 0 {
        stg.rd = uop.rd;
        stg.rd_value = rd_value;
    }
    Ok(stg)
}

/// Resolve a memory op: check alignment, then either stage a store or read a load.
/// Returns the (sign-extended) load value, 0 for stores, and the bus's reply if it
/// was read.
fn execute_mem<B: Bus>(
    uop: &Uop,
    mem: MemOp,
    addr: u32,
    stg: &mut Staging,
    bus: &mut B,
) -> (r: (Result<u32, HaltKind>, Ghost<Option<Result<u32, AxiResp>>>))
    requires
        !uop.illegal,
        uop.system is NotSystem,
        uop.mem == Some(mem),
        addr == alu_output(*uop),
        old(stg).store is None,
    ensures
        load_performed(*uop, *old(bus), r.1@, *final(bus)),
        match mem_fault(*uop, r.1@) {
            Some(kind) => r.0 == Err::<u32, HaltKind>(kind) && *final(stg) == *old(stg),
            None => if mem.store {
                &&& r.0 == Ok::<u32, HaltKind>(0)
                &&& *final(stg) == (Staging {
                    store: Some(
                        StoreReq {
                            addr,
                            data: uop.rs2_val,
                            strb: mem.width.strobe(),
                            width: mem.width,
                        },
                    ),
                    ..*old(stg)
                })
            } else {
                &&& r.1@ matches Some(Ok(raw)) && r.0 == Ok::<u32, HaltKind>(extended(raw, mem))
                &&& *final(stg) == *old(stg)
            },
        },
{
    if !mem.width.is_aligned(addr) {
        let kind = if mem.store {
            HaltKind::MisalignSt
        } else {
            HaltKind::MisalignLd
        };
        return (Err(kind), Ghost(None));
    }
    if mem.store {
        stg.store = Some(
            StoreReq { addr, data: uop.rs2_val, strb: mem.width.full_strb(), width: mem.width },
        );
        (Ok(0), Ghost(None))
    } else {
        let reply = bus.read(addr, mem.width);
        match reply {
            Ok(raw) => (Ok(sign_extend_load(raw, mem)), Ghost(Some(reply))),
            Err(_) => (Err(HaltKind::BusErrorLd), Ghost(Some(reply))),
        }
    }
}

/// Sign- or zero-extend a freshly loaded value per the load's width and signedness.
fn sign_extend_load(raw: u32, mem: MemOp) -> (r: u32)
    ensures
        r == extended(raw, mem),
{
    if mem.load_signext && mem.width != Width::Word {
        match mem.width {
            Width::Byte => {
                assert((((raw & 0xFF) as i8) as i32) as u32 == (if raw % 0x100 < 0x80 {
                    (raw % 0x100) as int
                } else {
                    raw % 0x100 - 0x100 + 0x1_0000_0000
                })) by (bit_vector);
                (((raw & 0xFF) as i8) as i32) as u32
            },
            Width::Half => {
                assert((((raw & 0xFFFF) as i16) as i32) as u32 == (if raw % 0x1_0000 < 0x8000 {
                    (raw % 0x1_0000) as int
                } else {
                    raw % 0x1_0000 - 0x1_0000 + 0x1_0000_0000
                })) by (bit_vector);
                (((raw & 0xFFFF) as i16) as i32) as u32
            },
            Width::Word => raw,
        }
    } else {
        raw
    }
}

/// Execute a SYSTEM-class instruction: stages `SyncTrap` / `Mret` / `Zicsr` / NOP,
/// or halts on `EBREAK` or an illegal CSR access.
fn execute_system(state: &ArchState, uop: &Uop) -> (r: Result<Staging, HaltKind>)
    requires
        uop.system !is NotSystem,
    ensures
        r == system_staging(state@, *uop),
{
    let mut stg = Staging::normal(uop.pc);
    match uop.system {
        SystemKind::Ecall => {
            stg.action = Action::SyncTrap { cause: 11, tval: 0 };
        },
        SystemKind::Ebreak => {
            // Voluntary halt; exit = a0[7:0] (x10).
            return Err(HaltKind::Voluntary { a0: (state.read_gpr(10) % 0x100) as u8 });
        },
        SystemKind::Mret => {
            stg.action = Action::Mret;
            stg.new_pc = state.csrs.mepc();
        },
        SystemKind::Wfi => {},
        SystemKind::Csr { op, addr, source, writes } => {
            let value: u32 = match state.csrs.read(addr) {
                Some(value) => value,
                None => return Err(HaltKind::Illegal),
            };
            if writes && !CsrFile::addr_writable(addr) {
                return Err(HaltKind::Illegal);
            }
            let src: u32 = source.value();
            let new_val: u32 = match op {
                CsrOp::Rw => src,
                CsrOp::Rs => value | src,
                CsrOp::Rc => value & !src,
            };
            stg.action = Action::Zicsr { addr, write_value: new_val, writes };
            stg.rd = uop.rd;
            stg.rd_value = value;
        },
        SystemKind::NotSystem => {},
    }
    Ok(stg)
}

} // verus!

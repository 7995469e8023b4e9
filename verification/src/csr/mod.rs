//! [`CsrFile`]: the RV32I_Zicsr Machine-mode CSR file.
//!
//! It holds the seven storage-bearing CSRs. The four read-only-zero information
//! CSRs and `misa` are computed, and `mip` is wire-only: the file mirrors three
//! external wires (`msip` and `mtip` from the CLINT, `meip` from the interrupt
//! aggregator) and synthesises the `mip` value on read. The privilege mode is
//! always M, so there is no privilege check.

use vstd::prelude::*;

pub mod addr;

verus! {

/// `mstatus.MIE`.
const MSTATUS_MIE: u32 = 0x8;

/// `mstatus.MPIE`.
const MSTATUS_MPIE: u32 = 0x80;

/// `mstatus.MPP` is always `0b11` (M-mode): synthesised on read, never stored.
const MSTATUS_MPP_M: u32 = 0x1800;

/// The bits software may modify in `mstatus`.
const MASK_MSTATUS: u32 = 0x88;

/// `MSIE`, `MTIE` and `MEIE`.
const MASK_MIE: u32 = 0x888;

/// `BASE[31:2]` of `mtvec`, with MODE forced to `0b00` (Direct).
const MASK_MTVEC: u32 = 0xFFFF_FFFC;

/// `mepc[31:2]`.
const MASK_MEPC: u32 = 0xFFFF_FFFC;

/// `misa`: MXL = `01` (RV32) in the top two bits, extension bit `I` set.
const MISA_VALUE: u32 = 0x4000_0100;

/// Atomic Zicsr operation kind (`CSRRW` / `CSRRS` / `CSRRC` and their `*I`
/// variants).
#[derive(Copy, Clone, PartialEq, Eq, Debug, Structural)]
pub enum CsrOp {
    /// `CSRRW` / `CSRRWI`: replace.
    Rw,
    /// `CSRRS` / `CSRRSI`: set bits.
    Rs,
    /// `CSRRC` / `CSRRCI`: clear bits.
    Rc,
}

impl CsrOp {
    /// The value that the operation puts in place of `old`.
    pub open spec fn combine(self, old: u32, source: u32) -> u32 {
        match self {
            CsrOp::Rw => source,
            CsrOp::Rs => old | source,
            CsrOp::Rc => old & !source,
        }
    }
}

/// The state of a [`CsrFile`], field by architectural field.
pub struct CsrModel {
    /// `mstatus.MIE`: interrupts are globally enabled.
    pub mie: bool,
    /// `mstatus.MPIE`: the value of `MIE` before the last trap.
    pub mpie: bool,
    /// `mie.MSIE`, `mie.MTIE` and `mie.MEIE`: one enable per interrupt source.
    pub msie: bool,
    pub mtie: bool,
    pub meie: bool,
    /// The trap handler's address, a multiple of four.
    pub mtvec: u32,
    pub mscratch: u32,
    /// The address a trap handler returns to, a multiple of four.
    pub mepc: u32,
    pub mcause: u32,
    pub mtval: u32,
    /// The three interrupt-pending wires.
    pub msip: bool,
    pub mtip: bool,
    pub meip: bool,
}

/// `weight` if `flag` is set, else 0.
pub open spec fn flag(flag: bool, weight: u32) -> int {
    if flag {
        weight as int
    } else {
        0
    }
}

impl CsrModel {
    /// The file after reset: all storage zero, all wires low.
    pub open spec fn reset() -> CsrModel {
        CsrModel {
            mie: false,
            mpie: false,
            msie: false,
            mtie: false,
            meie: false,
            mtvec: 0,
            mscratch: 0,
            mepc: 0,
            mcause: 0,
            mtval: 0,
            msip: false,
            mtip: false,
            meip: false,
        }
    }

    /// What every CSR file keeps: the two code addresses are word-aligned.
    pub open spec fn wf(self) -> bool {
        &&& self.mtvec % 4 == 0
        &&& self.mepc % 4 == 0
    }

    /// `mstatus` as software sees it: `MIE` is bit 3, `MPIE` bit 7, and `MPP`
    /// (bits 12 and 11) reads as M-mode.
    pub open spec fn mstatus_word(self) -> u32 {
        (0x1800 + flag(self.mie, 0x8) + flag(self.mpie, 0x80)) as u32
    }

    /// `mie`: `MSIE` is bit 3, `MTIE` bit 7, `MEIE` bit 11.
    pub open spec fn mie_word(self) -> u32 {
        (flag(self.msie, 0x8) + flag(self.mtie, 0x80) + flag(self.meie, 0x800)) as u32
    }

    /// `mip`: `MSIP` is bit 3, `MTIP` bit 7, `MEIP` bit 11.
    pub open spec fn mip_word(self) -> u32 {
        (flag(self.msip, 0x8) + flag(self.mtip, 0x80) + flag(self.meip, 0x800)) as u32
    }

    /// The CSRs this file recognises.
    pub open spec fn recognised(addr: u16) -> bool {
        ||| Self::storage(addr)
        ||| addr == addr::MISA
        ||| addr == addr::MIP
        ||| Self::information(addr)
    }

    /// The seven CSRs that hold what software writes.
    pub open spec fn storage(addr: u16) -> bool {
        ||| addr == addr::MSTATUS
        ||| addr == addr::MIE
        ||| addr == addr::MTVEC
        ||| addr == addr::MSCRATCH
        ||| addr == addr::MEPC
        ||| addr == addr::MCAUSE
        ||| addr == addr::MTVAL
    }

    /// The four read-only information CSRs.
    pub open spec fn information(addr: u16) -> bool {
        addr == addr::MVENDORID || addr == addr::MARCHID || addr == addr::MIMPID || addr
            == addr::MHARTID
    }

    /// The CSRs a write to which is legal. Writes to `misa` and `mip` are legal
    /// and have no effect.
    pub open spec fn writable(addr: u16) -> bool {
        Self::recognised(addr) && !Self::information(addr)
    }

    /// What a read of `addr` returns; nothing if `addr` is not recognised.
    pub open spec fn read(self, addr: u16) -> Option<u32> {
        if addr == addr::MSTATUS {
            Some(self.mstatus_word())
        } else if addr == addr::MISA {
            Some(0x4000_0100)
        } else if addr == addr::MIE {
            Some(self.mie_word())
        } else if addr == addr::MTVEC {
            Some(self.mtvec)
        } else if addr == addr::MSCRATCH {
            Some(self.mscratch)
        } else if addr == addr::MEPC {
            Some(self.mepc)
        } else if addr == addr::MCAUSE {
            Some(self.mcause)
        } else if addr == addr::MTVAL {
            Some(self.mtval)
        } else if addr == addr::MIP {
            Some(self.mip_word())
        } else if Self::information(addr) {
            Some(0)
        } else {
            None
        }
    }

    /// The file after `value` is written to `addr`. Each CSR keeps the bits that
    /// it has storage for.
    pub open spec fn write(self, addr: u16, value: u32) -> CsrModel {
        if addr == addr::MSTATUS {
            CsrModel {
                mie: crate::word::bit(value, 3),
                mpie: crate::word::bit(value, 7),
                ..self
            }
        } else if addr == addr::MIE {
            CsrModel {
                msie: crate::word::bit(value, 3),
                mtie: crate::word::bit(value, 7),
                meie: crate::word::bit(value, 11),
                ..self
            }
        } else if addr == addr::MTVEC {
            CsrModel { mtvec: crate::word::align4(value), ..self }
        } else if addr == addr::MSCRATCH {
            CsrModel { mscratch: value, ..self }
        } else if addr == addr::MEPC {
            CsrModel { mepc: crate::word::align4(value), ..self }
        } else if addr == addr::MCAUSE {
            CsrModel { mcause: value, ..self }
        } else if addr == addr::MTVAL {
            CsrModel { mtval: value, ..self }
        } else {
            self
        }
    }

    /// The file after trap entry.
    pub open spec fn trapped(self, cause: u32, epc: u32, tval: u32) -> CsrModel {
        CsrModel {
            mepc: crate::word::align4(epc),
            mcause: cause,
            mtval: tval,
            mpie: self.mie,
            mie: false,
            ..self
        }
    }

    /// The file after `MRET`.
    pub open spec fn returned(self) -> CsrModel {
        CsrModel { mie: self.mpie, mpie: true, ..self }
    }
}

/// The M-mode CSR file: seven storage CSRs plus the three interrupt-pending wires.
///
/// The wires are external inputs sampled when reading `mip`; they are kept here
/// so that all access primitives are in one place.
#[derive(Debug, PartialEq, Eq)]
pub struct CsrFile {
    /// Only MIE (bit 3) and MPIE (bit 7) are stored; MPP is fixed at `0b11`.
    mstatus: u32,
    /// Only MSIE (3), MTIE (7) and MEIE (11) are stored.
    mie: u32,
    /// `BASE[31:2]` only.
    mtvec: u32,
    /// Full 32-bit scratch register.
    mscratch: u32,
    /// `[31:2]` only.
    mepc: u32,
    /// Full 32 bits (interrupt bit and cause code).
    mcause: u32,
    /// Full 32 bits; trap entry always writes 0.
    mtval: u32,
    msip_wire: bool,
    mtip_wire: bool,
    meip_wire: bool,
}

impl View for CsrFile {
    type V = CsrModel;

    closed spec fn view(&self) -> CsrModel {
        CsrModel {
            mie: crate::word::bit(self.mstatus, 3),
            mpie: crate::word::bit(self.mstatus, 7),
            msie: crate::word::bit(self.mie, 3),
            mtie: crate::word::bit(self.mie, 7),
            meie: crate::word::bit(self.mie, 11),
            mtvec: self.mtvec,
            mscratch: self.mscratch,
            mepc: self.mepc,
            mcause: self.mcause,
            mtval: self.mtval,
            msip: self.msip_wire,
            mtip: self.mtip_wire,
            meip: self.meip_wire,
        }
    }
}

/// What masking does to the three bits that interrupts use.
proof fn lemma_interrupt_bits(w: u32)
    ensures
        crate::word::bit(w, 3) == (w & 0x8 != 0),
        crate::word::bit(w, 7) == (w & 0x80 != 0),
        crate::word::bit(w, 11) == (w & 0x800 != 0),
        w & 0x88 == flag(w & 0x8 != 0, 0x8) + flag(w & 0x80 != 0, 0x80),
        w & 0x888 == flag(w & 0x8 != 0, 0x8) + flag(w & 0x80 != 0, 0x80) + flag(
            w & 0x800 != 0,
            0x800,
        ),
        w & 0xFFFF_FFFC == crate::word::align4(w),
{
    vstd::arithmetic::power2::lemma2_to64();
    assert((w / 0x8 % 2 == 1) == (w & 0x8 != 0)) by (bit_vector);
    assert((w / 0x80 % 2 == 1) == (w & 0x80 != 0)) by (bit_vector);
    assert((w / 0x800 % 2 == 1) == (w & 0x800 != 0)) by (bit_vector);
    assert(w & 0x88 == (w & 0x8) + (w & 0x80) && w & 0x888 == (w & 0x8) + (w & 0x80) + (w & 0x800)
        && (w & 0x8 == 0 || w & 0x8 == 0x8) && (w & 0x80 == 0 || w & 0x80 == 0x80) && (w & 0x800
        == 0 || w & 0x800 == 0x800)) by (bit_vector);
    assert(w & 0xFFFF_FFFC == w - w % 4) by (bit_vector);
}

/// A word made of interrupt bits alone has the bits that it is made of.
proof fn lemma_flags(a: bool, b: bool, c: bool)
    ensures
        ({
            let w = (flag(a, 0x8) + flag(b, 0x80) + flag(c, 0x800)) as u32;
            &&& crate::word::bit(w, 3) == a
            &&& crate::word::bit(w, 7) == b
            &&& crate::word::bit(w, 11) == c
        }),
{
    vstd::arithmetic::power2::lemma2_to64();
}

/// `MIE` and `MPIE` are bits 3 and 7 of what `mstatus` reads as.
proof fn lemma_mstatus_bits(csrs: CsrModel)
    ensures
        crate::word::bit(csrs.mstatus_word(), 3) == csrs.mie,
        crate::word::bit(csrs.mstatus_word(), 7) == csrs.mpie,
{
    vstd::arithmetic::power2::lemma2_to64();
    let w = csrs.mstatus_word();
    assert(w as nat / 0x8 % 2 == 1 <==> csrs.mie);
    assert(w as nat / 0x80 % 2 == 1 <==> csrs.mpie);
}

/// `MIE` is bit 3 of what `mstatus` reads as.
pub(crate) proof fn lemma_mie_bit(csrs: CsrModel)
    ensures
        csrs.mstatus_word() & 0x8 != 0 <==> csrs.mie,
        csrs.mstatus_word() & 0x80 != 0 <==> csrs.mpie,
{
    lemma_mstatus_bits(csrs);
    lemma_interrupt_bits(csrs.mstatus_word());
}

/// Which interrupt sources are both pending and enabled, read off the two words.
pub(crate) proof fn lemma_pending_bits(csrs: CsrModel)
    ensures
        ({
            let pending = csrs.mip_word() & csrs.mie_word();
            &&& pending & 0x8 != 0 <==> csrs.msip && csrs.msie
            &&& pending & 0x80 != 0 <==> csrs.mtip && csrs.mtie
            &&& pending & 0x800 != 0 <==> csrs.meip && csrs.meie
        }),
{
    let a = csrs.mip_word();
    let b = csrs.mie_word();
    lemma_flags(csrs.msip, csrs.mtip, csrs.meip);
    lemma_flags(csrs.msie, csrs.mtie, csrs.meie);
    lemma_interrupt_bits(a);
    lemma_interrupt_bits(b);
    assert(((a & b) & 0x8 != 0) == (a & 0x8 != 0 && b & 0x8 != 0) && ((a & b) & 0x80 != 0) == (a
        & 0x80 != 0 && b & 0x80 != 0) && ((a & b) & 0x800 != 0) == (a & 0x800 != 0 && b & 0x800
        != 0)) by (bit_vector);
}

impl CsrFile {
    /// Each storage word only holds bits that its CSR has storage for.
    #[verifier::type_invariant]
    closed spec fn inv(self) -> bool {
        &&& self.mstatus == flag(self@.mie, 0x8) + flag(self@.mpie, 0x80)
        &&& self.mie == flag(self@.msie, 0x8) + flag(self@.mtie, 0x80) + flag(self@.meie, 0x800)
        &&& self.mtvec % 4 == 0
        &&& self.mepc % 4 == 0
    }

    /// A CSR file in reset state (all storage zero, wires low).
    pub fn new() -> (r: Self)
        ensures
            r@ == CsrModel::reset(),
    {
        proof {
            lemma_flags(false, false, false);
        }
        CsrFile {
            mstatus: 0,
            mie: 0,
            mtvec: 0,
            mscratch: 0,
            mepc: 0,
            mcause: 0,
            mtval: 0,
            msip_wire: false,
            mtip_wire: false,
            meip_wire: false,
        }
    }

    /// Drive the three external interrupt-pending wires (`mip` bits 3, 7 and 11).
    pub fn set_wires(&mut self, msip: bool, mtip: bool, meip: bool)
        ensures
            final(self)@ == (CsrModel { msip, mtip, meip, ..old(self)@ }),
            final(self)@.read(0x344) == Some(
                (if msip {
                    0x8int
                } else {
                    0
                } + if mtip {
                    0x80int
                } else {
                    0
                } + if meip {
                    0x800int
                } else {
                    0
                }) as u32,
            ),
            final(self)@.wf(),
    {
        proof {
            use_type_invariant(&*self);
        }
        self.msip_wire = msip;
        self.mtip_wire = mtip;
        self.meip_wire = meip;
    }

    /// The synthesised `mip` value: only the three wire bits can be set.
    pub fn mip(&self) -> (r: u32)
        ensures
            r == self@.mip_word(),
    {
        let mut v: u32 = 0;
        if self.msip_wire {
            v = v + 0x8;
        }
        if self.mtip_wire {
            v = v + 0x80;
        }
        if self.meip_wire {
            v = v + 0x800;
        }
        v
    }

    /// `mie` (only the three enable bits can be set).
    pub fn mie(&self) -> (r: u32)
        ensures
            r == self@.mie_word(),
    {
        proof {
            use_type_invariant(self);
            lemma_interrupt_bits(self.mie);
        }
        self.mie & MASK_MIE
    }

    /// `true` when interrupts are globally enabled (`mstatus.MIE`).
    pub fn mie_enabled(&self) -> (r: bool)
        ensures
            r == self@.mie,
    {
        proof {
            lemma_interrupt_bits(self.mstatus);
        }
        self.mstatus & MSTATUS_MIE != 0
    }

    /// The `BASE` field of `mtvec` (bits `[31:2]`, low two bits clear).
    pub fn mtvec_base(&self) -> (r: u32)
        ensures
            r == self@.mtvec,
            r % 4 == 0,
    {
        proof {
            use_type_invariant(self);
            lemma_interrupt_bits(self.mtvec);
        }
        self.mtvec & MASK_MTVEC
    }

    /// `mepc` (bits `[31:2]`, low two bits clear).
    pub fn mepc(&self) -> (r: u32)
        ensures
            r == self@.mepc,
            r % 4 == 0,
    {
        proof {
            use_type_invariant(self);
            lemma_interrupt_bits(self.mepc);
        }
        self.mepc & MASK_MEPC
    }

    /// `true` if `addr` is one of the 13 CSRs this file recognises.
    pub fn addr_recognised(addr: u16) -> (r: bool)
        ensures
            r == CsrModel::recognised(addr),
    {
        match addr {
            addr::MSTATUS
            | addr::MISA
            | addr::MIE
            | addr::MTVEC
            | addr::MSCRATCH
            | addr::MEPC
            | addr::MCAUSE
            | addr::MTVAL
            | addr::MIP
            | addr::MVENDORID
            | addr::MARCHID
            | addr::MIMPID
            | addr::MHARTID => true,
            _ => false,
        }
    }

    /// `true` if a write to `addr` would *not* raise an illegal-instruction
    /// violation: `addr[11:10] == 0b11` marks a read-only CSR. Writes to `misa`
    /// and `mip` are ignored, but those addresses count as writable here.
    pub fn addr_writable(addr: u16) -> (r: bool)
        ensures
            r == CsrModel::writable(addr),
    {
        assert((addr >> 10) & 0x3 == addr / 0x400 % 4) by (bit_vector);
        Self::addr_recognised(addr) && (addr >> 10) & 0x3 != 0x3
    }

    /// Side-effect-free read of the synthesised CSR view; `None` on an
    /// unrecognised address.
    pub fn read(&self, addr: u16) -> (r: Option<u32>)
        ensures
            r == self@.read(addr),
    {
        match addr {
            addr::MSTATUS => Some(self.mstatus_snapshot()),
            addr::MISA => Some(MISA_VALUE),
            addr::MIE => Some(self.mie()),
            addr::MTVEC => Some(self.mtvec_base()),
            addr::MSCRATCH => Some(self.mscratch),
            addr::MEPC => Some(self.mepc()),
            addr::MCAUSE => Some(self.mcause),
            addr::MTVAL => Some(self.mtval),
            addr::MIP => Some(self.mip()),
            addr::MVENDORID | addr::MARCHID | addr::MIMPID | addr::MHARTID => Some(0),
            _ => None,
        }
    }

    /// Apply the per-CSR write mask. Returns `false`, and changes nothing, if the
    /// address is unrecognised or architecturally read-only. Writes to `misa` and
    /// `mip` are ignored (`true`, no change).
    pub fn write(&mut self, addr: u16, value: u32) -> (r: bool)
        ensures
            r == CsrModel::writable(addr),
            final(self)@ == old(self)@.write(addr, value),
            final(self)@.wf(),
    {
        proof {
            use_type_invariant(&*self);
            lemma_interrupt_bits(value);
            lemma_flags(value & 0x8 != 0, value & 0x80 != 0, value & 0x800 != 0);
            lemma_flags(value & 0x8 != 0, value & 0x80 != 0, false);
        }
        match addr {
            addr::MSTATUS => {
                self.mstatus = value & MASK_MSTATUS;
            },
            addr::MISA => {},
            addr::MIE => {
                self.mie = value & MASK_MIE;
            },
            addr::MTVEC => {
                self.mtvec = value & MASK_MTVEC;
            },
            addr::MSCRATCH => {
                self.mscratch = value;
            },
            addr::MEPC => {
                self.mepc = value & MASK_MEPC;
            },
            addr::MCAUSE => {
                self.mcause = value;
            },
            addr::MTVAL => {
                self.mtval = value;
            },
            addr::MIP => {},
            _ => {
                return false;
            },
        }
        true
    }

    /// Atomic Zicsr read-modify-write.
    ///
    /// `source` is the rs1 value (register variants) or the zero-extended imm5
    /// (`*I` variants); `writes` is whether the instruction performs a write.
    /// Returns the old value, or `None` if the CSR is unrecognised or the write
    /// targets a read-only CSR.
    pub fn access(&mut self, addr: u16, op: CsrOp, source: u32, writes: bool) -> (r: Option<u32>)
        ensures
            r is Some <==> CsrModel::recognised(addr) && (writes ==> CsrModel::writable(addr)),
            r is Some ==> r == old(self)@.read(addr),
            final(self)@ == if r is Some && writes {
                old(self)@.write(addr, op.combine(old(self)@.read(addr)->0, source))
            } else {
                old(self)@
            },
            r is Some && writes ==> {
                let value = match op {
                    CsrOp::Rw => source,
                    CsrOp::Rs => r->0 | source,
                    CsrOp::Rc => r->0 & !source,
                };
                let now = final(self)@;
                &&& addr == 0x300 ==> now.read(addr) == Some((value & 0x88) | 0x1800)
                &&& addr == 0x304 ==> now.read(addr) == Some(value & 0x888)
                &&& addr == 0x305 || addr == 0x341 ==> now.read(addr) == Some(value & 0xFFFF_FFFC)
                &&& addr == 0x340 || addr == 0x342 || addr == 0x343 ==> now.read(addr) == Some(
                    value,
                )
            },
            final(self)@.wf(),
    {
        proof {
            use_type_invariant(&*self);
        }
        let old_value: u32 = match self.read(addr) {
            Some(v) => v,
            None => return None,
        };
        if writes {
            let new_value: u32 = match op {
                CsrOp::Rw => source,
                CsrOp::Rs => old_value | source,
                CsrOp::Rc => old_value & !source,
            };
            proof {
                law_read_after_write(self@, addr, new_value, addr);
            }
            if !self.write(addr, new_value) {
                return None;
            }
        }
        Some(old_value)
    }

    /// Trap-entry microsequence: `mepc <- epc`, `mcause <- cause`,
    /// `mtval <- tval`, `MPIE <- MIE`, `MIE <- 0`. The caller sets
    /// `PC = mtvec.BASE` separately.
    pub fn trap_entry(&mut self, cause: u32, epc: u32, tval: u32)
        ensures
            final(self)@ == old(self)@.trapped(cause, epc, tval),
            final(self)@.wf(),
    {
        proof {
            use_type_invariant(&*self);
            lemma_interrupt_bits(epc);
            lemma_interrupt_bits(self.mstatus);
            lemma_flags(false, true, false);
            lemma_flags(false, false, false);
        }
        self.mepc = epc & MASK_MEPC;
        self.mcause = cause;
        self.mtval = tval;
        let old_mie: bool = self.mstatus & MSTATUS_MIE != 0;
        self.mstatus = if old_mie {
            MSTATUS_MPIE
        } else {
            0
        };
    }

    /// `MRET` microsequence: `MIE <- MPIE`, `MPIE <- 1`. The caller sets
    /// `PC = mepc` separately.
    pub fn mret(&mut self)
        ensures
            final(self)@ == old(self)@.returned(),
            final(self)@.wf(),
    {
        proof {
            use_type_invariant(&*self);
            lemma_interrupt_bits(self.mstatus);
            lemma_flags(true, true, false);
            lemma_flags(false, true, false);
        }
        let old_mpie: bool = self.mstatus & MSTATUS_MPIE != 0;
        self.mstatus = if old_mpie {
            MASK_MSTATUS
        } else {
            MSTATUS_MPIE
        };
    }

    /// `mstatus` as the post-step snapshot sees it (stored bits and synthesised
    /// MPP).
    pub fn mstatus_snapshot(&self) -> (r: u32)
        ensures
            r == self@.mstatus_word(),
    {
        proof {
            use_type_invariant(self);
            lemma_interrupt_bits(self.mstatus);
            let m = self.mstatus;
            assert((m & 0x88) | 0x1800 == (m & 0x88) + 0x1800) by (bit_vector);
        }
        (self.mstatus & MASK_MSTATUS) | MSTATUS_MPP_M
    }

    /// Stored `mtvec`.
    pub fn mtvec_raw(&self) -> (r: u32)
        ensures
            r == self@.mtvec,
    {
        self.mtvec
    }

    /// Stored `mcause`.
    pub fn mcause_raw(&self) -> (r: u32)
        ensures
            r == self@.mcause,
    {
        self.mcause
    }

    /// Stored `mtval`.
    pub fn mtval_raw(&self) -> (r: u32)
        ensures
            r == self@.mtval,
    {
        self.mtval
    }

    /// Stored `mscratch`.
    pub fn mscratch_raw(&self) -> (r: u32)
        ensures
            r == self@.mscratch,
    {
        self.mscratch
    }

    /// Stored `mie`.
    pub fn mie_raw(&self) -> (r: u32)
        ensures
            r == self@.mie_word(),
    {
        proof {
            use_type_invariant(self);
        }
        self.mie
    }
}

impl Default for CsrFile {
    /// The reset state.
    fn default() -> (r: Self)
        ensures
            r@ == CsrModel::reset(),
    {
        CsrFile::new()
    }
}

impl Clone for CsrFile {
    /// A copy of all storage and wires.
    fn clone(&self) -> (r: Self)
        ensures
            r@ == self@,
    {
        proof {
            use_type_invariant(self);
        }
        CsrFile {
            mstatus: self.mstatus,
            mie: self.mie,
            mtvec: self.mtvec,
            mscratch: self.mscratch,
            mepc: self.mepc,
            mcause: self.mcause,
            mtval: self.mtval,
            msip_wire: self.msip_wire,
            mtip_wire: self.mtip_wire,
            meip_wire: self.meip_wire,
        }
    }
}

/// A trap followed by `MRET` gives back the interrupt enable that was in force,
/// and leaves the word-aligned address of the interrupted instruction in `mepc`.
pub proof fn law_mret_undoes_trap_entry(csrs: CsrModel, cause: u32, epc: u32, tval: u32)
    ensures
        !csrs.trapped(cause, epc, tval).mie,
        csrs.trapped(cause, epc, tval).returned().mie == csrs.mie,
        csrs.trapped(cause, epc, tval).returned().mpie,
        csrs.trapped(cause, epc, tval).returned().mepc == crate::word::align4(epc),
        epc % 4 == 0 ==> crate::word::align4(epc) == epc,
{
}

/// A legal write is seen by reads of the same CSR in the bits that have storage,
/// and by reads of no other CSR.
pub proof fn law_read_after_write(csrs: CsrModel, addr: u16, value: u32, other: u16)
    ensures
        addr == addr::MSCRATCH || addr == addr::MCAUSE || addr == addr::MTVAL ==> csrs.write(
            addr,
            value,
        ).read(addr) == Some(value),
        addr == addr::MTVEC || addr == addr::MEPC ==> csrs.write(addr, value).read(addr) == Some(
            value & 0xFFFF_FFFC,
        ),
        addr == addr::MSTATUS ==> csrs.write(addr, value).read(addr) == Some(
            (value & 0x88) | 0x1800,
        ),
        addr == addr::MIE ==> csrs.write(addr, value).read(addr) == Some(value & 0x888),
        !CsrModel::storage(addr) ==> csrs.write(addr, value) == csrs,
        other != addr ==> csrs.write(addr, value).read(other) == csrs.read(other),
{
    lemma_interrupt_bits(value);
    assert((value & 0x88) | 0x1800 == (value & 0x88) + 0x1800) by (bit_vector);
}

/// Writing back what a CSR reads as changes nothing, so a `CSRRS` or `CSRRC` with
/// a zero source has no effect beyond its read.
pub proof fn law_write_back_is_identity(csrs: CsrModel, addr: u16)
    requires
        csrs.wf(),
        CsrModel::recognised(addr),
    ensures
        csrs.write(addr, csrs.read(addr)->0) == csrs,
        csrs.write(addr, CsrOp::Rs.combine(csrs.read(addr)->0, 0)) == csrs,
        csrs.write(addr, CsrOp::Rc.combine(csrs.read(addr)->0, 0)) == csrs,
{
    let old_value = csrs.read(addr)->0;
    assert(old_value | 0 == old_value) by (bit_vector);
    assert(old_value & !0u32 == old_value) by (bit_vector);
    lemma_flags(csrs.msie, csrs.mtie, csrs.meie);
    lemma_mstatus_bits(csrs);
}

/// The file recognises exactly the CSRs that it can read, and every write keeps
/// the two code addresses word-aligned.
pub proof fn law_recognised_is_readable(csrs: CsrModel, addr: u16, value: u32)
    ensures
        CsrModel::recognised(addr) <==> csrs.read(addr) is Some,
        csrs.wf() ==> csrs.write(addr, value).wf(),
        csrs.wf() ==> csrs.trapped(value, value, value).wf(),
        csrs.wf() ==> csrs.returned().wf(),
        CsrModel::reset().wf(),
{
}

/// What software reads tells the whole file: each word is made up of its fields, files
/// that read alike are alike, and the three wires are bits 3, 7 and 11 of `mip`.
pub proof fn law_reads_tell_the_file(one: CsrModel, two: CsrModel)
    ensures
        one.read(0x300) == Some(
            (0x1800 + if one.mie {
                0x8int
            } else {
                0
            } + if one.mpie {
                0x80int
            } else {
                0
            }) as u32,
        ),
        one.read(0x304) == Some(
            (if one.msie {
                0x8int
            } else {
                0
            } + if one.mtie {
                0x80int
            } else {
                0
            } + if one.meie {
                0x800int
            } else {
                0
            }) as u32,
        ),
        one.read(0x344) == Some(
            (if one.msip {
                0x8int
            } else {
                0
            } + if one.mtip {
                0x80int
            } else {
                0
            } + if one.meip {
                0x800int
            } else {
                0
            }) as u32,
        ),
        one.read(0x301) == Some(0x4000_0100u32),
        one.read(0x305) == Some(one.mtvec),
        one.read(0x340) == Some(one.mscratch),
        one.read(0x341) == Some(one.mepc),
        one.read(0x342) == Some(one.mcause),
        one.read(0x343) == Some(one.mtval),
        one.read(0xF11) == Some(0u32) && one.read(0xF12) == Some(0u32) && one.read(0xF13) == Some(
            0u32,
        ) && one.read(0xF14) == Some(0u32),
        (forall|addr: u16| addr != 0x344 ==> #[trigger] one.read(addr) == two.read(addr)) ==> two
            == (CsrModel { msip: two.msip, mtip: two.mtip, meip: two.meip, ..one }),
        (forall|addr: u16| #[trigger] one.read(addr) == two.read(addr)) ==> one == two,
{
    lemma_mstatus_bits(one);
    lemma_mstatus_bits(two);
    lemma_flags(one.msie, one.mtie, one.meie);
    lemma_flags(two.msie, two.mtie, two.meie);
    lemma_flags(one.msip, one.mtip, one.meip);
    lemma_flags(two.msip, two.mtip, two.meip);
    if forall|addr: u16| addr != 0x344 ==> #[trigger] one.read(addr) == two.read(addr) {
        assert(one.read(0x300) == two.read(0x300));
        assert(one.read(0x304) == two.read(0x304));
        assert(one.read(0x305) == two.read(0x305));
        assert(one.read(0x340) == two.read(0x340));
        assert(one.read(0x341) == two.read(0x341));
        assert(one.read(0x342) == two.read(0x342));
        assert(one.read(0x343) == two.read(0x343));
    }
    if forall|addr: u16| #[trigger] one.read(addr) == two.read(addr) {
        assert(one.read(0x344) == two.read(0x344));
    }
}

/// After reset every CSR with storage reads 0, but for the mode in `mstatus`, and no
/// interrupt is pending.
pub proof fn law_reset_reads(addr: u16)
    ensures
        CsrModel::reset().read(addr) == if addr == 0x300 {
            Some(0x1800u32)
        } else if addr == 0x301 {
            Some(0x4000_0100u32)
        } else if addr == 0x304 || addr == 0x305 || 0x340 <= addr <= 0x344 || 0xF11 <= addr
            <= 0xF14 {
            Some(0u32)
        } else {
            None
        },
{
}

/// The addresses at which there is a CSR, and those that take a write: all of these
/// but the four from `0xF11` on.
pub proof fn law_addresses(addr: u16)
    ensures
        CsrModel::recognised(addr) <==> addr == 0x300 || addr == 0x301 || addr == 0x304 || addr
            == 0x305 || 0x340 <= addr <= 0x344 || 0xF11 <= addr <= 0xF14,
        CsrModel::writable(addr) <==> addr == 0x300 || addr == 0x301 || addr == 0x304 || addr
            == 0x305 || 0x340 <= addr <= 0x344,
{
}

/// The three operations on what a CSR reads as: replace it, set the source's bits in it,
/// clear them.
pub proof fn law_operations(old_value: u32, source: u32)
    ensures
        CsrOp::Rw.combine(old_value, source) == source,
        CsrOp::Rs.combine(old_value, source) == old_value | source,
        CsrOp::Rc.combine(old_value, source) == old_value & !source,
{
}

/// Trap entry and `MRET`, by what software reads: trap entry tells the trap in `mepc`,
/// `mcause` and `mtval` and moves `MIE` to `MPIE`; `MRET` moves it back and sets `MPIE`.
/// No other CSR changes.
pub proof fn law_trap_and_return_reads(
    csrs: CsrModel,
    cause: u32,
    epc: u32,
    tval: u32,
    other: u16,
)
    ensures
        ({
            let trapped = csrs.trapped(cause, epc, tval);
            let returned = csrs.returned();
            &&& trapped.read(0x341) == Some(epc & 0xFFFF_FFFC)
            &&& trapped.read(0x342) == Some(cause)
            &&& trapped.read(0x343) == Some(tval)
            &&& trapped.read(0x300) == Some(
                if csrs.read(0x300)->0 & 0x8 != 0 {
                    0x1880u32
                } else {
                    0x1800
                },
            )
            &&& other != 0x300 && !(0x341 <= other <= 0x343) ==> trapped.read(other) == csrs.read(
                other,
            )
            &&& returned.read(0x300) == Some(
                if csrs.read(0x300)->0 & 0x80 != 0 {
                    0x1888u32
                } else {
                    0x1880
                },
            )
            &&& other != 0x300 ==> returned.read(other) == csrs.read(other)
        }),
{
    lemma_interrupt_bits(epc);
    lemma_mie_bit(csrs);
}

} // verus!

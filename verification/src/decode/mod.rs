//! Instruction decode: a raw 32-bit word, its PC and the register file give a
//! [`Uop`].
//!
//! [`decode`] matches on the opcode and reads the `rs1` and `rs2` operands
//! eagerly, so that Execute never touches the register file. No architectural
//! state changes.

use vstd::prelude::*;

use crate::alu::{AluOp, BranchType};
use crate::bus::Width;

mod uop;

pub use uop::{AluSrc1, AluSrc2, CsrOp, CsrSource, MemOp, RdSource, SystemKind, Uop};

verus! {

// Opcodes of the implemented RV32I subset.
const OP: u32 = 0x33;

const OP_IMM: u32 = 0x13;

const LOAD: u32 = 0x03;

const STORE: u32 = 0x23;

const BRANCH: u32 = 0x63;

const JAL: u32 = 0x6F;

const JALR: u32 = 0x67;

const AUIPC: u32 = 0x17;

const LUI: u32 = 0x37;

const SYSTEM: u32 = 0x73;

const MISC_MEM: u32 = 0x0F;

// SYSTEM funct12 (when funct3 == 0).
const FUNCT12_ECALL: u32 = 0x000;

const FUNCT12_EBREAK: u32 = 0x001;

const FUNCT12_MRET: u32 = 0x302;

const FUNCT12_WFI: u32 = 0x105;

/// Bits `[6:0]`.
pub open spec fn opcode_of(raw: u32) -> u32 {
    raw % 0x80
}

/// Bits `[11:7]`.
pub open spec fn rd_of(raw: u32) -> u32 {
    raw / 0x80 % 0x20
}

/// Bits `[14:12]`.
pub open spec fn funct3_of(raw: u32) -> u32 {
    raw / 0x1000 % 0x8
}

/// Bits `[19:15]`.
pub open spec fn rs1_of(raw: u32) -> u32 {
    raw / 0x8000 % 0x20
}

/// Bits `[24:20]`.
pub open spec fn rs2_of(raw: u32) -> u32 {
    raw / 0x10_0000 % 0x20
}

/// Bits `[31:25]`.
pub open spec fn funct7_of(raw: u32) -> u32 {
    raw / 0x200_0000
}

/// Bits `[31:20]`: SYSTEM `funct12` and Zicsr CSR address.
pub open spec fn funct12_of(raw: u32) -> u32 {
    raw / 0x10_0000
}

/// The I-format immediate: bits `[31:20]`, signed.
pub open spec fn imm_i_of(raw: u32) -> u32 {
    crate::word::sign_extend(funct12_of(raw) as int, 0x1000)
}

/// The S-format immediate: bits `[31:25]` then `[11:7]`, signed.
pub open spec fn imm_s_of(raw: u32) -> u32 {
    crate::word::sign_extend(0x20 * funct7_of(raw) + rd_of(raw), 0x1000)
}

/// The B-format immediate: bit 31, bit 7, bits `[30:25]`, bits `[11:8]` and a
/// zero, signed.
pub open spec fn imm_b_of(raw: u32) -> u32 {
    crate::word::sign_extend(
        0x1000 * (raw / 0x8000_0000) + 0x800 * (raw / 0x80 % 2) + 0x20 * (raw / 0x200_0000 % 0x40)
            + 2 * (raw / 0x100 % 0x10),
        0x2000,
    )
}

/// The U-format immediate: bits `[31:12]` and twelve zeros.
pub open spec fn imm_u_of(raw: u32) -> u32 {
    (raw - raw % 0x1000) as u32
}

/// The J-format immediate: bit 31, bits `[19:12]`, bit 20, bits `[30:21]` and a
/// zero, signed.
pub open spec fn imm_j_of(raw: u32) -> u32 {
    crate::word::sign_extend(
        0x10_0000 * (raw / 0x8000_0000) + 0x1000 * (raw / 0x1000 % 0x100) + 0x800 * (raw / 0x10_0000
            % 2) + 2 * (raw / 0x20_0000 % 0x400),
        0x20_0000,
    )
}

fn opcode(raw: u32) -> (r: u32)
    ensures
        r == opcode_of(raw),
{
    assert(raw & 0x7F == raw % 0x80) by (bit_vector);
    raw & 0x7F
}

fn rd(raw: u32) -> (r: u8)
    ensures
        r == rd_of(raw),
{
    assert((raw >> 7) & 0x1F == raw / 0x80 % 0x20) by (bit_vector);
    ((raw >> 7) & 0x1F) as u8
}

fn funct3(raw: u32) -> (r: u32)
    ensures
        r == funct3_of(raw),
{
    assert((raw >> 12) & 0x7 == raw / 0x1000 % 0x8) by (bit_vector);
    (raw >> 12) & 0x7
}

fn rs1(raw: u32) -> (r: u8)
    ensures
        r == rs1_of(raw),
{
    assert((raw >> 15) & 0x1F == raw / 0x8000 % 0x20) by (bit_vector);
    ((raw >> 15) & 0x1F) as u8
}

fn rs2(raw: u32) -> (r: u8)
    ensures
        r == rs2_of(raw),
{
    assert((raw >> 20) & 0x1F == raw / 0x10_0000 % 0x20) by (bit_vector);
    ((raw >> 20) & 0x1F) as u8
}

fn funct7(raw: u32) -> (r: u32)
    ensures
        r == funct7_of(raw),
{
    assert((raw >> 25) & 0x7F == raw / 0x200_0000) by (bit_vector);
    (raw >> 25) & 0x7F
}

/// SYSTEM `funct12` / Zicsr CSR address: the I-type immediate field.
fn funct12(raw: u32) -> (r: u32)
    ensures
        r == funct12_of(raw),
{
    assert((raw >> 20) & 0xFFF == raw / 0x10_0000) by (bit_vector);
    (raw >> 20) & 0xFFF
}

fn imm_i(raw: u32) -> (r: u32)
    ensures
        r == imm_i_of(raw),
{
    assert(((raw as i32) >> 20) as u32 == (if raw / 0x10_0000 < 0x800 {
        (raw / 0x10_0000) as int
    } else {
        raw / 0x10_0000 - 0x1000 + 0x1_0000_0000
    })) by (bit_vector);
    ((raw as i32) >> 20) as u32
}

fn imm_s(raw: u32) -> (r: u32)
    ensures
        r == imm_s_of(raw),
{
    let v: u32 = ((raw >> 25) << 5) | ((raw >> 7) & 0x1F);
    assert(v == 0x20 * (raw / 0x200_0000) + raw / 0x80 % 0x20) by (bit_vector)
        requires
            v == ((raw >> 25) << 5) | ((raw >> 7) & 0x1F),
    ;
    assert((((v << 20) as i32) >> 20) as u32 == (if v < 0x800 {
        v as int
    } else {
        v - 0x1000 + 0x1_0000_0000
    })) by (bit_vector)
        requires
            v < 0x1000,
    ;
    (((v << 20) as i32) >> 20) as u32
}

fn imm_b(raw: u32) -> (r: u32)
    ensures
        r == imm_b_of(raw),
{
    let v: u32 = (((raw >> 31) & 1) << 12) | (((raw >> 7) & 1) << 11) | (((raw >> 25) & 0x3F) << 5)
        | (((raw >> 8) & 0xF) << 1);
    assert(v == 0x1000 * (raw / 0x8000_0000) + 0x800 * (raw / 0x80 % 2) + 0x20 * (raw / 0x200_0000
        % 0x40) + 2 * (raw / 0x100 % 0x10)) by (bit_vector)
        requires
            v == (((raw >> 31) & 1) << 12) | (((raw >> 7) & 1) << 11) | (((raw >> 25) & 0x3F) << 5)
                | (((raw >> 8) & 0xF) << 1),
    ;
    assert((((v << 19) as i32) >> 19) as u32 == (if v < 0x1000 {
        v as int
    } else {
        v - 0x2000 + 0x1_0000_0000
    })) by (bit_vector)
        requires
            v < 0x2000,
    ;
    (((v << 19) as i32) >> 19) as u32
}

fn imm_u(raw: u32) -> (r: u32)
    ensures
        r == imm_u_of(raw),
{
    assert(raw & 0xFFFF_F000 == raw - raw % 0x1000) by (bit_vector);
    raw & 0xFFFF_F000
}

fn imm_j(raw: u32) -> (r: u32)
    ensures
        r == imm_j_of(raw),
{
    let v: u32 = (((raw >> 31) & 1) << 20) | (((raw >> 12) & 0xFF) << 12) | (((raw >> 20) & 1)
        << 11) | (((raw >> 21) & 0x3FF) << 1);
    assert(v == 0x10_0000 * (raw / 0x8000_0000) + 0x1000 * (raw / 0x1000 % 0x100) + 0x800 * (raw
        / 0x10_0000 % 2) + 2 * (raw / 0x20_0000 % 0x400)) by (bit_vector)
        requires
            v == (((raw >> 31) & 1) << 20) | (((raw >> 12) & 0xFF) << 12) | (((raw >> 20) & 1)
                << 11) | (((raw >> 21) & 0x3FF) << 1),
    ;
    assert((((v << 11) as i32) >> 11) as u32 == (if v < 0x10_0000 {
        v as int
    } else {
        v - 0x20_0000 + 0x1_0000_0000
    })) by (bit_vector)
        requires
            v < 0x20_0000,
    ;
    (((v << 11) as i32) >> 11) as u32
}

/// The access width that a `LOAD` or `STORE` `funct3` selects.
pub open spec fn width_of(f3: u32) -> Width {
    if f3 == 0 || f3 == 4 {
        Width::Byte
    } else if f3 == 1 || f3 == 5 {
        Width::Half
    } else {
        Width::Word
    }
}

/// The ALU operation that `funct3` and `funct7` select. `funct7` tells `SUB` from
/// `ADD` (register form only) and `SRA` from `SRL`.
pub open spec fn alu_op_of(is_reg_reg: bool, f3: u32, f7: u32) -> AluOp {
    if f3 == 0 {
        if is_reg_reg && f7 != 0 {
            AluOp::Sub
        } else {
            AluOp::Add
        }
    } else if f3 == 1 {
        AluOp::Sll
    } else if f3 == 2 {
        AluOp::Slt
    } else if f3 == 3 {
        AluOp::Sltu
    } else if f3 == 4 {
        AluOp::Xor
    } else if f3 == 5 {
        if f7 != 0 {
            AluOp::Sra
        } else {
            AluOp::Srl
        }
    } else if f3 == 6 {
        AluOp::Or
    } else {
        AluOp::And
    }
}

/// The condition that a `BRANCH` `funct3` selects; codes 2 and 3 are reserved.
pub open spec fn branch_of(f3: u32) -> Option<BranchType> {
    if f3 == 0 {
        Some(BranchType::Eq)
    } else if f3 == 1 {
        Some(BranchType::Neq)
    } else if f3 == 4 {
        Some(BranchType::Lt)
    } else if f3 == 5 {
        Some(BranchType::Ge)
    } else if f3 == 6 {
        Some(BranchType::Ltu)
    } else if f3 == 7 {
        Some(BranchType::Geu)
    } else {
        None
    }
}

/// The Zicsr operation that a SYSTEM `funct3` selects: 1, 2 and 3 are the register
/// forms, 5, 6 and 7 the immediate ones.
pub open spec fn csr_op_of(f3: u32) -> CsrOp {
    if f3 == 1 || f3 == 5 {
        CsrOp::Rw
    } else if f3 == 2 || f3 == 6 {
        CsrOp::Rs
    } else {
        CsrOp::Rc
    }
}

/// The uop of a SYSTEM instruction.
///
/// With `funct3 == 0` it is `ECALL`, `EBREAK`, `MRET` or `WFI`, which have no
/// registers; 4 is reserved; the rest is Zicsr. `CSRRW` always writes; `CSRRS` and
/// `CSRRC` write only when their `rs1` slot is not 0.
pub open spec fn system_uop(raw: u32, pc: u32, gpr: Seq<u32>) -> Uop {
    let shell = Uop::shell(pc);
    let f3 = funct3_of(raw);
    let f12 = funct12_of(raw);
    let slot = rs1_of(raw);
    if f3 == 0 && slot == 0 && rd_of(raw) == 0 && f12 == 0x000 {
        Uop { system: SystemKind::Ecall, illegal: false, ..shell }
    } else if f3 == 0 && slot == 0 && rd_of(raw) == 0 && f12 == 0x001 {
        Uop { system: SystemKind::Ebreak, illegal: false, ..shell }
    } else if f3 == 0 && slot == 0 && rd_of(raw) == 0 && f12 == 0x302 {
        Uop { system: SystemKind::Mret, illegal: false, ..shell }
    } else if f3 == 0 && slot == 0 && rd_of(raw) == 0 && f12 == 0x105 {
        Uop { system: SystemKind::Wfi, illegal: false, ..shell }
    } else if f3 == 0 || f3 == 4 {
        shell
    } else {
        Uop {
            rd: rd_of(raw) as u8,
            system: SystemKind::Csr {
                op: csr_op_of(f3),
                addr: f12 as u16,
                source: if f3 >= 5 {
                    CsrSource::Imm(slot)
                } else {
                    CsrSource::Reg(gpr[slot as int])
                },
                writes: csr_op_of(f3) == CsrOp::Rw || slot != 0,
            },
            illegal: false,
            ..shell
        }
    }
}

/// The uop of the instruction word `raw` at `pc`, with `gpr` as register file.
pub open spec fn decoded(raw: u32, pc: u32, gpr: Seq<u32>) -> Uop {
    let shell = Uop::shell(pc);
    let opcode = opcode_of(raw);
    let f3 = funct3_of(raw);
    let f7 = funct7_of(raw);
    let rd = rd_of(raw) as u8;
    let rs1 = rs1_of(raw) as u8;
    let rs2 = rs2_of(raw) as u8;
    let rs1_val = gpr[rs1 as int];
    let rs2_val = gpr[rs2 as int];
    if opcode == 0x33 {
        // OP
        Uop {
            rs1,
            rs2,
            rd,
            rs1_val,
            rs2_val,
            alu_op: alu_op_of(true, f3, f7),
            rd_source: RdSource::AluResult,
            illegal: false,
            ..shell
        }
    } else if opcode == 0x13 {
        // OP-IMM
        Uop {
            rs1,
            rd,
            rs1_val,
            imm: imm_i_of(raw),
            alu_src2: AluSrc2::Imm,
            alu_op: alu_op_of(false, f3, f7),
            rd_source: RdSource::AluResult,
            illegal: false,
            ..shell
        }
    } else if opcode == 0x03 {
        // LOAD
        Uop {
            rs1,
            rd,
            rs1_val,
            imm: imm_i_of(raw),
            alu_src2: AluSrc2::Imm,
            rd_source: RdSource::MemLoad,
            mem: Some(
                MemOp { store: false, width: width_of(f3), load_signext: f3 == 0 || f3 == 1 },
            ),
            illegal: false,
            ..shell
        }
    } else if opcode == 0x23 {
        // STORE
        Uop {
            rs1,
            rs2,
            rs1_val,
            rs2_val,
            imm: imm_s_of(raw),
            alu_src2: AluSrc2::Imm,
            mem: Some(MemOp { store: true, width: width_of(f3), load_signext: false }),
            illegal: false,
            ..shell
        }
    } else if opcode == 0x63 {
        // BRANCH
        Uop {
            rs1,
            rs2,
            rs1_val,
            rs2_val,
            imm: imm_b_of(raw),
            alu_src1: AluSrc1::Pc,
            alu_src2: AluSrc2::Imm,
            branch: branch_of(f3),
            illegal: branch_of(f3) is None,
            ..shell
        }
    } else if opcode == 0x6F {
        // JAL
        Uop {
            rd,
            imm: imm_j_of(raw),
            alu_src1: AluSrc1::Pc,
            alu_src2: AluSrc2::Imm,
            branch: Some(BranchType::JumpAnyway),
            rd_source: RdSource::PcPlus4,
            illegal: false,
            ..shell
        }
    } else if opcode == 0x67 {
        // JALR
        Uop {
            rs1,
            rd,
            rs1_val,
            imm: imm_i_of(raw),
            alu_src2: AluSrc2::Imm,
            branch: Some(BranchType::JumpAnyway),
            rd_source: RdSource::PcPlus4,
            illegal: false,
            ..shell
        }
    } else if opcode == 0x17 {
        // AUIPC
        Uop {
            rd,
            imm: imm_u_of(raw),
            alu_src1: AluSrc1::Pc,
            alu_src2: AluSrc2::Imm,
            rd_source: RdSource::AluResult,
            illegal: false,
            ..shell
        }
    } else if opcode == 0x37 {
        // LUI
        Uop {
            rd,
            imm: imm_u_of(raw),
            alu_src1: AluSrc1::Zero,
            alu_src2: AluSrc2::Imm,
            rd_source: RdSource::AluResult,
            illegal: false,
            ..shell
        }
    } else if opcode == 0x0F {
        // MISC-MEM: FENCE is a NOP, FENCE.I is not implemented
        Uop { illegal: f3 != 0, ..shell }
    } else if opcode == 0x73 {
        // SYSTEM
        system_uop(raw, pc, gpr)
    } else {
        shell
    }
}

/// Width for a `LOAD` / `STORE` `funct3`.
fn mem_width(f3: u32) -> (r: Width)
    ensures
        r == width_of(f3),
{
    match f3 {
        0 | 4 => Width::Byte,
        1 | 5 => Width::Half,
        _ => Width::Word,
    }
}

/// ALU op for an `OP` / `OP_IMM` instruction. For `OP_IMM`, `SUB` is impossible
/// (`ADDI` always adds) and `SRAI` carries a non-zero `funct7` in its immediate.
fn arith_alu_op(is_reg_reg: bool, f3: u32, f7: u32) -> (r: AluOp)
    ensures
        r == alu_op_of(is_reg_reg, f3, f7),
{
    match f3 {
        0 => {
            if is_reg_reg && f7 != 0 {
                AluOp::Sub
            } else {
                AluOp::Add
            }
        },
        1 => AluOp::Sll,
        2 => AluOp::Slt,
        3 => AluOp::Sltu,
        4 => AluOp::Xor,
        5 => {
            if f7 != 0 {
                AluOp::Sra
            } else {
                AluOp::Srl
            }
        },
        6 => AluOp::Or,
        _ => AluOp::And,
    }
}

/// Branch condition for a `BRANCH` `funct3`; `None` for the two reserved codes,
/// which the decoder leaves illegal.
fn branch_cond(f3: u32) -> (r: Option<BranchType>)
    ensures
        r == branch_of(f3),
{
    match f3 {
        0 => Some(BranchType::Eq),
        1 => Some(BranchType::Neq),
        4 => Some(BranchType::Lt),
        5 => Some(BranchType::Ge),
        6 => Some(BranchType::Ltu),
        7 => Some(BranchType::Geu),
        _ => None,
    }
}

/// Decode `raw` (the instruction at `pc`) against register file `gpr`.
pub fn decode(raw: u32, pc: u32, gpr: &[u32; 32]) -> (r: Uop)
    ensures
        r == decoded(raw, pc, gpr@),
{
    let mut u = Uop::blank(pc);
    let (rs1, rs2, rd, f3, f7) = (rs1(raw), rs2(raw), rd(raw), funct3(raw), funct7(raw));
    match opcode(raw) {
        OP => {
            u.rs1 = rs1;
            u.rs2 = rs2;
            u.rd = rd;
            u.rs1_val = gpr[rs1 as usize];
            u.rs2_val = gpr[rs2 as usize];
            u.alu_src1 = AluSrc1::Rs1;
            u.alu_src2 = AluSrc2::Rs2;
            u.alu_op = arith_alu_op(true, f3, f7);
            u.rd_source = RdSource::AluResult;
            u.illegal = false;
        },
        OP_IMM => {
            u.rs1 = rs1;
            u.rd = rd;
            u.rs1_val = gpr[rs1 as usize];
            u.imm = imm_i(raw);
            u.alu_src1 = AluSrc1::Rs1;
            u.alu_src2 = AluSrc2::Imm;
            u.alu_op = arith_alu_op(false, f3, f7);
            u.rd_source = RdSource::AluResult;
            u.illegal = false;
        },
        LOAD => {
            u.rs1 = rs1;
            u.rd = rd;
            u.rs1_val = gpr[rs1 as usize];
            u.imm = imm_i(raw);
            u.alu_src1 = AluSrc1::Rs1;
            u.alu_src2 = AluSrc2::Imm;
            u.alu_op = AluOp::Add;
            u.rd_source = RdSource::MemLoad;
            u.mem = Some(
                MemOp { store: false, width: mem_width(f3), load_signext: f3 == 0 || f3 == 1 },
            );
            u.illegal = false;
        },
        STORE => {
            u.rs1 = rs1;
            u.rs2 = rs2;
            u.rs1_val = gpr[rs1 as usize];
            u.rs2_val = gpr[rs2 as usize];
            u.imm = imm_s(raw);
            u.alu_src1 = AluSrc1::Rs1;
            u.alu_src2 = AluSrc2::Imm;
            u.alu_op = AluOp::Add;
            u.rd_source = RdSource::Skip;
            u.mem = Some(MemOp { store: true, width: mem_width(f3), load_signext: false });
            u.illegal = false;
        },
        BRANCH => {
            u.rs1 = rs1;
            u.rs2 = rs2;
            u.rs1_val = gpr[rs1 as usize];
            u.rs2_val = gpr[rs2 as usize];
            u.imm = imm_b(raw);
            u.alu_src1 = AluSrc1::Pc;
            u.alu_src2 = AluSrc2::Imm;
            u.alu_op = AluOp::Add;
            u.rd_source = RdSource::Skip;
            match branch_cond(f3) {
                Some(bt) => {
                    u.branch = Some(bt);
                    u.illegal = false;
                },
                None => {},
            }
        },
        JAL => {
            u.rd = rd;
            u.imm = imm_j(raw);
            u.alu_src1 = AluSrc1::Pc;
            u.alu_src2 = AluSrc2::Imm;
            u.alu_op = AluOp::Add;
            u.branch = Some(BranchType::JumpAnyway);
            u.rd_source = RdSource::PcPlus4;
            u.illegal = false;
        },
        JALR => {
            u.rs1 = rs1;
            u.rd = rd;
            u.rs1_val = gpr[rs1 as usize];
            u.imm = imm_i(raw);
            u.alu_src1 = AluSrc1::Rs1;
            u.alu_src2 = AluSrc2::Imm;
            u.alu_op = AluOp::Add;
            u.branch = Some(BranchType::JumpAnyway);
            u.rd_source = RdSource::PcPlus4;
            u.illegal = false;
        },
        AUIPC => {
            u.rd = rd;
            u.imm = imm_u(raw);
            u.alu_src1 = AluSrc1::Pc;
            u.alu_src2 = AluSrc2::Imm;
            u.alu_op = AluOp::Add;
            u.rd_source = RdSource::AluResult;
            u.illegal = false;
        },
        LUI => {
            u.rd = rd;
            u.imm = imm_u(raw);
            u.alu_src1 = AluSrc1::Zero;
            u.alu_src2 = AluSrc2::Imm;
            u.alu_op = AluOp::Add;
            u.rd_source = RdSource::AluResult;
            u.illegal = false;
        },
        MISC_MEM => {
            // FENCE / FENCE.TSO / PAUSE are NOPs. FENCE.I (funct3 == 1) is
            // Zifencei, which is not implemented.
            u.rd_source = RdSource::Skip;
            if f3 == 0 {
                u.illegal = false;
            }
        },
        SYSTEM => {
            decode_system(&mut u, raw, rs1, rd, f3, gpr);
        },
        // The blank uop is illegal already.
        _ => {},
    }
    u
}

/// SYSTEM-opcode sub-decode: trap-control ops (`funct3 == 0`) told apart by
/// `funct12`, or the Zicsr family. Any other form leaves the blank uop illegal.
fn decode_system(u: &mut Uop, raw: u32, rs1: u8, rd: u8, f3: u32, gpr: &[u32; 32])
    requires
        *old(u) == Uop::shell(old(u).pc),
        rs1 == rs1_of(raw),
        rd == rd_of(raw),
        f3 == funct3_of(raw),
    ensures
        *final(u) == system_uop(raw, old(u).pc, gpr@),
{
    u.rd_source = RdSource::Skip;
    match f3 {
        0 => {
            // ECALL / EBREAK / MRET / WFI: rs1 and rd must be 0.
            if rs1 != 0 || rd != 0 {
                return;
            }
            match funct12(raw) {
                FUNCT12_ECALL => {
                    u.system = SystemKind::Ecall;
                    u.illegal = false;
                },
                FUNCT12_EBREAK => {
                    u.system = SystemKind::Ebreak;
                    u.illegal = false;
                },
                FUNCT12_MRET => {
                    u.system = SystemKind::Mret;
                    u.illegal = false;
                },
                FUNCT12_WFI => {
                    u.system = SystemKind::Wfi;
                    u.illegal = false;
                },
                _ => {},
            }
        },
        // Reserved.
        4 => {},
        _ => {
            // Zicsr. funct3 1, 2, 3 are register variants; 5, 6, 7 are imm5.
            let addr: u16 = funct12(raw) as u16;
            let is_imm: bool = f3 >= 5;
            let op = match f3 {
                1 | 5 => CsrOp::Rw,
                2 | 6 => CsrOp::Rs,
                _ => CsrOp::Rc,
            };
            let source = if is_imm {
                // uimm5 lives in the rs1 slot
                CsrSource::Imm(rs1 as u32)
            } else {
                CsrSource::Reg(gpr[rs1 as usize])
            };
            // CSRRW always writes; CSRRS/CSRRC write only when the slot is not 0.
            let writes: bool = op == CsrOp::Rw || rs1 != 0;
            u.rd = rd;
            u.system = SystemKind::Csr { op, addr, source, writes };
            u.illegal = false;
        },
    }
}

/// The fields of an instruction word are disjoint and leave no bit out: together
/// they give back the word.
pub proof fn law_fields_make_up_the_word(raw: u32)
    ensures
        raw == opcode_of(raw) + 0x80 * rd_of(raw) + 0x1000 * funct3_of(raw) + 0x8000 * rs1_of(raw)
            + 0x10_0000 * rs2_of(raw) + 0x200_0000 * funct7_of(raw),
        funct12_of(raw) == 0x20 * funct7_of(raw) + rs2_of(raw),
{
    assert(raw == raw % 0x80 + 0x80 * (raw / 0x80 % 0x20) + 0x1000 * (raw / 0x1000 % 0x8) + 0x8000
        * (raw / 0x8000 % 0x20) + 0x10_0000 * (raw / 0x10_0000 % 0x20) + 0x200_0000 * (raw
        / 0x200_0000)) by (bit_vector);
}

/// Each immediate lies in the range of its format, and jump offsets are even.
pub proof fn law_immediate_ranges(raw: u32)
    ensures
        -0x800 <= crate::word::signed(imm_i_of(raw)) < 0x800,
        -0x800 <= crate::word::signed(imm_s_of(raw)) < 0x800,
        -0x1000 <= crate::word::signed(imm_b_of(raw)) < 0x1000,
        -0x10_0000 <= crate::word::signed(imm_j_of(raw)) < 0x10_0000,
        imm_b_of(raw) % 2 == 0,
        imm_j_of(raw) % 2 == 0,
        imm_u_of(raw) % 0x1000 == 0,
{
}

/// Decoding keeps the PC, names only existing registers, and captures the value
/// of each source register that it names.
pub proof fn law_decoded_registers(raw: u32, pc: u32, gpr: Seq<u32>)
    requires
        gpr.len() == 32,
    ensures
        ({
            let u = decoded(raw, pc, gpr);
            &&& u.pc == pc
            &&& u.rd < 32 && u.rs1 < 32 && u.rs2 < 32
            &&& u.rs1 != 0 ==> u.rs1_val == gpr[u.rs1 as int]
            &&& u.rs2 != 0 ==> u.rs2_val == gpr[u.rs2 as int]
        }),
{
}

} // verus!

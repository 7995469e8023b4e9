//! The ALU and branch-condition evaluators: pure functions over `u32`.
//!
//! Shifts take their amount modulo 32 and arithmetic wraps, so no operand pair
//! is out of range.

use vstd::prelude::*;

verus! {

/// The ten RV32I integer ALU operations.
#[derive(Copy, Clone, PartialEq, Eq, Debug, Structural)]
pub enum AluOp {
    /// `a + b`
    Add,
    /// `a << (b & 0x1F)`
    Sll,
    /// signed `a < b`, as 1 or 0
    Slt,
    /// unsigned `a < b`, as 1 or 0
    Sltu,
    /// `a ^ b`
    Xor,
    /// logical `a >> (b & 0x1F)`
    Srl,
    /// `a | b`
    Or,
    /// `a & b`
    And,
    /// `a - b`
    Sub,
    /// arithmetic `a >> (b & 0x1F)`
    Sra,
}

impl AluOp {
    /// The value of `self` on the operands `a` and `b`.
    pub open spec fn result(self, a: u32, b: u32) -> u32 {
        let factor = vstd::arithmetic::power2::pow2((b % 32) as nat) as int;
        match self {
            AluOp::Add => crate::word::wrap(a + b),
            AluOp::Sub => crate::word::wrap(a - b),
            AluOp::Sll => crate::word::wrap(a * factor),
            AluOp::Srl => (a as int / factor) as u32,
            AluOp::Sra => crate::word::wrap(crate::word::signed(a) / factor),
            AluOp::Slt => if crate::word::signed(a) < crate::word::signed(b) {
                1
            } else {
                0
            },
            AluOp::Sltu => if a < b {
                1
            } else {
                0
            },
            AluOp::Xor => a ^ b,
            AluOp::Or => a | b,
            AluOp::And => a & b,
        }
    }

    /// Compute `op(a, b)`. Shift amounts are masked to five bits.
    pub fn apply(self, a: u32, b: u32) -> (r: u32)
        ensures
            r == self.result(a, b),
    {
        let sh: u32 = b & 0x1F;
        proof {
            crate::word::lemma_low5(b);
            crate::word::lemma_as_signed(a);
            crate::word::lemma_as_signed(b);
            crate::word::lemma_shl(a, sh);
            crate::word::lemma_shr(a, sh);
            crate::word::lemma_sar(a, sh);
        }
        match self {
            AluOp::Add => a.wrapping_add(b),
            AluOp::Sub => a.wrapping_sub(b),
            AluOp::Sll => a << sh,
            AluOp::Srl => a >> sh,
            AluOp::Sra => ((a as i32) >> sh) as u32,
            AluOp::Slt => if (a as i32) < (b as i32) {
                1
            } else {
                0
            },
            AluOp::Sltu => if a < b {
                1
            } else {
                0
            },
            AluOp::Xor => a ^ b,
            AluOp::Or => a | b,
            AluOp::And => a & b,
        }
    }
}

/// Branch condition. `JumpAnyway` covers the unconditional `JAL` and `JALR`.
#[derive(Copy, Clone, PartialEq, Eq, Debug, Structural)]
pub enum BranchType {
    /// Always taken (`JAL` / `JALR`).
    JumpAnyway,
    /// `BEQ`
    Eq,
    /// `BNE`
    Neq,
    /// `BLT` (signed)
    Lt,
    /// `BLTU` (unsigned)
    Ltu,
    /// `BGE` (signed)
    Ge,
    /// `BGEU` (unsigned)
    Geu,
}

impl BranchType {
    /// Whether the condition holds of the two source-register values.
    pub open spec fn holds(self, rs1: u32, rs2: u32) -> bool {
        match self {
            BranchType::JumpAnyway => true,
            BranchType::Eq => rs1 == rs2,
            BranchType::Neq => rs1 != rs2,
            BranchType::Lt => crate::word::signed(rs1) < crate::word::signed(rs2),
            BranchType::Ge => crate::word::signed(rs1) >= crate::word::signed(rs2),
            BranchType::Ltu => rs1 < rs2,
            BranchType::Geu => rs1 >= rs2,
        }
    }

    /// Evaluate the condition against the two source-register values.
    pub fn taken(self, rs1: u32, rs2: u32) -> (r: bool)
        ensures
            r == self.holds(rs1, rs2),
    {
        proof {
            crate::word::lemma_as_signed(rs1);
            crate::word::lemma_as_signed(rs2);
        }
        match self {
            BranchType::JumpAnyway => true,
            BranchType::Eq => rs1 == rs2,
            BranchType::Neq => rs1 != rs2,
            BranchType::Lt => (rs1 as i32) < (rs2 as i32),
            BranchType::Ge => (rs1 as i32) >= (rs2 as i32),
            BranchType::Ltu => rs1 < rs2,
            BranchType::Geu => rs1 >= rs2,
        }
    }
}

/// A shift only looks at its amount modulo 32, so shifting by a multiple of 32
/// is the identity.
pub proof fn law_shift_amount_is_masked(op: AluOp, a: u32, b: u32)
    requires
        op is Sll || op is Srl || op is Sra,
    ensures
        op.result(a, b) == op.result(a, (b % 32) as u32),
        b % 32 == 0 ==> op.result(a, b) == a,
{
    if b % 32 == 0 {
        vstd::arithmetic::power2::lemma2_to64();
        crate::word::lemma_signed_wrap(a);
        let factor = vstd::arithmetic::power2::pow2((b % 32) as nat) as int;
        let s = crate::word::signed(a);
        assert(a * factor == a && a as int / factor == a && s / factor == s) by (nonlinear_arith)
            requires
                factor == 1,
        ;
    }
}

/// Subtraction undoes addition, and addition undoes subtraction.
pub proof fn law_add_sub_inverse(a: u32, b: u32)
    ensures
        AluOp::Sub.result(AluOp::Add.result(a, b), b) == a,
        AluOp::Add.result(AluOp::Sub.result(a, b), b) == a,
{
}

/// Of each conditional branch and its opposite, exactly one is taken.
pub proof fn law_opposite_branches(rs1: u32, rs2: u32)
    ensures
        BranchType::Eq.holds(rs1, rs2) == !BranchType::Neq.holds(rs1, rs2),
        BranchType::Lt.holds(rs1, rs2) == !BranchType::Ge.holds(rs1, rs2),
        BranchType::Ltu.holds(rs1, rs2) == !BranchType::Geu.holds(rs1, rs2),
{
}

/// A conditional branch is taken exactly when the set-if-less-than operation of
/// the same signedness says so.
pub proof fn law_branch_agrees_with_compare(rs1: u32, rs2: u32)
    ensures
        BranchType::Lt.holds(rs1, rs2) <==> AluOp::Slt.result(rs1, rs2) == 1,
        BranchType::Ltu.holds(rs1, rs2) <==> AluOp::Sltu.result(rs1, rs2) == 1,
{
}

/// What each operation gives, in machine arithmetic. `SLT` compares the
/// two's-complement values and `SLTU` the unsigned ones.
pub proof fn law_operation_results(a: u32, b: u32)
    ensures
        AluOp::Add.result(a, b) == (a + b) % 0x1_0000_0000,
        AluOp::Sub.result(a, b) == (a - b) % 0x1_0000_0000,
        AluOp::Sll.result(a, b) == a << ((b % 32) as u32),
        AluOp::Srl.result(a, b) == a >> ((b % 32) as u32),
        AluOp::Sra.result(a, b) == ((a as i32) >> ((b % 32) as u32)) as u32,
        AluOp::Slt.result(a, b) == if (a as i32) < (b as i32) {
            1u32
        } else {
            0
        },
        AluOp::Sltu.result(a, b) == if a < b {
            1u32
        } else {
            0
        },
        AluOp::Xor.result(a, b) == a ^ b,
        AluOp::Or.result(a, b) == a | b,
        AluOp::And.result(a, b) == a & b,
{
    let sh = (b % 32) as u32;
    crate::word::lemma_as_signed(a);
    crate::word::lemma_as_signed(b);
    crate::word::lemma_shl(a, sh);
    crate::word::lemma_shr(a, sh);
    crate::word::lemma_sar(a, sh);
}

/// When each branch is taken: `BLT` and `BGE` compare the two's-complement values,
/// `BLTU` and `BGEU` the unsigned ones.
pub proof fn law_branch_conditions(a: u32, b: u32)
    ensures
        BranchType::JumpAnyway.holds(a, b),
        BranchType::Eq.holds(a, b) <==> a == b,
        BranchType::Neq.holds(a, b) <==> a != b,
        BranchType::Lt.holds(a, b) <==> (a as i32) < (b as i32),
        BranchType::Ge.holds(a, b) <==> (a as i32) >= (b as i32),
        BranchType::Ltu.holds(a, b) <==> a < b,
        BranchType::Geu.holds(a, b) <==> a >= b,
{
    crate::word::lemma_as_signed(a);
    crate::word::lemma_as_signed(b);
}

/// Signed and unsigned less-than, as the branches ask for it, are strict total orders.
pub proof fn law_less_than_is_an_order(op: BranchType, a: u32, b: u32, c: u32)
    requires
        op is Lt || op is Ltu,
    ensures
        !op.holds(a, a),
        op.holds(a, b) && op.holds(b, c) ==> op.holds(a, c),
        a != b ==> op.holds(a, b) != op.holds(b, a),
        op is Lt && a >= 0x8000_0000 && b < 0x8000_0000 ==> op.holds(a, b),
{
}

/// Exclusive or undoes itself, and splits into the bits of either and of both.
pub proof fn law_bitwise_operations(a: u32, b: u32)
    ensures
        AluOp::Xor.result(AluOp::Xor.result(a, b), b) == a,
        AluOp::Or.result(a, b) == AluOp::Add.result(
            AluOp::Xor.result(a, b),
            AluOp::And.result(a, b),
        ),
{
    assert((a ^ b) ^ b == a && a | b == (a ^ b) + (a & b)) by (bit_vector);
}

} // verus!

//! ALU operations and branch conditions.

use iss_core::alu::{AluOp, BranchType};

#[test]
fn shifts_mask_amount_and_dont_panic() {
    // Shift amount 32 masks to 0 gives identity (would panic with plain `<<`).
    assert_eq!(AluOp::Sll.apply(1, 32), 1);
    assert_eq!(AluOp::Srl.apply(0x8000_0000, 32), 0x8000_0000);
    assert_eq!(AluOp::Sra.apply(0x8000_0000, 1), 0xC000_0000);
}

#[test]
fn add_sub_wrap() {
    assert_eq!(AluOp::Add.apply(0xFFFF_FFFF, 1), 0);
    assert_eq!(AluOp::Sub.apply(0, 1), 0xFFFF_FFFF);
}

#[test]
fn signed_vs_unsigned_compare() {
    assert_eq!(AluOp::Slt.apply(0xFFFF_FFFF, 1), 1); // -1 < 1
    assert_eq!(AluOp::Sltu.apply(0xFFFF_FFFF, 1), 0); // big < 1 = false
}

#[test]
fn branch_conditions() {
    assert!(BranchType::Eq.taken(5, 5));
    assert!(BranchType::Lt.taken(0xFFFF_FFFF, 0)); // -1 < 0
    assert!(!BranchType::Ltu.taken(0xFFFF_FFFF, 0));
    assert!(BranchType::JumpAnyway.taken(1, 2));
}

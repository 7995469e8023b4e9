//! [`ArchState`]: the full programmer-visible architectural snapshot.
//!
//! The CSR file is part of architectural state (trap entry and `MRET` change it
//! just as ALU operations change the GPRs), so it lives here and
//! [`Core::state`](crate::Core::state) and
//! [`set_state`](crate::Core::set_state) capture and restore it with the rest.

use vstd::prelude::*;

use crate::csr::{CsrFile, CsrModel};

verus! {

/// PC, the 32 integer GPRs and the M-mode CSR file.
///
/// `x0` is architecturally hardwired to zero. The array stores it like any other
/// register; [`write_gpr`](Self::write_gpr) drops writes to it.
#[derive(Debug, PartialEq, Eq)]
pub struct ArchState {
    /// Program counter.
    pub pc: u32,
    /// `x0`-`x31`. `gpr[0]` is 0 unless it was set by hand.
    pub gpr: [u32; 32],
    /// M-mode CSR file (seven storage CSRs and wire inputs).
    pub csrs: CsrFile,
}

/// What an [`ArchState`] holds.
#[verifier::ext_equal]
pub struct ArchModel {
    pub pc: u32,
    pub gpr: Seq<u32>,
    pub csrs: CsrModel,
}

impl ArchModel {
    /// The state after reset.
    pub open spec fn reset() -> ArchModel {
        ArchModel { pc: 0, gpr: Seq::new(32, |i: int| 0u32), csrs: CsrModel::reset() }
    }

    /// The registers after `value` is written to register `index`: a write to
    /// `x0` is dropped.
    pub open spec fn with_gpr(self, index: u8, value: u32) -> ArchModel {
        if index == 0 {
            self
        } else {
            ArchModel { gpr: self.gpr.update(index as int, value), ..self }
        }
    }
}

impl View for ArchState {
    type V = ArchModel;

    open spec fn view(&self) -> ArchModel {
        ArchModel { pc: self.pc, gpr: self.gpr@, csrs: self.csrs@ }
    }
}

impl ArchState {
    /// Reset state: `pc = 0`, all GPRs 0, CSR file in reset.
    pub fn new() -> (r: Self)
        ensures
            r@ == ArchModel::reset(),
    {
        let r = ArchState { pc: 0, gpr: [0;32], csrs: CsrFile::new() };
        assert(r.gpr@ =~= Seq::new(32, |i: int| 0u32));
        r
    }

    /// Read `gpr[index]`.
    pub fn read_gpr(&self, index: u8) -> (r: u32)
        requires
            index < 32,
        ensures
            r == self@.gpr[index as int],
    {
        self.gpr[index as usize]
    }

    /// Write `value` to `gpr[index]`, honouring the `x0`-hardwired-zero rule: a
    /// write to `index == 0` is a no-op.
    pub fn write_gpr(&mut self, index: u8, value: u32)
        requires
            index < 32,
        ensures
            final(self)@ == old(self)@.with_gpr(index, value),
            final(self)@.gpr[0] == old(self)@.gpr[0],
    {
        if index != 0 {
            self.gpr[index as usize] = value;
        }
    }
}

impl Default for ArchState {
    /// The reset state.
    fn default() -> (r: Self)
        ensures
            r@ == ArchModel::reset(),
    {
        ArchState::new()
    }
}

impl Clone for ArchState {
    /// A copy of all registers.
    fn clone(&self) -> (r: Self)
        ensures
            r@ == self@,
    {
        ArchState { pc: self.pc, gpr: self.gpr, csrs: self.csrs.clone() }
    }
}

/// A register write is read back unless it went to `x0`, and touches no other
/// register.
pub proof fn law_gpr_read_after_write(state: ArchModel, index: u8, value: u32, other: int)
    requires
        state.gpr.len() == 32,
        index < 32,
        0 <= other < 32,
    ensures
        index != 0 ==> state.with_gpr(index, value).gpr[index as int] == value,
        other != index || other == 0 ==> state.with_gpr(index, value).gpr[other]
            == state.gpr[other],
        state.with_gpr(index, value).pc == state.pc,
        state.with_gpr(index, value).csrs == state.csrs,
{
}

/// After reset the PC and all registers are 0.
pub proof fn law_reset_state(i: int)
    requires
        0 <= i < 32,
    ensures
        ArchModel::reset().pc == 0,
        ArchModel::reset().gpr.len() == 32,
        ArchModel::reset().gpr[i] == 0,
        ArchModel::reset().csrs == CsrModel::reset(),
{
}

} // verus!

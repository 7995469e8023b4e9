//! The 13 recognised CSR addresses.

use vstd::prelude::*;

verus! {

pub const MSTATUS: u16 = 0x300;

pub const MISA: u16 = 0x301;

pub const MIE: u16 = 0x304;

pub const MTVEC: u16 = 0x305;

pub const MSCRATCH: u16 = 0x340;

pub const MEPC: u16 = 0x341;

pub const MCAUSE: u16 = 0x342;

pub const MTVAL: u16 = 0x343;

pub const MIP: u16 = 0x344;

pub const MVENDORID: u16 = 0xF11;

pub const MARCHID: u16 = 0xF12;

pub const MIMPID: u16 = 0xF13;

pub const MHARTID: u16 = 0xF14;

} // verus!

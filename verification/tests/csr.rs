//! The M-mode CSR file.

use iss_core::csr::{addr, CsrFile, CsrOp};

#[test]
fn mstatus_synthesises_mpp() {
    let csr = CsrFile::new();
    // MPP = 0b11 even at reset.
    assert_eq!(csr.read(addr::MSTATUS), Some(0x1800));
}

#[test]
fn mip_wire_synthesis() {
    let mut csr = CsrFile::new();
    csr.set_wires(true, false, true);
    assert_eq!(csr.read(addr::MIP), Some((1 << 3) | (1 << 11)));
}

#[test]
fn addr_writable_marks_info_csrs_readonly() {
    assert!(CsrFile::addr_writable(addr::MSTATUS));
    assert!(CsrFile::addr_writable(addr::MIP)); // silent, but "writable"
    assert!(!CsrFile::addr_writable(addr::MHARTID)); // addr[11:10] == 0b11
    assert!(!CsrFile::addr_writable(0x999)); // unrecognised
}

#[test]
fn misa_and_mip_writes_silently_ignored() {
    let mut csr = CsrFile::new();
    assert!(csr.write(addr::MISA, 0xFFFF_FFFF));
    assert_eq!(csr.read(addr::MISA), Some(0x4000_0100));
    assert!(csr.write(addr::MIP, 0xFFFF_FFFF));
    assert_eq!(csr.read(addr::MIP), Some(0));
}

#[test]
fn write_to_readonly_info_csr_rejected() {
    let mut csr = CsrFile::new();
    assert!(!csr.write(addr::MHARTID, 1));
}

#[test]
fn atomic_access_rw_rs_rc() {
    let mut csr = CsrFile::new();
    // RW writes 0xF into mscratch, returns old (0).
    assert_eq!(csr.access(addr::MSCRATCH, CsrOp::Rw, 0xF, true), Some(0));
    // RS sets bit 4, returns old 0xF.
    assert_eq!(csr.access(addr::MSCRATCH, CsrOp::Rs, 0x10, true), Some(0xF));
    assert_eq!(csr.read(addr::MSCRATCH), Some(0x1F));
    // RC clears bit 0, returns old 0x1F.
    assert_eq!(csr.access(addr::MSCRATCH, CsrOp::Rc, 0x1, true), Some(0x1F));
    assert_eq!(csr.read(addr::MSCRATCH), Some(0x1E));
}

#[test]
fn atomic_access_unknown_addr_is_none() {
    let mut csr = CsrFile::new();
    assert_eq!(csr.access(0x999, CsrOp::Rw, 0, true), None);
}

#[test]
fn trap_entry_then_mret_round_trips_mie() {
    let mut csr = CsrFile::new();
    // Enable MIE.
    csr.write(addr::MSTATUS, 0x8);
    csr.trap_entry(11, 0x100, 0);
    // After trap: MIE cleared, MPIE set, mepc/mcause recorded.
    assert!(!csr.mie_enabled());
    assert_eq!(csr.mepc(), 0x100);
    assert_eq!(csr.read(addr::MCAUSE), Some(11));
    // mret restores MIE.
    csr.mret();
    assert!(csr.mie_enabled());
}

#[test]
fn mtvec_mode_bits_forced_zero() {
    let mut csr = CsrFile::new();
    csr.write(addr::MTVEC, 0x8000_0003); // request vectored mode
    assert_eq!(csr.mtvec_base(), 0x8000_0000);
}

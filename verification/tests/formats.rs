//! Codes, tags and snapshots: the fixed values that other tools rely on.

use iss_core::csr::{addr, CsrFile, CsrOp};
use iss_core::decode::CsrSource;
use iss_core::packet::CsrSnapshot;
use iss_core::{ArchState, AxiResp, CommitPacket, HaltEvent, HaltKind, Width};

#[test]
fn halt_codes_and_tags() {
    let table = [
        (HaltKind::Voluntary { a0: 7 }, 7, "EBREAK voluntary"),
        (HaltKind::Illegal, 130, "illegal instruction"),
        (HaltKind::BusErrorIf, 131, "IF bus error"),
        (HaltKind::BusErrorLd, 132, "LD bus error"),
        (HaltKind::BusErrorSt, 133, "ST bus error"),
        (HaltKind::MisalignPc, 134, "misaligned PC"),
        (HaltKind::MisalignLd, 134, "misaligned load"),
        (HaltKind::MisalignSt, 134, "misaligned store"),
        (HaltKind::DoubleTrap, 135, "double trap"),
    ];
    for (kind, code, tag) in table {
        assert_eq!(kind.exit_code(), code);
        assert_eq!(kind.tag(), tag);
        assert_eq!(
            HaltEvent::new(kind),
            HaltEvent {
                kind,
                exit_code: code
            }
        );
    }
}

#[test]
fn response_names() {
    assert_eq!(AxiResp::Okay.name(), "OKAY");
    assert_eq!(AxiResp::ExOkay.name(), "EXOKAY");
    assert_eq!(AxiResp::SlvErr.name(), "SLVERR");
    assert_eq!(AxiResp::DecErr.name(), "DECERR");
}

#[test]
fn widths() {
    let table = [(Width::Byte, 1, 0x1), (Width::Half, 2, 0x3), (Width::Word, 4, 0xF)];
    for (width, bytes, strb) in table {
        assert_eq!(width.bytes(), bytes);
        assert_eq!(width.full_strb(), strb);
        for a in 0..8 {
            assert_eq!(width.is_aligned(a), a % bytes == 0);
        }
    }
}

#[test]
fn csr_masks() {
    let cases = [
        (addr::MSTATUS, 0x1888),
        (addr::MIE, 0x888),
        (addr::MTVEC, 0xFFFF_FFFC),
        (addr::MSCRATCH, 0xFFFF_FFFF),
        (addr::MEPC, 0xFFFF_FFFC),
        (addr::MCAUSE, 0xFFFF_FFFF),
        (addr::MTVAL, 0xFFFF_FFFF),
    ];
    for (a, read_back) in cases {
        let mut file = CsrFile::new();
        assert!(file.write(a, 0xFFFF_FFFF));
        assert_eq!(file.read(a), Some(read_back));
        // No other CSR changed.
        let fresh = CsrFile::default();
        for (other, _) in cases {
            if other != a {
                assert_eq!(file.read(other), fresh.read(other));
            }
        }
        // Writing back what was read changes nothing.
        let before = file.clone();
        assert!(file.write(a, read_back));
        assert_eq!(file, before);
    }
}

#[test]
fn every_recognised_csr_is_readable_and_no_other() {
    let file = CsrFile::new();
    let mut recognised = 0;
    for a in 0..0x1000u16 {
        assert_eq!(CsrFile::addr_recognised(a), file.read(a).is_some());
        if CsrFile::addr_recognised(a) {
            recognised += 1;
        }
    }
    assert_eq!(recognised, 13);
    // Addresses above 12 bits are not recognised either.
    assert!(!CsrFile::addr_recognised(0x1300));
}

#[test]
fn refused_accesses_change_nothing() {
    let mut file = CsrFile::new();
    file.write(addr::MSCRATCH, 5);
    let before = file.clone();
    assert_eq!(file.access(addr::MHARTID, CsrOp::Rw, 1, true), None);
    assert_eq!(file.access(addr::MHARTID, CsrOp::Rs, 1, false), Some(0));
    assert_eq!(file.access(0x7C0, CsrOp::Rc, 1, false), None);
    assert!(!file.write(0x7C0, 1));
    assert_eq!(file, before);
}

#[test]
fn trap_entry_without_interrupts_clears_both_bits() {
    let mut file = CsrFile::new();
    file.write(addr::MSTATUS, 0x80); // MPIE without MIE
    file.trap_entry(3, 0x103, 9);
    assert_eq!(file.read(addr::MSTATUS), Some(0x1800));
    assert_eq!(file.mepc(), 0x100);
    assert_eq!(file.mcause_raw(), 3);
    assert_eq!(file.mtval_raw(), 9);
    file.mret();
    assert_eq!(file.read(addr::MSTATUS), Some(0x1880));
}

#[test]
fn snapshot_holds_the_seven_storage_csrs() {
    let mut file = CsrFile::new();
    for (a, v) in [
        (addr::MSTATUS, 0x88),
        (addr::MTVEC, 0x101),
        (addr::MEPC, 0x202),
        (addr::MCAUSE, 0x303),
        (addr::MTVAL, 0x404),
        (addr::MSCRATCH, 0x505),
        (addr::MIE, 0x808),
    ] {
        assert!(file.write(a, v));
    }
    assert_eq!(
        CsrSnapshot::capture(&file),
        CsrSnapshot {
            mstatus: 0x1888,
            mtvec: 0x100,
            mepc: 0x200,
            mcause: 0x303,
            mtval: 0x404,
            mscratch: 0x505,
            mie: 0x808,
        }
    );
    assert_eq!(file.mtvec_raw(), 0x100);
    assert_eq!(file.mie_raw(), 0x808);
    assert_eq!(file.mie(), 0x808);
    assert_eq!(file.mip(), 0);
    assert_eq!(file.mstatus_snapshot(), 0x1888);
}

#[test]
fn default_packet_records_nothing() {
    let packet = CommitPacket::default();
    assert_eq!((packet.pc, packet.rd, packet.rd_value), (0, 0, 0));
    assert_eq!((packet.store, packet.halt, packet.trap), (None, None, None));
    assert_eq!(packet.csr_snapshot, CsrSnapshot::default());
    assert_eq!(packet.csr_snapshot.mstatus, 0);
}

#[test]
fn registers_read_back_but_for_x0() {
    let mut state = ArchState::new();
    for index in 0..32u8 {
        state.write_gpr(index, 0x100 + index as u32);
    }
    assert_eq!(state.read_gpr(0), 0);
    for index in 1..32u8 {
        assert_eq!(state.read_gpr(index), 0x100 + index as u32);
    }
}

#[test]
fn csr_operations_have_the_same_names_in_both_forms() {
    use_form(iss_core::decode::CsrOp::Rw, CsrOp::Rw);
    use_form(iss_core::decode::CsrOp::Rs, CsrOp::Rs);
    use_form(iss_core::decode::CsrOp::Rc, CsrOp::Rc);
    assert_eq!(CsrSource::Reg(9).value(), 9);
    assert_eq!(CsrSource::Imm(31).value(), 31);
}

fn use_form(decoded: iss_core::decode::CsrOp, file: CsrOp) {
    assert_eq!(CsrOp::from(decoded), file);
}

#[test]
fn only_lb_and_lh_sign_extend() {
    // lb, lh, lw, lbu, lhu of x1 from 0(x2)
    let expected = [
        (0, Width::Byte, true),
        (1, Width::Half, true),
        (2, Width::Word, false),
        (4, Width::Byte, false),
        (5, Width::Half, false),
    ];
    for (f3, width, signext) in expected {
        let uop = iss_core::decode(0x0001_0083 | (f3 << 12), 0, &[0; 32]);
        let mem = uop.mem.unwrap();
        assert_eq!((mem.store, mem.width, mem.load_signext), (false, width, signext));
    }
}

#[test]
fn rejected_words_decode_to_an_illegal_nop_shell() {
    // Unknown opcode, reserved SYSTEM funct3, unknown funct12, fence.i.
    for raw in [0x0000_000B, 0x0000_4073, 0x3030_0073, 0x0000_100F] {
        let uop = iss_core::decode(raw, 0x40, &[7; 32]);
        assert!(uop.illegal);
        assert_eq!(uop.pc, 0x40);
        assert_eq!((uop.rs1, uop.rs2, uop.rd, uop.imm), (0, 0, 0, 0));
        assert_eq!((uop.rs1_val, uop.rs2_val), (0, 0));
        assert_eq!((uop.mem, uop.branch), (None, None));
        assert_eq!(uop.rd_source, iss_core::decode::RdSource::Skip);
        assert_eq!(uop.system, iss_core::decode::SystemKind::NotSystem);
    }
    // Every legal format clears the mark.
    for raw in [
        0x0073_02B3, 0x0050_0513, 0x0001_0083, 0x00A5_A023, 0xFE05_1EE3, 0x0000_006F, 0x0000_0067,
        0x0000_1297, 0x1000_05B7, 0x0FF0_000F, 0x0000_0073, 0x0010_0073, 0x3020_0073, 0x1050_0073,
        0x3000_9073,
    ] {
        assert!(!iss_core::decode(raw, 0, &[0; 32]).illegal);
    }
}

//! One instruction at a time: exact results of every instruction class.

use iss_core::csr::addr as csr;
use iss_core::execute::{execute, Action, StoreReq};
use iss_core::packet::CsrSnapshot;
use iss_core::{
    decode, ArchState, AxiResp, CommitPacket, Core, HaltEvent, HaltKind, RamBus, StoreObserved,
    TrapEvent, Width,
};

fn r(f7: u32, rs2: u32, rs1: u32, f3: u32, rd: u32, op: u32) -> u32 {
    (f7 << 25) | (rs2 << 20) | (rs1 << 15) | (f3 << 12) | (rd << 7) | op
}
fn i(imm: i32, rs1: u32, f3: u32, rd: u32, op: u32) -> u32 {
    ((imm as u32) << 20) | (rs1 << 15) | (f3 << 12) | (rd << 7) | op
}
fn s(imm: i32, rs2: u32, rs1: u32, f3: u32) -> u32 {
    let imm = imm as u32;
    r((imm >> 5) & 0x7F, rs2, rs1, f3, imm & 0x1F, 0x23)
}
fn b(imm: i32, rs2: u32, rs1: u32, f3: u32) -> u32 {
    let v = imm as u32;
    let f7 = (((v >> 12) & 1) << 6) | ((v >> 5) & 0x3F);
    let rd = (((v >> 1) & 0xF) << 1) | ((v >> 11) & 1);
    r(f7, rs2, rs1, f3, rd, 0x63)
}
fn j(imm: i32, rd: u32) -> u32 {
    let v = imm as u32;
    (((v >> 20) & 1) << 31)
        | (((v >> 1) & 0x3FF) << 21)
        | (((v >> 11) & 1) << 20)
        | (((v >> 12) & 0xFF) << 12)
        | (rd << 7)
        | 0x6F
}

/// A core at PC 0x40 of a 4 KiB RAM with `word` there, x1 = `x1` and x2 = `x2`.
fn core_at(word: u32, x1: u32, x2: u32) -> Core<RamBus> {
    let mut bus = RamBus::new(0, 0x1000);
    bus.load_word(0x40, word);
    let mut core = Core::new(bus);
    core.state_mut().pc = 0x40;
    core.state_mut().gpr[1] = x1;
    core.state_mut().gpr[2] = x2;
    core
}

/// The value that `word` writes to x5.
fn x5_after(word: u32, x1: u32, x2: u32) -> u32 {
    let mut core = core_at(word, x1, x2);
    let packet = core.step();
    assert_eq!(packet.halt, None);
    assert_eq!(packet.rd, 5);
    assert_eq!(packet.rd_value, core.state().gpr[5]);
    assert_eq!(core.state().pc, 0x44);
    packet.rd_value
}

#[test]
fn register_register_operations() {
    let op = |f7, f3| r(f7, 2, 1, f3, 5, 0x33);
    let (a, c) = (0xF000_0003u32, 0x0000_0022u32);
    assert_eq!(x5_after(op(0, 0), a, c), 0xF000_0025); // add
    assert_eq!(x5_after(op(0x20, 0), a, c), 0xEFFF_FFE1); // sub
    assert_eq!(x5_after(op(0, 1), a, c), 0xC000_000C); // sll by 2
    assert_eq!(x5_after(op(0, 2), a, c), 1); // slt
    assert_eq!(x5_after(op(0, 3), a, c), 0); // sltu
    assert_eq!(x5_after(op(0, 4), a, c), 0xF000_0021); // xor
    assert_eq!(x5_after(op(0, 5), a, c), 0x3C00_0000); // srl by 2
    assert_eq!(x5_after(op(0x20, 5), a, c), 0xFC00_0000); // sra by 2
    assert_eq!(x5_after(op(0, 6), a, c), 0xF000_0023); // or
    assert_eq!(x5_after(op(0, 7), a, c), 0x0000_0002); // and
}

#[test]
fn register_immediate_operations() {
    let op = |imm, f3| i(imm, 1, f3, 5, 0x13);
    let a = 0x8000_0010u32;
    assert_eq!(x5_after(op(-16, 0), a, 0), 0x8000_0000); // addi
    assert_eq!(x5_after(op(3, 1), a, 0), 0x0000_0080); // slli
    assert_eq!(x5_after(op(-1, 2), a, 0), 1); // slti
    assert_eq!(x5_after(op(-1, 3), a, 0), 1); // sltiu: the immediate is 0xFFFFFFFF
    assert_eq!(x5_after(op(-1, 4), a, 0), 0x7FFF_FFEF); // xori
    assert_eq!(x5_after(op(4, 5), a, 0), 0x0800_0001); // srli
    assert_eq!(x5_after(op(0x404, 5), a, 0), 0xF800_0001); // srai
    assert_eq!(x5_after(op(0x7FF, 6), a, 0), 0x8000_07FF); // ori
    assert_eq!(x5_after(op(0x7F0, 7), a, 0), 0x0000_0010); // andi
}

#[test]
fn upper_immediates() {
    assert_eq!(x5_after(0xFFFF_F2B7, 0, 0), 0xFFFF_F000); // lui x5, 0xFFFFF
    assert_eq!(x5_after(0x0000_1297, 0, 0), 0x0000_1040); // auipc x5, 1
}

#[test]
fn loads_extend_by_width_and_sign() {
    let load = |f3: u32| {
        let mut core = core_at(i(-4, 1, f3, 5, 0x03), 0x104, 0);
        core.bus_mut().load_word(0x100, 0x8182_F3F4);
        let packet = core.step();
        assert_eq!(packet.halt, None);
        packet.rd_value
    };
    assert_eq!(load(0), 0xFFFF_FFF4); // lb
    assert_eq!(load(1), 0xFFFF_F3F4); // lh
    assert_eq!(load(2), 0x8182_F3F4); // lw
    assert_eq!(load(4), 0x0000_00F4); // lbu
    assert_eq!(load(5), 0x0000_F3F4); // lhu
}

#[test]
fn stores_write_their_width() {
    let store = |f3: u32, imm: i32| {
        let mut core = core_at(s(imm, 2, 1, f3), 0x100, 0xA1B2_C3D4);
        core.bus_mut().load_word(0x100, 0x1111_1111);
        let packet = core.step();
        assert_eq!(packet.rd, 0);
        let word = execute(
            core.state(),
            &decode(i(0x100, 0, 2, 5, 0x03), 0, &[0; 32]),
            &mut core.bus().clone(),
        )
        .unwrap()
        .rd_value;
        (packet.store.unwrap(), word)
    };
    let observed = |addr, strb| StoreObserved {
        addr,
        data: 0xA1B2_C3D4,
        strb,
    };
    assert_eq!(store(0, 3), (observed(0x103, 0x1), 0xD411_1111)); // sb
    assert_eq!(store(1, 2), (observed(0x102, 0x3), 0xC3D4_1111)); // sh
    assert_eq!(store(2, 0), (observed(0x100, 0xF), 0xA1B2_C3D4)); // sw
}

#[test]
fn misaligned_accesses_halt_by_kind() {
    let halt = |word, x1| core_at(word, x1, 0).step().halt.unwrap().kind;
    assert_eq!(halt(i(0, 1, 1, 5, 0x03), 0x101), HaltKind::MisalignLd); // lh
    assert_eq!(halt(i(0, 1, 2, 5, 0x03), 0x102), HaltKind::MisalignLd); // lw
    assert_eq!(halt(s(0, 2, 1, 1), 0x101), HaltKind::MisalignSt); // sh
    assert_eq!(halt(s(0, 2, 1, 2), 0x102), HaltKind::MisalignSt); // sw
    // Byte accesses are never misaligned.
    assert_eq!(core_at(i(0, 1, 0, 5, 0x03), 0x103, 0).step().halt, None);
}

#[test]
fn branches_go_by_their_condition() {
    let pc_after = |f3: u32, imm: i32, x1: u32, x2: u32| {
        let mut core = core_at(b(imm, 2, 1, f3), x1, x2);
        let packet = core.step();
        assert_eq!((packet.rd, packet.store, packet.halt), (0, None, None));
        core.state().pc
    };
    let neg = 0xFFFF_FFFFu32;
    assert_eq!(pc_after(0, 16, 7, 7), 0x50); // beq taken
    assert_eq!(pc_after(0, 16, 7, 8), 0x44);
    assert_eq!(pc_after(1, -16, 7, 8), 0x30); // bne taken, backwards
    assert_eq!(pc_after(1, -16, 7, 7), 0x44);
    assert_eq!(pc_after(4, 0x800, neg, 1), 0x840); // blt
    assert_eq!(pc_after(5, 16, neg, 1), 0x44); // bge
    assert_eq!(pc_after(5, 16, 1, 1), 0x50);
    assert_eq!(pc_after(6, 16, neg, 1), 0x44); // bltu
    assert_eq!(pc_after(7, 16, neg, 1), 0x50); // bgeu
    assert_eq!(pc_after(0, -64, 0, 0), 0); // down to address 0
}

#[test]
fn misaligned_branch_target_halts_only_when_taken() {
    let mut taken = core_at(b(6, 2, 1, 0), 1, 1);
    assert_eq!(taken.step().halt.unwrap().kind, HaltKind::MisalignPc);
    assert_eq!(taken.state().pc, 0x40);
    let mut fallen = core_at(b(6, 2, 1, 0), 1, 2);
    assert_eq!(fallen.step().halt, None);
}

#[test]
fn jumps_link_and_clear_bit_zero() {
    let mut jal = core_at(j(-0x20, 5), 0, 0);
    let packet = jal.step();
    assert_eq!((packet.rd, packet.rd_value), (5, 0x44));
    assert_eq!(jal.state().pc, 0x20);

    let mut jalr = core_at(i(-3, 1, 0, 5, 0x67), 0x204, 0);
    let packet = jalr.step();
    assert_eq!((packet.rd, packet.rd_value), (5, 0x44));
    assert_eq!(jalr.state().pc, 0x200); // 0x201 with bit 0 cleared

    // The link register may be the base register.
    let mut same = core_at(i(0, 1, 0, 1, 0x67), 0x300, 0);
    same.step();
    assert_eq!((same.state().pc, same.state().gpr[1]), (0x300, 0x44));
}

#[test]
fn pc_wraps_past_the_top() {
    let mut bus = RamBus::new(0xFFFF_FFFC, 4);
    bus.load_word(0xFFFF_FFFC, 0x0000_0013); // nop
    let mut core = Core::new(bus);
    core.state_mut().pc = 0xFFFF_FFFC;
    assert_eq!(core.step().halt, None);
    assert_eq!(core.state().pc, 0);
}

#[test]
fn fence_and_wfi_only_advance_the_pc() {
    for word in [0x0FF0_000F, 0x1050_0073] {
        let mut core = core_at(word, 3, 4);
        let before = core.state().clone();
        let packet = core.step();
        let snapshot = CsrSnapshot::capture(&before.csrs);
        assert_eq!(
            packet,
            CommitPacket {
                pc: 0x40,
                csr_snapshot: snapshot,
                ..CommitPacket::default()
            }
        );
        let mut expected = before;
        expected.pc = 0x44;
        assert_eq!(*core.state(), expected);
    }
}

#[test]
fn illegal_instructions_halt_130_and_change_nothing() {
    // Unknown opcode, fence.i, ecall with rd, system funct3 4, unknown funct12,
    // unknown CSR, and a write of a read-only CSR.
    let mret_like = 0x3030_0073;
    for word in [
        0x0000_000B,
        0x0000_100F,
        0x0000_00F3,
        0x0000_4073,
        mret_like,
        i(0x7C0, 1, 1, 5, 0x73),
        i(0xF14u32 as i32, 1, 1, 5, 0x73),
    ] {
        let mut core = core_at(word, 1, 2);
        let before = core.state().clone();
        let packet = core.step();
        assert_eq!(
            packet.halt,
            Some(HaltEvent {
                kind: HaltKind::Illegal,
                exit_code: 130
            })
        );
        assert_eq!((packet.rd, packet.store, packet.trap), (0, None, None));
        assert_eq!(*core.state(), before);
    }
}

#[test]
fn zicsr_variants() {
    let run = |f3: u32, slot: u32, start: u32| {
        let mut core = core_at(i(csr::MSCRATCH as i32, slot, f3, 5, 0x73), 0x0F0F, 0);
        core.csrs_mut().write(csr::MSCRATCH, start);
        let packet = core.step();
        assert_eq!(packet.halt, None);
        assert_eq!(packet.rd_value, start);
        assert_eq!(
            packet.csr_snapshot.mscratch,
            core.state().csrs.mscratch_raw()
        );
        packet.csr_snapshot.mscratch
    };
    assert_eq!(run(1, 1, 0x00FF), 0x0F0F); // csrrw
    assert_eq!(run(2, 1, 0x00FF), 0x0FFF); // csrrs
    assert_eq!(run(3, 1, 0x00FF), 0x00F0); // csrrc
    assert_eq!(run(5, 0x15, 0x00FF), 0x0015); // csrrwi
    assert_eq!(run(6, 0x10, 0x00E0), 0x00F0); // csrrsi
    assert_eq!(run(7, 0x1F, 0x00FF), 0x00E0); // csrrci
    assert_eq!(run(2, 0, 0x00FF), 0x00FF); // csrrs with x0 only reads
    assert_eq!(run(5, 0, 0x00FF), 0); // csrrwi with 0 writes
}

#[test]
fn reading_a_read_only_csr_is_legal() {
    // csrrs x5, mhartid, x0
    assert_eq!(x5_after(i(0xF14u32 as i32, 0, 2, 5, 0x73), 0, 0), 0);
    // csrrs x5, misa, x0
    assert_eq!(x5_after(i(0x301, 0, 2, 5, 0x73), 0, 0), 0x4000_0100);
}

#[test]
fn zicsr_to_x0_writes_the_csr_only() {
    let mut core = core_at(i(csr::MTVEC as i32, 1, 1, 0, 0x73), 0x83, 0);
    let packet = core.step();
    assert_eq!((packet.rd, packet.rd_value), (0, 0));
    assert_eq!(core.state().csrs.mtvec_base(), 0x80);
    assert_eq!(core.state().gpr[0], 0);
}

#[test]
fn execute_stages_without_touching_memory() {
    let mut state = ArchState::new();
    state.gpr[1] = 0x20;
    state.gpr[2] = 0xBEEF;
    let mut bus = RamBus::new(0, 0x40);
    let uop = decode(s(4, 2, 1, 1), 0x10, &state.gpr);
    let staging = execute(&state, &uop, &mut bus).unwrap();
    assert_eq!(staging.action, Action::Normal);
    assert_eq!(staging.new_pc, 0x14);
    assert_eq!((staging.rd, staging.rd_value), (0, 0));
    assert_eq!(
        staging.store,
        Some(StoreReq {
            addr: 0x24,
            data: 0xBEEF,
            strb: 0x3,
            width: Width::Half
        })
    );
    // Only a commit stores.
    let load = decode(i(4, 1, 5, 3, 0x03), 0, &state.gpr);
    assert_eq!(execute(&state, &load, &mut bus).unwrap().rd_value, 0);

    let ecall = decode(0x0000_0073, 0, &state.gpr);
    assert_eq!(
        execute(&state, &ecall, &mut bus).unwrap().action,
        Action::SyncTrap { cause: 11, tval: 0 }
    );
}

#[test]
fn trap_discards_the_staged_effects() {
    // A store with an interrupt pending: nothing is stored, no register written.
    let mut core = core_at(s(0, 2, 1, 2), 0x100, 0x1234_5678);
    core.csrs_mut().write(csr::MTVEC, 0x203);
    core.csrs_mut().write(csr::MIE, 0x80);
    core.csrs_mut().write(csr::MSTATUS, 0x8);
    core.csrs_mut().set_wires(false, true, false);
    let packet = core.step();
    assert_eq!(
        packet.trap,
        Some(TrapEvent {
            cause: 0x8000_0007,
            mepc: 0x40,
            mtval: 0
        })
    );
    assert_eq!((packet.store, packet.rd, packet.halt), (None, 0, None));
    assert_eq!(core.state().pc, 0x200);
    assert_eq!(packet.csr_snapshot.mstatus, 0x1880); // MPIE set, MIE clear
    assert_eq!(packet.csr_snapshot.mepc, 0x40);
    assert_eq!(packet.csr_snapshot.mcause, 0x8000_0007);
    let word = decode(i(0x100, 0, 2, 5, 0x03), 0, &[0; 32]);
    let mut bus = core.bus().clone();
    assert_eq!(execute(core.state(), &word, &mut bus).unwrap().rd_value, 0);
}

#[test]
fn masked_interrupts_are_not_taken() {
    // Pending but not enabled, then enabled but globally off.
    let mut core = core_at(0x0000_0013, 0, 0);
    core.csrs_mut().set_wires(true, true, true);
    core.csrs_mut().write(csr::MSTATUS, 0x8);
    assert_eq!(core.step().trap, None);

    let mut core = core_at(0x0000_0013, 0, 0);
    core.csrs_mut().set_wires(true, true, true);
    core.csrs_mut().write(csr::MIE, 0x888);
    assert_eq!(core.step().trap, None);
}

#[test]
fn trap_and_mret_come_back() {
    let mut core = core_at(0x0000_0073, 0, 0); // ecall
    core.csrs_mut().write(csr::MTVEC, 0x80);
    core.csrs_mut().write(csr::MSTATUS, 0x8);
    core.bus_mut().load_word(0x80, 0x3020_0073); // mret
    let before = core.state().clone();
    assert!(core.step().trap.is_some());
    assert!(!core.state().csrs.mie_enabled());
    assert_eq!(core.step().trap, None);
    assert_eq!(core.state().pc, 0x40);
    assert_eq!(core.state().gpr, before.gpr);
    assert!(core.state().csrs.mie_enabled());
    // The handler has been left, so the next trap is no double trap.
    assert!(core.step().trap.is_some());
}

#[test]
fn double_trap_needs_the_first_instruction() {
    // The handler's second instruction may trap again.
    let mut core = core_at(0x0000_0073, 0, 0);
    core.csrs_mut().write(csr::MTVEC, 0x80);
    core.bus_mut().load_word(0x80, 0x0000_0013); // nop
    core.bus_mut().load_word(0x84, 0x0000_0073); // ecall
    assert!(core.step().trap.is_some());
    assert_eq!(core.step().trap, None);
    let packet = core.step();
    assert_eq!(packet.trap.unwrap().mepc, 0x84);
}

#[test]
fn equal_cores_stay_equal() {
    let program = [
        i(5, 0, 0, 1, 0x13),
        s(0x100, 1, 0, 2),
        i(0x100, 0, 2, 2, 0x03),
        0x0010_0073,
    ];
    let mut bus = RamBus::new(0, 0x200);
    bus.load_program(0, &program);
    let mut one = Core::new(bus.clone());
    let mut two = Core::with_state(bus, ArchState::default());
    let (mut log1, mut log2) = (Vec::new(), Vec::new());
    let halt1 = one.run_until_halt(|p| log1.push(*p));
    let halt2 = two.run_until_halt_max(10, |p| log2.push(*p)).unwrap();
    assert_eq!((halt1, log1), (halt2, log2));
    assert_eq!(one.state(), two.state());
}

#[test]
fn bounded_runs_stop_at_the_bound() {
    let mut core = core_at(j(0, 0), 0, 0); // jal x0, 0
    let mut seen = 0;
    assert_eq!(core.run_until_halt_max(7, |_| seen += 1), Err(7));
    assert_eq!(seen, 7);
    assert_eq!(core.run_until_halt_max(0, |_| seen += 1), Err(0));
    assert_eq!(seen, 7);
}

#[test]
fn state_is_captured_and_restored() {
    let mut core = core_at(i(1, 1, 0, 1, 0x13), 41, 0);
    let saved = core.state().clone();
    core.step();
    assert_eq!(core.state().gpr[1], 42);
    core.set_state(saved.clone());
    assert_eq!(*core.state(), saved);
    core.step();
    assert_eq!(core.state().gpr[1], 42);
}

#[test]
fn fetch_outside_memory_is_a_bus_error() {
    let mut core = core_at(0, 0, 0);
    core.state_mut().pc = 0xFFC;
    assert_eq!(core.step().halt.unwrap().kind, HaltKind::Illegal); // word 0
    core.state_mut().pc = 0x1000;
    assert_eq!(core.step().halt.unwrap().kind, HaltKind::BusErrorIf);
    assert_eq!(AxiResp::DecErr.name(), "DECERR");
}

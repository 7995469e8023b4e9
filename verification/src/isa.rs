//! Laws of the instruction set: what a step does to registers, memory and CSRs, told
//! from the bytes at the PC, the numbers in the registers and the words that software
//! reads from the CSRs. Most speak of a core over a [`RamBus`], whose memory can be
//! told byte by byte; those on interrupts and bus accesses hold over any bus.

use vstd::prelude::*;

use crate::alu::BranchType;
use crate::bus::{AxiResp, Bus, RamBus, Width};
use crate::csr::CsrModel;
use crate::decode::{AluSrc1, AluSrc2, CsrOp, CsrSource, MemOp, RdSource, SystemKind, Uop};
use crate::hart::{CoreModel, Replies};
use crate::packet::{CommitPacket, HaltEvent, HaltKind, StoreObserved, TrapEvent};

verus! {

/// Whether the four bytes at the PC are those of the instruction word `raw`.
pub open spec fn fetches(core: CoreModel<RamBus>, raw: int) -> bool {
    let mem = core.bus@.mem;
    let off = core.state.pc - core.bus@.base;
    &&& core.state.pc % 4 == 0
    &&& 0 <= off
    &&& off + 4 <= mem.len()
    &&& raw == mem[off] + 0x100 * mem[off + 1] + 0x1_0000 * mem[off + 2] + 0x100_0000 * mem[off + 3]
}

/// What software reads from the CSR `addr`.
pub open spec fn csr(csrs: CsrModel, addr: u16) -> u32 {
    csrs.read(addr)->0
}

/// The cause of the interrupt that is taken, from `mstatus`, `mip` and `mie`; 0 if
/// none is.
pub open spec fn interrupt(csrs: CsrModel) -> int {
    let ready = csr(csrs, 0x344) & csr(csrs, 0x304);
    if csr(csrs, 0x300) & 0x8 == 0 {
        0
    } else if ready & 0x800 != 0 {
        0x8000_000B
    } else if ready & 0x8 != 0 {
        0x8000_0003
    } else if ready & 0x80 != 0 {
        0x8000_0007
    } else {
        0
    }
}

/// Whether the step halts with `kind` and `code` and leaves everything as it is.
pub open spec fn halts(
    before: CoreModel<RamBus>,
    packet: CommitPacket,
    after: CoreModel<RamBus>,
    kind: HaltKind,
    code: u8,
) -> bool {
    &&& packet.halt == Some(HaltEvent { kind, exit_code: code })
    &&& packet.trap is None && packet.store is None && packet.rd == 0
    &&& packet.pc == before.state.pc
    &&& after.state == before.state
    &&& after.bus@ == before.bus@
    &&& !after.trapped
}

/// Whether the step retires, with `value` in register `rd`, unless that is `x0`, no
/// other register changed, and the PC at `pc`.
pub open spec fn retires(
    before: CoreModel<RamBus>,
    packet: CommitPacket,
    after: CoreModel<RamBus>,
    rd: int,
    value: int,
    pc: int,
) -> bool {
    &&& packet.halt is None && packet.trap is None
    &&& packet.pc == before.state.pc
    &&& packet.rd == rd
    &&& packet.rd_value == if rd == 0 {
        0
    } else {
        value
    }
    &&& after.state.pc == pc
    &&& after.state.gpr.len() == 32
    &&& rd != 0 ==> after.state.gpr[rd] == value
    &&& forall|i: int|
        0 <= i < 32 && (i != rd || i == 0) ==> #[trigger] after.state.gpr[i] == before.state.gpr[i]
    &&& !after.trapped
}

/// Whether the step retires like that and changes neither memory nor CSRs.
pub open spec fn computes(
    before: CoreModel<RamBus>,
    packet: CommitPacket,
    after: CoreModel<RamBus>,
    rd: int,
    value: int,
    pc: int,
) -> bool {
    &&& retires(before, packet, after, rd, value, pc)
    &&& packet.store is None
    &&& after.bus@ == before.bus@
    &&& after.state.csrs == before.state.csrs
}

/// Whether the step enters the trap handler with `cause`: the PC goes to `mtvec`,
/// `mepc`, `mcause` and `mtval` tell the trap, and `MIE` moves to `MPIE`. Nothing
/// else changes.
pub open spec fn enters_trap(
    before: CoreModel<RamBus>,
    packet: CommitPacket,
    after: CoreModel<RamBus>,
    cause: int,
) -> bool {
    let was = before.state.csrs;
    let now = after.state.csrs;
    &&& packet.halt is None && packet.store is None && packet.rd == 0
    &&& packet.pc == before.state.pc
    &&& packet.trap == Some(
        TrapEvent { cause: cause as u32, mepc: before.state.pc, mtval: 0 },
    )
    &&& after.state.pc == csr(was, 0x305)
    &&& after.state.gpr == before.state.gpr
    &&& after.bus@ == before.bus@
    &&& after.trapped
    &&& csr(now, 0x341) == before.state.pc
    &&& csr(now, 0x342) == cause
    &&& csr(now, 0x343) == 0
    &&& csr(now, 0x300) == if csr(was, 0x300) & 0x8 != 0 {
        0x1880
    } else {
        0x1800u32
    }
    &&& csr(now, 0x304) == csr(was, 0x304)
    &&& csr(now, 0x305) == csr(was, 0x305)
    &&& csr(now, 0x340) == csr(was, 0x340)
    &&& csr(now, 0x344) == csr(was, 0x344)
}

/// Whether the step starts at the first instruction of the handler that the step
/// before it trapped to.
pub open spec fn at_handler(core: CoreModel<RamBus>) -> bool {
    core.trapped && core.state.pc == csr(core.state.csrs, 0x305)
}

/// An instruction word of three register fields.
#[verifier::opaque]
pub open spec fn r_word(f7: int, rs2: int, rs1: int, f3: int, rd: int, op: int) -> int {
    f7 * 0x200_0000 + rs2 * 0x10_0000 + rs1 * 0x8000 + f3 * 0x1000 + rd * 0x80 + op
}

/// An instruction word with a signed 12-bit immediate on top.
#[verifier::opaque]
pub open spec fn i_word(imm: int, rs1: int, f3: int, rd: int, op: int) -> int {
    (imm % 0x1000) * 0x10_0000 + rs1 * 0x8000 + f3 * 0x1000 + rd * 0x80 + op
}

/// A store's word: the immediate is split around the registers.
#[verifier::opaque]
pub open spec fn s_word(imm: int, rs2: int, rs1: int, f3: int) -> int {
    let u = imm % 0x1000;
    (u / 0x20) * 0x200_0000 + rs2 * 0x10_0000 + rs1 * 0x8000 + f3 * 0x1000 + (u % 0x20) * 0x80 + 0x23
}

/// A branch's word, with its even offset scattered over it.
#[verifier::opaque]
pub open spec fn b_word(offset: int, rs2: int, rs1: int, f3: int) -> int {
    let u = offset % 0x2000;
    (u / 0x1000) * 0x8000_0000 + (u / 0x20 % 0x40) * 0x200_0000 + rs2 * 0x10_0000 + rs1 * 0x8000
        + f3 * 0x1000 + (u / 2 % 0x10) * 0x100 + (u / 0x800 % 2) * 0x80 + 0x63
}

/// The word of `JAL`, with its even offset scattered over it.
#[verifier::opaque]
pub open spec fn j_word(offset: int, rd: int) -> int {
    let u = offset % 0x20_0000;
    (u / 0x10_0000) * 0x8000_0000 + (u / 2 % 0x400) * 0x20_0000 + (u / 0x800 % 2) * 0x10_0000 + (u
        / 0x1000 % 0x100) * 0x1000 + rd * 0x80 + 0x6F
}

/// An instruction word with a 20-bit number on top.
#[verifier::opaque]
pub open spec fn u_word(upper: int, rd: int, op: int) -> int {
    upper * 0x1000 + rd * 0x80 + op
}

/// Whether `r` is the number of a register.
pub open spec fn register(r: int) -> bool {
    0 <= r < 32
}

/// The address `n` bytes on from `a`, in 32 bits.
pub open spec fn on(a: u32, n: int) -> int {
    (a + n) % 0x1_0000_0000
}

/// Byte `j` of the number `v`.
pub open spec fn octet(v: u32, j: int) -> int {
    if j == 0 {
        v as int % 0x100
    } else if j == 1 {
        v as int / 0x100 % 0x100
    } else if j == 2 {
        v as int / 0x1_0000 % 0x100
    } else {
        v as int / 0x100_0000
    }
}

/// The CSRs that there are.
pub open spec fn known(addr: int) -> bool {
    ||| addr == 0x300 || addr == 0x301 || addr == 0x304 || addr == 0x305
    ||| addr == 0x340 || addr == 0x341 || addr == 0x342 || addr == 0x343 || addr == 0x344
    ||| addr == 0xF11 || addr == 0xF12 || addr == 0xF13 || addr == 0xF14
}

/// The interrupt that is taken, by the two readings of the CSRs.
proof fn lemma_interrupt(csrs: CsrModel)
    ensures
        csr(csrs, 0x300) & 0x8 != 0 <==> csrs.mie,
        interrupt(csrs) == if csrs.mie && crate::hart::interrupt_cause(csrs) != 0 {
            0x8000_0000 + crate::hart::interrupt_cause(csrs)
        } else {
            0
        },
{
    crate::csr::lemma_pending_bits(csrs);
    crate::csr::lemma_mie_bit(csrs);
}

/// Whether a step over a RAM does what `uop` says.
#[verifier::opaque]
spec fn acts(
    before: CoreModel<RamBus>,
    packet: CommitPacket,
    after: CoreModel<RamBus>,
    uop: Uop,
) -> bool {
    let load = match crate::execute::load_request(uop) {
        Some((addr, width)) => Some(crate::laws::ram_reply(before.bus@, addr, width)),
        None => None,
    };
    let staged = crate::execute::staged(before.state, uop, load);
    let (reply, memory) = crate::laws::ram_store(
        crate::hart::store_request(before.state.csrs, staged),
        before.bus@,
    );
    let entering = before.trapped && before.state.pc == before.state.csrs.mtvec;
    let (state, effects) = crate::hart::settled(before.state, entering, staged, reply);
    &&& after.state == state
    &&& after.bus@ == memory
    &&& packet == CommitPacket {
        csr_snapshot: crate::packet::CsrSnapshot::of(after.state.csrs),
        ..effects
    }
    &&& after.trapped == packet.trap is Some
}

/// A step over a RAM does what the uop of the fetched word says.
proof fn lemma_acts(
    before: CoreModel<RamBus>,
    packet: CommitPacket,
    after: CoreModel<RamBus>,
    raw: u32,
)
    requires
        crate::hart::steps(before, packet, after),
        fetches(before, raw as int),
    ensures
        acts(
            before,
            packet,
            after,
            crate::decode::decoded(raw, before.state.pc, before.state.gpr),
        ),
{
    reveal(acts);
    crate::laws::law_ram_step_is_a_function(before, packet, after);
    crate::bus::lemma_loaded(before.bus@.mem, before.state.pc - before.bus@.base, Width::Word);
    assert(crate::laws::ram_fetch(before.state, before.bus@) == Some(Ok::<u32, AxiResp>(raw)));
}

/// Quotient and remainder of a number that is put together from them.
proof fn lemma_split(n: int, d: int, q: int, r: int)
    requires
        n == q * d + r,
        0 <= r < d,
    ensures
        n / d == q,
        n % d == r,
{
    assert(n == d * q + r) by (nonlinear_arith)
        requires
            n == q * d + r,
    ;
    vstd::arithmetic::div_mod::lemma_fundamental_div_mod_converse(n, d, q, r);
}

/// The word that a signed field stands for.
proof fn lemma_extend(v: int, span: int)
    requires
        span == 0x1000 || span == 0x2000 || span == 0x20_0000,
        -span / 2 <= v < span / 2,
    ensures
        crate::word::sign_extend(v % span, span) == v % 0x1_0000_0000,
        0 <= v % span < span,
{
    if v < 0 {
        lemma_split(v, span, -1, v + span);
        lemma_split(v, 0x1_0000_0000, -1, v + 0x1_0000_0000);
    } else {
        lemma_split(v, span, 0, v);
        lemma_split(v, 0x1_0000_0000, 0, v);
    }
}

/// The fields of a word that is put together from them.
proof fn lemma_fields(raw: u32, op: int, rd: int, f3: int, rs1: int, top: int)
    requires
        0 <= op < 0x80,
        register(rd),
        0 <= f3 < 8,
        register(rs1),
        0 <= top < 0x1000,
        raw == top * 0x10_0000 + rs1 * 0x8000 + f3 * 0x1000 + rd * 0x80 + op,
    ensures
        crate::decode::opcode_of(raw) == op,
        crate::decode::rd_of(raw) == rd,
        crate::decode::funct3_of(raw) == f3,
        crate::decode::rs1_of(raw) == rs1,
        crate::decode::rs2_of(raw) == top % 0x20,
        crate::decode::funct7_of(raw) == top / 0x20,
        crate::decode::funct12_of(raw) == top,
{
    let n = raw as int;
    let q5 = top;
    let q4 = q5 * 0x20 + rs1;
    let q3 = q4 * 8 + f3;
    let q2 = q3 * 0x20 + rd;
    lemma_split(n, 0x80, q2, op);
    lemma_split(q2, 0x20, q3, rd);
    lemma_split(n, 0x1000, q3, rd * 0x80 + op);
    lemma_split(q3, 8, q4, f3);
    lemma_split(n, 0x8000, q4, f3 * 0x1000 + rd * 0x80 + op);
    lemma_split(q4, 0x20, q5, rs1);
    lemma_split(n, 0x10_0000, q5, rs1 * 0x8000 + f3 * 0x1000 + rd * 0x80 + op);
    lemma_split(top, 0x20, top / 0x20, top % 0x20);
    lemma_split(
        n,
        0x200_0000,
        top / 0x20,
        (top % 0x20) * 0x10_0000 + rs1 * 0x8000 + f3 * 0x1000 + rd * 0x80 + op,
    );
}

/// What an arithmetic instruction computes, by its `funct3`. `other` selects the
/// subtraction and the arithmetic shift.
pub open spec fn arithmetic(f3: int, other: bool, a: u32, b: u32) -> int {
    let sh = (b % 32) as u32;
    if f3 == 0 && !other {
        (a + b) % 0x1_0000_0000
    } else if f3 == 0 {
        (a - b) % 0x1_0000_0000
    } else if f3 == 1 {
        (a << sh) as int
    } else if f3 == 2 {
        if (a as i32) < (b as i32) {
            1
        } else {
            0
        }
    } else if f3 == 3 {
        if a < b {
            1
        } else {
            0
        }
    } else if f3 == 4 {
        (a ^ b) as int
    } else if f3 == 5 && !other {
        (a >> sh) as int
    } else if f3 == 5 {
        (((a as i32) >> sh) as u32) as int
    } else if f3 == 6 {
        (a | b) as int
    } else {
        (a & b) as int
    }
}

/// The ALU computes that.
proof fn lemma_arithmetic(reg: bool, f3: u32, f7: u32, a: u32, b: u32)
    requires
        f3 < 8,
    ensures
        crate::decode::alu_op_of(reg, f3, f7).result(a, b) == arithmetic(
            f3 as int,
            f7 != 0 && (reg || f3 == 5),
            a,
            b,
        ),
{
    let sh = (b % 32) as u32;
    crate::word::lemma_as_signed(a);
    crate::word::lemma_as_signed(b);
    crate::word::lemma_shl(a, sh);
    crate::word::lemma_shr(a, sh);
    crate::word::lemma_sar(a, sh);
}

/// The uop of an arithmetic instruction on two registers.
pub open spec fn register_arithmetic_uop(
    pc: u32,
    gpr: Seq<u32>,
    f7: int,
    rs2: int,
    rs1: int,
    f3: int,
    rd: int,
) -> Uop {
    Uop {
        rs1: rs1 as u8,
        rs2: rs2 as u8,
        rd: rd as u8,
        rs1_val: gpr[rs1],
        rs2_val: gpr[rs2],
        alu_op: crate::decode::alu_op_of(true, f3 as u32, f7 as u32),
        rd_source: RdSource::AluResult,
        illegal: false,
        ..Uop::shell(pc)
    }
}

/// The word of an arithmetic instruction on two registers decodes to its uop.
pub proof fn law_register_arithmetic_decodes(
    raw: u32,
    pc: u32,
    gpr: Seq<u32>,
    f7: int,
    rs2: int,
    rs1: int,
    f3: int,
    rd: int,
)
    requires
        register(rs1) && register(rs2) && register(rd) && 0 <= f3 < 8 && 0 <= f7 < 0x80,
        raw == r_word(f7, rs2, rs1, f3, rd, 0x33),
    ensures
        crate::decode::decoded(raw, pc, gpr) == register_arithmetic_uop(pc, gpr, f7, rs2, rs1, f3, rd),
{
    reveal(r_word);
    lemma_fields(raw, 0x33, rd, f3, rs1, f7 * 0x20 + rs2);
}

/// A step at the word of an arithmetic instruction on two registers does what its uop says.
proof fn lemma_register_arithmetic_acts(
    before: CoreModel<RamBus>,
    packet: CommitPacket,
    after: CoreModel<RamBus>,
    f7: int,
    rs2: int,
    rs1: int,
    f3: int,
    rd: int,
)
    requires
        crate::hart::steps(before, packet, after),
        register(rs1) && register(rs2) && register(rd) && 0 <= f3 < 8 && 0 <= f7 < 0x80,
        fetches(before, r_word(f7, rs2, rs1, f3, rd, 0x33)),
    ensures
        acts(
            before,
            packet,
            after,
            register_arithmetic_uop(before.state.pc, before.state.gpr, f7, rs2, rs1, f3, rd),
        ),
{
    let raw = r_word(f7, rs2, rs1, f3, rd, 0x33) as u32;
    law_register_arithmetic_decodes(raw, before.state.pc, before.state.gpr, f7, rs2, rs1, f3, rd);
    lemma_acts(before, packet, after, raw);
}

/// `ADD`, `SUB`, `SLL`, `SLT`, `SLTU`, `XOR`, `SRL`, `SRA`, `OR` and `AND` put the
/// result for the two source registers into `rd` and go on to the next instruction.
#[verifier::spinoff_prover]
#[verifier::rlimit(40)]
pub proof fn law_register_arithmetic(
    before: CoreModel<RamBus>,
    packet: CommitPacket,
    after: CoreModel<RamBus>,
    f7: int,
    rs2: int,
    rs1: int,
    f3: int,
    rd: int,
)
    requires
        crate::hart::steps(before, packet, after),
        before.state.gpr.len() == 32,
        register(rs1) && register(rs2) && register(rd) && 0 <= f3 < 8 && 0 <= f7 < 0x80,
        fetches(before, r_word(f7, rs2, rs1, f3, rd, 0x33)),
        interrupt(before.state.csrs) == 0,
    ensures
        computes(
            before,
            packet,
            after,
            rd,
            arithmetic(f3, f7 != 0, before.state.gpr[rs1], before.state.gpr[rs2]),
            on(before.state.pc, 4),
        ),
{
    lemma_register_arithmetic_acts(before, packet, after, f7, rs2, rs1, f3, rd);
    reveal(acts);
    lemma_interrupt(before.state.csrs);
    lemma_arithmetic(true, f3 as u32, f7 as u32, before.state.gpr[rs1], before.state.gpr[rs2]);
}

/// The immediate of a word with a 12-bit immediate on top.
proof fn lemma_imm_i(raw: u32, imm: int)
    requires
        -0x800 <= imm < 0x800,
        crate::decode::funct12_of(raw) == imm % 0x1000,
    ensures
        crate::decode::imm_i_of(raw) == imm % 0x1_0000_0000,
{
}

/// The uop of an arithmetic instruction with an immediate.
pub open spec fn immediate_arithmetic_uop(
    pc: u32,
    gpr: Seq<u32>,
    imm: int,
    rs1: int,
    f3: int,
    rd: int,
) -> Uop {
    Uop {
        rs1: rs1 as u8,
        rd: rd as u8,
        rs1_val: gpr[rs1],
        imm: (imm % 0x1_0000_0000) as u32,
        alu_src2: AluSrc2::Imm,
        alu_op: crate::decode::alu_op_of(false, f3 as u32, (imm % 0x1000 / 0x20) as u32),
        rd_source: RdSource::AluResult,
        illegal: false,
        ..Uop::shell(pc)
    }
}

/// The word of an arithmetic instruction with an immediate decodes to its uop.
pub proof fn law_immediate_arithmetic_decodes(
    raw: u32,
    pc: u32,
    gpr: Seq<u32>,
    imm: int,
    rs1: int,
    f3: int,
    rd: int,
)
    requires
        register(rs1) && register(rd) && 0 <= f3 < 8 && -0x800 <= imm < 0x800,
        raw == i_word(imm, rs1, f3, rd, 0x13),
    ensures
        crate::decode::decoded(raw, pc, gpr) == immediate_arithmetic_uop(pc, gpr, imm, rs1, f3, rd),
{
    reveal(i_word);
    lemma_fields(raw, 0x13, rd, f3, rs1, imm % 0x1000);
    lemma_imm_i(raw, imm);
}

/// A step at the word of an arithmetic instruction with an immediate does what its uop says.
proof fn lemma_immediate_arithmetic_acts(
    before: CoreModel<RamBus>,
    packet: CommitPacket,
    after: CoreModel<RamBus>,
    imm: int,
    rs1: int,
    f3: int,
    rd: int,
)
    requires
        crate::hart::steps(before, packet, after),
        register(rs1) && register(rd) && 0 <= f3 < 8 && -0x800 <= imm < 0x800,
        fetches(before, i_word(imm, rs1, f3, rd, 0x13)),
    ensures
        acts(
            before,
            packet,
            after,
            immediate_arithmetic_uop(before.state.pc, before.state.gpr, imm, rs1, f3, rd),
        ),
{
    let raw = i_word(imm, rs1, f3, rd, 0x13) as u32;
    law_immediate_arithmetic_decodes(raw, before.state.pc, before.state.gpr, imm, rs1, f3, rd);
    lemma_acts(before, packet, after, raw);
}

/// `ADDI`, `SLLI`, `SLTI`, `SLTIU`, `XORI`, `SRLI`, `SRAI`, `ORI` and `ANDI` do the
/// same with the signed immediate in place of the second register; there is no
/// subtraction, and the upper seven bits of a right shift's immediate select the
/// arithmetic one.
#[verifier::spinoff_prover]
#[verifier::rlimit(40)]
pub proof fn law_immediate_arithmetic(
    before: CoreModel<RamBus>,
    packet: CommitPacket,
    after: CoreModel<RamBus>,
    imm: int,
    rs1: int,
    f3: int,
    rd: int,
)
    requires
        crate::hart::steps(before, packet, after),
        before.state.gpr.len() == 32,
        register(rs1) && register(rd) && 0 <= f3 < 8 && -0x800 <= imm < 0x800,
        fetches(before, i_word(imm, rs1, f3, rd, 0x13)),
        interrupt(before.state.csrs) == 0,
    ensures
        computes(
            before,
            packet,
            after,
            rd,
            arithmetic(
                f3,
                f3 == 5 && imm % 0x1000 >= 0x20,
                before.state.gpr[rs1],
                (imm % 0x1_0000_0000) as u32,
            ),
            on(before.state.pc, 4),
        ),
{
    lemma_immediate_arithmetic_acts(before, packet, after, imm, rs1, f3, rd);
    reveal(acts);
    lemma_interrupt(before.state.csrs);
    lemma_arithmetic(
        false,
        f3 as u32,
        (imm % 0x1000 / 0x20) as u32,
        before.state.gpr[rs1],
        (imm % 0x1_0000_0000) as u32,
    );
}

/// The uop of `LUI` or `AUIPC`.
pub open spec fn upper_uop(pc: u32, gpr: Seq<u32>, upper: int, rd: int, op: int) -> Uop {
    Uop {
        rd: rd as u8,
        imm: (upper * 0x1000) as u32,
        alu_src1: if op == 0x37 {
            AluSrc1::Zero
        } else {
            AluSrc1::Pc
        },
        alu_src2: AluSrc2::Imm,
        rd_source: RdSource::AluResult,
        illegal: false,
        ..Uop::shell(pc)
    }
}

/// The fields of a word with a 20-bit number on top.
proof fn lemma_u_fields(raw: u32, upper: int, rd: int, op: int)
    requires
        register(rd) && 0 <= upper < 0x10_0000 && 0 <= op < 0x80,
        raw == upper * 0x1000 + rd * 0x80 + op,
    ensures
        crate::decode::opcode_of(raw) == op,
        crate::decode::rd_of(raw) == rd,
        crate::decode::imm_u_of(raw) == upper * 0x1000,
{
    lemma_split(raw as int, 0x80, upper * 0x20 + rd, op);
    lemma_split(upper * 0x20 + rd, 0x20, upper, rd);
    lemma_split(raw as int, 0x1000, upper, rd * 0x80 + op);
}

/// The word of `LUI` or `AUIPC` decodes to its uop.
pub proof fn law_upper_immediates_decodes(
    raw: u32,
    pc: u32,
    gpr: Seq<u32>,
    upper: int,
    rd: int,
    op: int,
)
    requires
        register(rd) && 0 <= upper < 0x10_0000,
        op == 0x37 || op == 0x17,
        raw == u_word(upper, rd, op),
    ensures
        crate::decode::decoded(raw, pc, gpr) == upper_uop(pc, gpr, upper, rd, op),
{
    reveal(u_word);
    lemma_u_fields(raw, upper, rd, op);
}

/// A step at the word of `LUI` or `AUIPC` does what its uop says.
proof fn lemma_upper_immediates_acts(
    before: CoreModel<RamBus>,
    packet: CommitPacket,
    after: CoreModel<RamBus>,
    upper: int,
    rd: int,
    op: int,
)
    requires
        crate::hart::steps(before, packet, after),
        register(rd) && 0 <= upper < 0x10_0000,
        op == 0x37 || op == 0x17,
        fetches(before, u_word(upper, rd, op)),
    ensures
        acts(before, packet, after, upper_uop(before.state.pc, before.state.gpr, upper, rd, op)),
{
    let raw = u_word(upper, rd, op) as u32;
    law_upper_immediates_decodes(raw, before.state.pc, before.state.gpr, upper, rd, op);
    lemma_acts(before, packet, after, raw);
}

/// `LUI` puts a number with twelve zero bits at its end into `rd`, and `AUIPC` the PC
/// plus that number.
#[verifier::spinoff_prover]
#[verifier::rlimit(40)]
pub proof fn law_upper_immediates(
    before: CoreModel<RamBus>,
    packet: CommitPacket,
    after: CoreModel<RamBus>,
    upper: int,
    rd: int,
    op: int,
)
    requires
        crate::hart::steps(before, packet, after),
        before.state.gpr.len() == 32,
        register(rd) && 0 <= upper < 0x10_0000,
        op == 0x37 || op == 0x17,
        fetches(before, u_word(upper, rd, op)),
        interrupt(before.state.csrs) == 0,
    ensures
        computes(
            before,
            packet,
            after,
            rd,
            if op == 0x37 {
                upper * 0x1000
            } else {
                on(before.state.pc, upper * 0x1000)
            },
            on(before.state.pc, 4),
        ),
{
    lemma_upper_immediates_acts(before, packet, after, upper, rd, op);
    reveal(acts);
    lemma_interrupt(before.state.csrs);
}

/// The uop of `JAL`.
pub open spec fn jal_uop(pc: u32, gpr: Seq<u32>, offset: int, rd: int) -> Uop {
    Uop {
        rd: rd as u8,
        imm: (offset % 0x1_0000_0000) as u32,
        alu_src1: AluSrc1::Pc,
        alu_src2: AluSrc2::Imm,
        branch: Some(BranchType::JumpAnyway),
        rd_source: RdSource::PcPlus4,
        illegal: false,
        ..Uop::shell(pc)
    }
}

/// The fields of a word of `JAL`, by the parts of its offset.
proof fn lemma_j_fields(raw: u32, a: int, b: int, c: int, d: int, rd: int)
    requires
        register(rd) && 0 <= a < 2 && 0 <= b < 0x100 && 0 <= c < 2 && 0 <= d < 0x400,
        raw == a * 0x8000_0000 + d * 0x20_0000 + c * 0x10_0000 + b * 0x1000 + rd * 0x80 + 0x6F,
    ensures
        crate::decode::opcode_of(raw) == 0x6F,
        crate::decode::rd_of(raw) == rd,
        crate::decode::imm_j_of(raw) == crate::word::sign_extend(
            a * 0x10_0000 + b * 0x1000 + c * 0x800 + d * 2,
            0x20_0000,
        ),
{
    let n = raw as int;
    let low = rd * 0x80 + 0x6F;
    let q3 = a * 0x400 + d;
    let q2 = q3 * 2 + c;
    let q1 = q2 * 0x100 + b;
    lemma_split(n, 0x80, q1 * 0x20 + rd, 0x6F);
    lemma_split(q1 * 0x20 + rd, 0x20, q1, rd);
    lemma_split(n, 0x1000, q1, low);
    lemma_split(q1, 0x100, q2, b);
    lemma_split(n, 0x10_0000, q2, b * 0x1000 + low);
    lemma_split(q2, 2, q3, c);
    lemma_split(n, 0x20_0000, q3, c * 0x10_0000 + b * 0x1000 + low);
    lemma_split(q3, 0x400, a, d);
    lemma_split(n, 0x8000_0000, a, d * 0x20_0000 + c * 0x10_0000 + b * 0x1000 + low);
}

/// The parts of the offset of `JAL`.
proof fn lemma_j_parts(u: int)
    requires
        0 <= u < 0x20_0000,
        u % 2 == 0,
    ensures
        u == (u / 0x10_0000) * 0x10_0000 + (u / 0x1000 % 0x100) * 0x1000 + (u / 0x800 % 2) * 0x800
            + (u / 2 % 0x400) * 2,
        0 <= u / 0x10_0000 < 2,
{
    assert(u / 0x1000 == (u / 0x10_0000) * 0x100 + u / 0x1000 % 0x100);
    assert(u / 0x800 == (u / 0x1000) * 2 + u / 0x800 % 2);
    assert(u / 2 == (u / 0x800) * 0x400 + u / 2 % 0x400);
}

/// The fields of a word of `JAL`.
proof fn lemma_j_word(raw: u32, offset: int, rd: int)
    requires
        register(rd) && -0x10_0000 <= offset < 0x10_0000 && offset % 2 == 0,
        raw == j_word(offset, rd),
    ensures
        crate::decode::opcode_of(raw) == 0x6F,
        crate::decode::rd_of(raw) == rd,
        crate::decode::imm_j_of(raw) == offset % 0x1_0000_0000,
{
    let u = offset % 0x20_0000;
    lemma_extend(offset, 0x20_0000);
    assert(u % 2 == 0);
    lemma_j_parts(u);
    let (a, b, c, d) = (u / 0x10_0000, u / 0x1000 % 0x100, u / 0x800 % 2, u / 2 % 0x400);
    assert(raw == a * 0x8000_0000 + d * 0x20_0000 + c * 0x10_0000 + b * 0x1000 + rd * 0x80 + 0x6F)
        by {
        reveal(j_word);
    }
    lemma_j_fields(raw, a, b, c, d, rd);
}

/// The word of `JAL` decodes to its uop.
pub proof fn law_jal_decodes(raw: u32, pc: u32, gpr: Seq<u32>, offset: int, rd: int)
    requires
        register(rd) && -0x10_0000 <= offset < 0x10_0000 && offset % 2 == 0,
        raw == j_word(offset, rd),
    ensures
        crate::decode::decoded(raw, pc, gpr) == jal_uop(pc, gpr, offset, rd),
{
    lemma_j_word(raw, offset, rd);
}

/// A step at the word of `JAL` does what its uop says.
proof fn lemma_jal_acts(
    before: CoreModel<RamBus>,
    packet: CommitPacket,
    after: CoreModel<RamBus>,
    offset: int,
    rd: int,
)
    requires
        crate::hart::steps(before, packet, after),
        register(rd) && -0x10_0000 <= offset < 0x10_0000 && offset % 2 == 0,
        fetches(before, j_word(offset, rd)),
    ensures
        acts(before, packet, after, jal_uop(before.state.pc, before.state.gpr, offset, rd)),
{
    let raw = j_word(offset, rd) as u32;
    law_jal_decodes(raw, before.state.pc, before.state.gpr, offset, rd);
    lemma_acts(before, packet, after, raw);
}

/// `JAL` puts the address of the next instruction into `rd` and goes to the PC plus
/// its offset; a target that is no multiple of four halts.
#[verifier::spinoff_prover]
#[verifier::rlimit(40)]
pub proof fn law_jal(
    before: CoreModel<RamBus>,
    packet: CommitPacket,
    after: CoreModel<RamBus>,
    offset: int,
    rd: int,
)
    requires
        crate::hart::steps(before, packet, after),
        before.state.gpr.len() == 32,
        register(rd) && -0x10_0000 <= offset < 0x10_0000 && offset % 2 == 0,
        fetches(before, j_word(offset, rd)),
    ensures
        ({
            let target = on(before.state.pc, offset);
            &&& target % 4 != 0 ==> halts(before, packet, after, HaltKind::MisalignPc, 134)
            &&& target % 4 == 0 && interrupt(before.state.csrs) == 0 ==> computes(
                before,
                packet,
                after,
                rd,
                on(before.state.pc, 4),
                target,
            )
        }),
{
    lemma_jal_acts(before, packet, after, offset, rd);
    reveal(acts);
    lemma_interrupt(before.state.csrs);
}

/// The uop of `JALR`.
pub open spec fn jalr_uop(pc: u32, gpr: Seq<u32>, imm: int, rs1: int, f3: int, rd: int) -> Uop {
    Uop {
        rs1: rs1 as u8,
        rd: rd as u8,
        rs1_val: gpr[rs1],
        imm: (imm % 0x1_0000_0000) as u32,
        alu_src2: AluSrc2::Imm,
        branch: Some(BranchType::JumpAnyway),
        rd_source: RdSource::PcPlus4,
        illegal: false,
        ..Uop::shell(pc)
    }
}

/// The word of `JALR` decodes to its uop.
pub proof fn law_jalr_decodes(
    raw: u32,
    pc: u32,
    gpr: Seq<u32>,
    imm: int,
    rs1: int,
    f3: int,
    rd: int,
)
    requires
        register(rs1) && register(rd) && 0 <= f3 < 8 && -0x800 <= imm < 0x800,
        raw == i_word(imm, rs1, f3, rd, 0x67),
    ensures
        crate::decode::decoded(raw, pc, gpr) == jalr_uop(pc, gpr, imm, rs1, f3, rd),
{
    reveal(i_word);
    lemma_fields(raw, 0x67, rd, f3, rs1, imm % 0x1000);
    lemma_imm_i(raw, imm);
}

/// A step at the word of `JALR` does what its uop says.
proof fn lemma_jalr_acts(
    before: CoreModel<RamBus>,
    packet: CommitPacket,
    after: CoreModel<RamBus>,
    imm: int,
    rs1: int,
    f3: int,
    rd: int,
)
    requires
        crate::hart::steps(before, packet, after),
        register(rs1) && register(rd) && 0 <= f3 < 8 && -0x800 <= imm < 0x800,
        fetches(before, i_word(imm, rs1, f3, rd, 0x67)),
    ensures
        acts(before, packet, after, jalr_uop(before.state.pc, before.state.gpr, imm, rs1, f3, rd)),
{
    let raw = i_word(imm, rs1, f3, rd, 0x67) as u32;
    law_jalr_decodes(raw, before.state.pc, before.state.gpr, imm, rs1, f3, rd);
    lemma_acts(before, packet, after, raw);
}

/// `JALR` puts the address of the next instruction into `rd` and goes to the source
/// register plus its immediate, with bit 0 cleared; a target that is then no multiple
/// of four halts.
#[verifier::spinoff_prover]
#[verifier::rlimit(40)]
pub proof fn law_jalr(
    before: CoreModel<RamBus>,
    packet: CommitPacket,
    after: CoreModel<RamBus>,
    imm: int,
    rs1: int,
    f3: int,
    rd: int,
)
    requires
        crate::hart::steps(before, packet, after),
        before.state.gpr.len() == 32,
        register(rs1) && register(rd) && 0 <= f3 < 8 && -0x800 <= imm < 0x800,
        fetches(before, i_word(imm, rs1, f3, rd, 0x67)),
    ensures
        ({
            let sum = on(before.state.gpr[rs1], imm);
            let target = sum - sum % 2;
            &&& target % 4 != 0 ==> halts(before, packet, after, HaltKind::MisalignPc, 134)
            &&& target % 4 == 0 && interrupt(before.state.csrs) == 0 ==> computes(
                before,
                packet,
                after,
                rd,
                on(before.state.pc, 4),
                target,
            )
        }),
{
    lemma_jalr_acts(before, packet, after, imm, rs1, f3, rd);
    reveal(acts);
    lemma_interrupt(before.state.csrs);
}

/// Whether a branch with this `funct3` is taken on the source registers' values: `BEQ`,
/// `BNE`, `BLT`, `BGE`, `BLTU` and `BGEU`.
pub open spec fn goes(f3: int, a: u32, b: u32) -> bool {
    ||| f3 == 0 && a == b
    ||| f3 == 1 && a != b
    ||| f3 == 4 && (a as i32) < (b as i32)
    ||| f3 == 5 && (a as i32) >= (b as i32)
    ||| f3 == 6 && a < b
    ||| f3 == 7 && a >= b
}

/// The uop of a branch.
pub open spec fn branch_uop(
    pc: u32,
    gpr: Seq<u32>,
    offset: int,
    rs2: int,
    rs1: int,
    f3: int,
) -> Uop {
    Uop {
        rs1: rs1 as u8,
        rs2: rs2 as u8,
        rs1_val: gpr[rs1],
        rs2_val: gpr[rs2],
        imm: (offset % 0x1_0000_0000) as u32,
        alu_src1: AluSrc1::Pc,
        alu_src2: AluSrc2::Imm,
        branch: crate::decode::branch_of(f3 as u32),
        illegal: crate::decode::branch_of(f3 as u32) is None,
        ..Uop::shell(pc)
    }
}

/// The fields of a branch's word, by the parts of its offset.
proof fn lemma_b_fields(
    raw: u32,
    a: int,
    b: int,
    c: int,
    d: int,
    rs2: int,
    rs1: int,
    f3: int,
)
    requires
        register(rs1) && register(rs2) && 0 <= f3 < 8,
        0 <= a < 2 && 0 <= b < 2 && 0 <= c < 0x40 && 0 <= d < 0x10,
        raw == a * 0x8000_0000 + c * 0x200_0000 + rs2 * 0x10_0000 + rs1 * 0x8000 + f3 * 0x1000 + d
            * 0x100 + b * 0x80 + 0x63,
    ensures
        crate::decode::opcode_of(raw) == 0x63,
        crate::decode::funct3_of(raw) == f3,
        crate::decode::rs1_of(raw) == rs1,
        crate::decode::rs2_of(raw) == rs2,
        crate::decode::imm_b_of(raw) == crate::word::sign_extend(
            a * 0x1000 + b * 0x800 + c * 0x20 + d * 2,
            0x2000,
        ),
{
    let n = raw as int;
    let rest = rs2 * 0x10_0000 + rs1 * 0x8000 + f3 * 0x1000 + d * 0x100 + b * 0x80 + 0x63;
    let top = a * 0x800 + c * 0x20 + rs2;
    let q = (top * 0x20 + rs1) * 8 + f3;
    lemma_split(top, 0x20, a * 0x40 + c, rs2);
    lemma_fields(raw, 0x63, d * 2 + b, f3, rs1, top);
    lemma_split(n, 0x80, q * 0x20 + d * 2 + b, 0x63);
    lemma_split(q * 0x20 + d * 2 + b, 2, q * 0x10 + d, b);
    lemma_split(n, 0x100, q * 0x10 + d, b * 0x80 + 0x63);
    lemma_split(q * 0x10 + d, 0x10, q, d);
    lemma_split(n, 0x200_0000, a * 0x40 + c, rest);
    lemma_split(a * 0x40 + c, 0x40, a, c);
    lemma_split(n, 0x8000_0000, a, c * 0x200_0000 + rest);
}

/// The parts of a branch's offset.
proof fn lemma_b_parts(u: int)
    requires
        0 <= u < 0x2000,
        u % 2 == 0,
    ensures
        u == (u / 0x1000) * 0x1000 + (u / 0x800 % 2) * 0x800 + (u / 0x20 % 0x40) * 0x20 + (u / 2
            % 0x10) * 2,
        0 <= u / 0x1000 < 2,
{
    assert(u / 0x800 == (u / 0x1000) * 2 + u / 0x800 % 2);
    assert(u / 0x20 == (u / 0x800) * 0x40 + u / 0x20 % 0x40);
    assert(u / 2 == (u / 0x20) * 0x10 + u / 2 % 0x10);
}

/// The fields of a branch's word.
proof fn lemma_b_word(raw: u32, offset: int, rs2: int, rs1: int, f3: int)
    requires
        register(rs1) && register(rs2) && 0 <= f3 < 8,
        -0x1000 <= offset < 0x1000 && offset % 2 == 0,
        raw == b_word(offset, rs2, rs1, f3),
    ensures
        crate::decode::opcode_of(raw) == 0x63,
        crate::decode::funct3_of(raw) == f3,
        crate::decode::rs1_of(raw) == rs1,
        crate::decode::rs2_of(raw) == rs2,
        crate::decode::imm_b_of(raw) == offset % 0x1_0000_0000,
{
    reveal(b_word);
    let u = offset % 0x2000;
    lemma_extend(offset, 0x2000);
    lemma_b_parts(u);
    lemma_b_fields(
        raw,
        u / 0x1000,
        u / 0x800 % 2,
        u / 0x20 % 0x40,
        u / 2 % 0x10,
        rs2,
        rs1,
        f3,
    );
}

/// The word of a branch decodes to its uop.
pub proof fn law_branch_decodes(
    raw: u32,
    pc: u32,
    gpr: Seq<u32>,
    offset: int,
    rs2: int,
    rs1: int,
    f3: int,
)
    requires
        register(rs1) && register(rs2) && 0 <= f3 < 8,
        -0x1000 <= offset < 0x1000 && offset % 2 == 0,
        raw == b_word(offset, rs2, rs1, f3),
    ensures
        crate::decode::decoded(raw, pc, gpr) == branch_uop(pc, gpr, offset, rs2, rs1, f3),
{
    lemma_b_word(raw, offset, rs2, rs1, f3);
}

/// A step at the word of a branch does what its uop says.
proof fn lemma_branch_acts(
    before: CoreModel<RamBus>,
    packet: CommitPacket,
    after: CoreModel<RamBus>,
    offset: int,
    rs2: int,
    rs1: int,
    f3: int,
)
    requires
        crate::hart::steps(before, packet, after),
        register(rs1) && register(rs2) && 0 <= f3 < 8,
        -0x1000 <= offset < 0x1000 && offset % 2 == 0,
        fetches(before, b_word(offset, rs2, rs1, f3)),
    ensures
        acts(
            before,
            packet,
            after,
            branch_uop(before.state.pc, before.state.gpr, offset, rs2, rs1, f3),
        ),
{
    let raw = b_word(offset, rs2, rs1, f3) as u32;
    law_branch_decodes(raw, before.state.pc, before.state.gpr, offset, rs2, rs1, f3);
    lemma_acts(before, packet, after, raw);
}

/// A branch changes the PC alone. It goes to the PC plus its offset if its condition
/// holds, which halts if that is no multiple of four, and else to the next
/// instruction. Two codes are no condition and halt as illegal.
#[verifier::spinoff_prover]
#[verifier::rlimit(40)]
pub proof fn law_branch(
    before: CoreModel<RamBus>,
    packet: CommitPacket,
    after: CoreModel<RamBus>,
    offset: int,
    rs2: int,
    rs1: int,
    f3: int,
)
    requires
        crate::hart::steps(before, packet, after),
        before.state.gpr.len() == 32,
        register(rs1) && register(rs2) && 0 <= f3 < 8,
        -0x1000 <= offset < 0x1000 && offset % 2 == 0,
        fetches(before, b_word(offset, rs2, rs1, f3)),
    ensures
        ({
            let target = on(before.state.pc, offset);
            let taken = goes(f3, before.state.gpr[rs1], before.state.gpr[rs2]);
            if f3 == 2 || f3 == 3 {
                halts(before, packet, after, HaltKind::Illegal, 130)
            } else if taken && target % 4 != 0 {
                halts(before, packet, after, HaltKind::MisalignPc, 134)
            } else {
                interrupt(before.state.csrs) == 0 ==> computes(
                    before,
                    packet,
                    after,
                    0,
                    0,
                    if taken {
                        target
                    } else {
                        on(before.state.pc, 4)
                    },
                )
            }
        }),
{
    lemma_branch_acts(before, packet, after, offset, rs2, rs1, f3);
    reveal(acts);
    lemma_interrupt(before.state.csrs);
    crate::word::lemma_as_signed(before.state.gpr[rs1]);
    crate::word::lemma_as_signed(before.state.gpr[rs2]);
}

/// The number of bytes that a load or store with this `funct3` accesses.
pub open spec fn access_size(f3: int) -> int {
    if f3 == 0 || f3 == 4 {
        1
    } else if f3 == 1 || f3 == 5 {
        2
    } else {
        4
    }
}

/// The uop of a load.
pub open spec fn load_uop(pc: u32, gpr: Seq<u32>, imm: int, rs1: int, f3: int, rd: int) -> Uop {
    Uop {
        rs1: rs1 as u8,
        rd: rd as u8,
        rs1_val: gpr[rs1],
        imm: (imm % 0x1_0000_0000) as u32,
        alu_src2: AluSrc2::Imm,
        rd_source: RdSource::MemLoad,
        mem: Some(
            MemOp {
                store: false,
                width: crate::decode::width_of(f3 as u32),
                load_signext: f3 == 0 || f3 == 1,
            },
        ),
        illegal: false,
        ..Uop::shell(pc)
    }
}

/// The word of a load decodes to its uop.
pub proof fn law_load_decodes(
    raw: u32,
    pc: u32,
    gpr: Seq<u32>,
    imm: int,
    rs1: int,
    f3: int,
    rd: int,
)
    requires
        register(rs1) && register(rd) && 0 <= f3 < 8 && -0x800 <= imm < 0x800,
        raw == i_word(imm, rs1, f3, rd, 0x03),
    ensures
        crate::decode::decoded(raw, pc, gpr) == load_uop(pc, gpr, imm, rs1, f3, rd),
{
    reveal(i_word);
    lemma_fields(raw, 0x03, rd, f3, rs1, imm % 0x1000);
    lemma_imm_i(raw, imm);
}

/// What a load makes of the number in memory.
proof fn lemma_extended(v: u32, f3: int)
    requires
        0 <= f3 < 8,
        access_size(f3) == 1 ==> v < 0x100,
        access_size(f3) == 2 ==> v < 0x1_0000,
    ensures
        crate::execute::extended(
            v,
            MemOp {
                store: false,
                width: crate::decode::width_of(f3 as u32),
                load_signext: f3 == 0 || f3 == 1,
            },
        ) == if f3 == 0 && v >= 0x80 {
            v + 0xFFFF_FF00
        } else if f3 == 1 && v >= 0x8000 {
            v + 0xFFFF_0000
        } else {
            v as int
        },
{
}

/// A step at the word of a load does what its uop says.
proof fn lemma_load_acts(
    before: CoreModel<RamBus>,
    packet: CommitPacket,
    after: CoreModel<RamBus>,
    imm: int,
    rs1: int,
    f3: int,
    rd: int,
)
    requires
        crate::hart::steps(before, packet, after),
        register(rs1) && register(rd) && 0 <= f3 < 8 && -0x800 <= imm < 0x800,
        fetches(before, i_word(imm, rs1, f3, rd, 0x03)),
    ensures
        acts(before, packet, after, load_uop(before.state.pc, before.state.gpr, imm, rs1, f3, rd)),
{
    let raw = i_word(imm, rs1, f3, rd, 0x03) as u32;
    law_load_decodes(raw, before.state.pc, before.state.gpr, imm, rs1, f3, rd);
    lemma_acts(before, packet, after, raw);
}

/// A load puts the number at the source register plus its immediate into `rd`: a byte
/// for `LB` and `LBU`, a halfword for `LH` and `LHU`, a word for `LW`, little-endian.
/// `LB` and `LH` repeat the top bit of theirs. An address that is no multiple of the
/// size halts, and so does one outside memory.
#[verifier::spinoff_prover]
#[verifier::rlimit(40)]
pub proof fn law_load(
    before: CoreModel<RamBus>,
    packet: CommitPacket,
    after: CoreModel<RamBus>,
    imm: int,
    rs1: int,
    f3: int,
    rd: int,
)
    requires
        crate::hart::steps(before, packet, after),
        before.state.gpr.len() == 32,
        register(rs1) && register(rd) && 0 <= f3 < 8 && -0x800 <= imm < 0x800,
        fetches(before, i_word(imm, rs1, f3, rd, 0x03)),
    ensures
        ({
            let addr = on(before.state.gpr[rs1], imm);
            let size = access_size(f3);
            let mem = before.bus@.mem;
            let off = addr - before.bus@.base;
            let v = if size == 1 {
                mem[off] as int
            } else if size == 2 {
                mem[off] + 0x100 * mem[off + 1]
            } else {
                mem[off] + 0x100 * mem[off + 1] + 0x1_0000 * mem[off + 2] + 0x100_0000 * mem[off
                    + 3]
            };
            if addr % size != 0 {
                halts(before, packet, after, HaltKind::MisalignLd, 134)
            } else if off < 0 || off + size > mem.len() {
                halts(before, packet, after, HaltKind::BusErrorLd, 132)
            } else {
                interrupt(before.state.csrs) == 0 ==> computes(
                    before,
                    packet,
                    after,
                    rd,
                    if f3 == 0 && v >= 0x80 {
                        v + 0xFFFF_FF00
                    } else if f3 == 1 && v >= 0x8000 {
                        v + 0xFFFF_0000
                    } else {
                        v
                    },
                    on(before.state.pc, 4),
                )
            }
        }),
{
    lemma_load_acts(before, packet, after, imm, rs1, f3, rd);
    reveal(acts);
    lemma_interrupt(before.state.csrs);
    let addr = on(before.state.gpr[rs1], imm) as u32;
    let width = crate::decode::width_of(f3 as u32);
    let uop = load_uop(before.state.pc, before.state.gpr, imm, rs1, f3, rd);
    assert(crate::execute::alu_output(uop) == addr);
    assert(width.size() == access_size(f3));
    if before.bus@.covers(addr, width) {
        crate::bus::lemma_loaded(before.bus@.mem, addr - before.bus@.base, width);
        lemma_extended(before.bus@.value_at(addr, width), f3);
    }
}

/// The uop of a store.
pub open spec fn store_uop(pc: u32, gpr: Seq<u32>, imm: int, rs2: int, rs1: int, f3: int) -> Uop {
    Uop {
        rs1: rs1 as u8,
        rs2: rs2 as u8,
        rs1_val: gpr[rs1],
        rs2_val: gpr[rs2],
        imm: (imm % 0x1_0000_0000) as u32,
        alu_src2: AluSrc2::Imm,
        mem: Some(
            MemOp {
                store: true,
                width: crate::decode::width_of(f3 as u32),
                load_signext: false,
            },
        ),
        illegal: false,
        ..Uop::shell(pc)
    }
}

/// The fields of a store's word.
proof fn lemma_s_word(raw: u32, imm: int, rs2: int, rs1: int, f3: int)
    requires
        register(rs1) && register(rs2) && 0 <= f3 < 8 && -0x800 <= imm < 0x800,
        raw == s_word(imm, rs2, rs1, f3),
    ensures
        crate::decode::opcode_of(raw) == 0x23,
        crate::decode::funct3_of(raw) == f3,
        crate::decode::rs1_of(raw) == rs1,
        crate::decode::rs2_of(raw) == rs2,
        crate::decode::imm_s_of(raw) == imm % 0x1_0000_0000,
{
    reveal(s_word);
    let u = imm % 0x1000;
    let (high, low) = (u / 0x20, u % 0x20);
    assert(u == 0x20 * high + low && 0 <= high < 0x80 && 0 <= low < 0x20);
    lemma_split(high * 0x20 + rs2, 0x20, high, rs2);
    lemma_fields(raw, 0x23, low, f3, rs1, high * 0x20 + rs2);
    lemma_extend(imm, 0x1000);
}

/// The word of a store decodes to its uop.
pub proof fn law_store_decodes(
    raw: u32,
    pc: u32,
    gpr: Seq<u32>,
    imm: int,
    rs2: int,
    rs1: int,
    f3: int,
)
    requires
        register(rs1) && register(rs2) && 0 <= f3 < 8 && -0x800 <= imm < 0x800,
        raw == s_word(imm, rs2, rs1, f3),
    ensures
        crate::decode::decoded(raw, pc, gpr) == store_uop(pc, gpr, imm, rs2, rs1, f3),
{
    lemma_s_word(raw, imm, rs2, rs1, f3);
}

/// A step at the word of a store does what its uop says.
proof fn lemma_store_acts(
    before: CoreModel<RamBus>,
    packet: CommitPacket,
    after: CoreModel<RamBus>,
    imm: int,
    rs2: int,
    rs1: int,
    f3: int,
)
    requires
        crate::hart::steps(before, packet, after),
        register(rs1) && register(rs2) && 0 <= f3 < 8 && -0x800 <= imm < 0x800,
        fetches(before, s_word(imm, rs2, rs1, f3)),
    ensures
        acts(
            before,
            packet,
            after,
            store_uop(before.state.pc, before.state.gpr, imm, rs2, rs1, f3),
        ),
{
    let raw = s_word(imm, rs2, rs1, f3) as u32;
    law_store_decodes(raw, before.state.pc, before.state.gpr, imm, rs2, rs1, f3);
    lemma_acts(before, packet, after, raw);
}

/// A store puts the low byte, halfword or word of its second source register to the
/// first one plus its immediate, little-endian, and changes no other byte and no
/// register. An address that is no multiple of the size halts, and so does one outside
/// memory, without effect.
#[verifier::spinoff_prover]
#[verifier::rlimit(40)]
pub proof fn law_store(
    before: CoreModel<RamBus>,
    packet: CommitPacket,
    after: CoreModel<RamBus>,
    imm: int,
    rs2: int,
    rs1: int,
    f3: int,
    k: int,
)
    requires
        crate::hart::steps(before, packet, after),
        before.state.gpr.len() == 32,
        register(rs1) && register(rs2) && 0 <= f3 < 8 && -0x800 <= imm < 0x800,
        fetches(before, s_word(imm, rs2, rs1, f3)),
        0 <= k < before.bus@.mem.len(),
    ensures
        ({
            let addr = on(before.state.gpr[rs1], imm);
            let data = before.state.gpr[rs2];
            let size = access_size(f3);
            let off = addr - before.bus@.base;
            let inside = 0 <= off && off + size <= before.bus@.mem.len();
            &&& addr % size != 0 ==> halts(before, packet, after, HaltKind::MisalignSt, 134)
            &&& addr % size == 0 && interrupt(before.state.csrs) == 0 && !inside ==> halts(
                before,
                packet,
                after,
                HaltKind::BusErrorSt,
                133,
            )
            &&& addr % size == 0 && interrupt(before.state.csrs) == 0 && inside ==> {
                &&& retires(before, packet, after, 0, 0, on(before.state.pc, 4))
                &&& after.state.csrs == before.state.csrs
                &&& packet.store == Some(
                    StoreObserved {
                        addr: addr as u32,
                        data,
                        strb: if size == 1 {
                            0x1
                        } else if size == 2 {
                            0x3
                        } else {
                            0xF
                        },
                    },
                )
                &&& after.bus@.base == before.bus@.base
                &&& after.bus@.mem.len() == before.bus@.mem.len()
                &&& after.bus@.mem[k] == if off <= k < off + size {
                    octet(data, k - off)
                } else {
                    before.bus@.mem[k] as int
                }
            }
        }),
{
    lemma_store_acts(before, packet, after, imm, rs2, rs1, f3);
    reveal(acts);
    lemma_interrupt(before.state.csrs);
}

/// What a Zicsr instruction puts in place of what the CSR reads as: its source for
/// `CSRRW`, the bits of both for `CSRRS`, and the bits that its source has not for
/// `CSRRC`.
pub open spec fn replaced(f3: int, old_value: u32, source: u32) -> u32 {
    if f3 == 1 || f3 == 5 {
        source
    } else if f3 == 2 || f3 == 6 {
        old_value | source
    } else {
        old_value & !source
    }
}

/// What a CSR reads as after `value` is written to it.
pub open spec fn kept(addr: int, old_value: u32, value: u32) -> u32 {
    if addr == 0x300 {
        (value & 0x88) | 0x1800
    } else if addr == 0x304 {
        value & 0x888
    } else if addr == 0x305 || addr == 0x341 {
        value & 0xFFFF_FFFC
    } else if addr == 0x340 || addr == 0x342 || addr == 0x343 {
        value
    } else {
        old_value
    }
}

/// The uop of a Zicsr instruction.
pub open spec fn csr_uop(pc: u32, gpr: Seq<u32>, addr: int, slot: int, f3: int, rd: int) -> Uop {
    Uop {
        rd: rd as u8,
        system: SystemKind::Csr {
            op: crate::decode::csr_op_of(f3 as u32),
            addr: addr as u16,
            source: if f3 >= 5 {
                CsrSource::Imm(slot as u32)
            } else {
                CsrSource::Reg(gpr[slot])
            },
            writes: crate::decode::csr_op_of(f3 as u32) == CsrOp::Rw || slot != 0,
        },
        illegal: false,
        ..Uop::shell(pc)
    }
}

/// The word of a Zicsr instruction decodes to its uop.
pub proof fn law_csr_decodes(
    raw: u32,
    pc: u32,
    gpr: Seq<u32>,
    addr: int,
    slot: int,
    f3: int,
    rd: int,
)
    requires
        register(slot) && register(rd) && 0 <= addr < 0x1000 && 0 < f3 < 8 && f3 != 4,
        raw == i_word(addr, slot, f3, rd, 0x73),
    ensures
        crate::decode::decoded(raw, pc, gpr) == csr_uop(pc, gpr, addr, slot, f3, rd),
{
    reveal(i_word);
    lemma_split(addr, 0x1000, 0, addr);
    lemma_fields(raw, 0x73, rd, f3, slot, addr);
}

/// A step at the word of a Zicsr instruction does what its uop says.
proof fn lemma_csr_acts(
    before: CoreModel<RamBus>,
    packet: CommitPacket,
    after: CoreModel<RamBus>,
    addr: int,
    slot: int,
    f3: int,
    rd: int,
)
    requires
        crate::hart::steps(before, packet, after),
        register(slot) && register(rd) && 0 <= addr < 0x1000 && 0 < f3 < 8 && f3 != 4,
        fetches(before, i_word(addr, slot, f3, rd, 0x73)),
    ensures
        acts(before, packet, after, csr_uop(before.state.pc, before.state.gpr, addr, slot, f3, rd)),
{
    let raw = i_word(addr, slot, f3, rd, 0x73) as u32;
    law_csr_decodes(raw, before.state.pc, before.state.gpr, addr, slot, f3, rd);
    lemma_acts(before, packet, after, raw);
}

/// A Zicsr instruction puts what the CSR reads as into `rd` and changes the CSR in one
/// step. `CSRRS` and `CSRRC` with a zero slot only read. Of what is written each CSR
/// keeps the bits that it has, and no other CSR changes. A CSR that there is not, and a
/// write to a read-only one, halt as illegal.
#[verifier::spinoff_prover]
#[verifier::rlimit(40)]
pub proof fn law_csr(
    before: CoreModel<RamBus>,
    packet: CommitPacket,
    after: CoreModel<RamBus>,
    addr: int,
    slot: int,
    f3: int,
    rd: int,
    other: u16,
)
    requires
        crate::hart::steps(before, packet, after),
        before.state.gpr.len() == 32,
        register(slot) && register(rd) && 0 <= addr < 0x1000 && 0 < f3 < 8 && f3 != 4,
        fetches(before, i_word(addr, slot, f3, rd, 0x73)),
    ensures
        ({
            let csrs = before.state.csrs;
            let source = if f3 >= 5 {
                slot as u32
            } else {
                before.state.gpr[slot]
            };
            let writes = f3 % 4 == 1 || slot != 0;
            let old_value = csr(csrs, addr as u16);
            if !known(addr) || writes && addr >= 0xC00 {
                halts(before, packet, after, HaltKind::Illegal, 130)
            } else {
                interrupt(csrs) == 0 ==> {
                    &&& retires(
                        before,
                        packet,
                        after,
                        rd,
                        old_value as int,
                        on(before.state.pc, 4),
                    )
                    &&& packet.store is None
                    &&& after.bus@ == before.bus@
                    &&& !writes ==> after.state.csrs == csrs
                    &&& writes ==> csr(after.state.csrs, addr as u16) == kept(
                        addr,
                        old_value,
                        replaced(f3, old_value, source),
                    )
                    &&& other != addr ==> after.state.csrs.read(other) == csrs.read(other)
                }
            }
        }),
{
    lemma_csr_acts(before, packet, after, addr, slot, f3, rd);
    reveal(acts);
    let csrs = before.state.csrs;
    let source = if f3 >= 5 {
        slot as u32
    } else {
        before.state.gpr[slot]
    };
    lemma_interrupt(csrs);
    crate::csr::law_read_after_write(
        csrs,
        addr as u16,
        replaced(f3, csr(csrs, addr as u16), source),
        other,
    );
}

/// What `CSRRS` and `CSRRC` leave, bit by bit: `CSRRS` sets the bits that the source
/// has and keeps the others, `CSRRC` clears them and keeps the others, and `CSRRW`
/// leaves the source's.
pub proof fn law_csr_bits(f3: int, old_value: u32, source: u32, i: u32)
    requires
        0 < f3 < 8 && f3 != 4,
        i < 32,
    ensures
        ({
            let was = old_value & (1u32 << i) != 0;
            let has = source & (1u32 << i) != 0;
            replaced(f3, old_value, source) & (1u32 << i) != 0 <==> if f3 % 4 == 1 {
                has
            } else if f3 % 4 == 2 {
                was || has
            } else {
                was && !has
            }
        }),
{
    let m: u32 = 1u32 << i;
    assert(((old_value | source) & m != 0) == (old_value & m != 0 || source & m != 0)
        && ((old_value & !source) & m != 0) == (old_value & m != 0 && source & m == 0))
        by (bit_vector)
        requires
            m == 1u32 << i,
            i < 32,
    ;
}

/// The uop of a SYSTEM instruction without a CSR.
pub open spec fn control_uop(pc: u32, top: int, slot: int, f3: int, rd: int) -> Uop {
    let plain = f3 == 0 && slot == 0 && rd == 0;
    let kind = if plain && top == 0 {
        SystemKind::Ecall
    } else if plain && top == 1 {
        SystemKind::Ebreak
    } else if plain && top == 0x302 {
        SystemKind::Mret
    } else if plain && top == 0x105 {
        SystemKind::Wfi
    } else {
        SystemKind::NotSystem
    };
    Uop { system: kind, illegal: kind is NotSystem, ..Uop::shell(pc) }
}

/// The word of a SYSTEM instruction without a CSR decodes to its uop.
pub proof fn law_control_decodes(
    raw: u32,
    pc: u32,
    gpr: Seq<u32>,
    top: int,
    slot: int,
    f3: int,
    rd: int,
)
    requires
        register(slot) && register(rd) && 0 <= top < 0x1000 && (f3 == 0 || f3 == 4),
        raw == i_word(top, slot, f3, rd, 0x73),
    ensures
        crate::decode::decoded(raw, pc, gpr) == control_uop(pc, top, slot, f3, rd),
{
    reveal(i_word);
    lemma_split(top, 0x1000, 0, top);
    lemma_fields(raw, 0x73, rd, f3, slot, top);
}

/// A step at the word of a SYSTEM instruction without a CSR does what its uop says.
proof fn lemma_control_acts(
    before: CoreModel<RamBus>,
    packet: CommitPacket,
    after: CoreModel<RamBus>,
    top: int,
    slot: int,
    f3: int,
    rd: int,
)
    requires
        crate::hart::steps(before, packet, after),
        register(slot) && register(rd) && 0 <= top < 0x1000 && (f3 == 0 || f3 == 4),
        fetches(before, i_word(top, slot, f3, rd, 0x73)),
    ensures
        acts(before, packet, after, control_uop(before.state.pc, top, slot, f3, rd)),
{
    let raw = i_word(top, slot, f3, rd, 0x73) as u32;
    law_control_decodes(raw, before.state.pc, before.state.gpr, top, slot, f3, rd);
    lemma_acts(before, packet, after, raw);
}

/// The SYSTEM instructions without a CSR. `ECALL` enters the trap handler with cause 11,
/// or with that of an interrupt that is taken at the same time; on the handler's first
/// instruction it halts. `EBREAK` halts with the low byte of `a0` as exit code. `MRET`
/// goes to `mepc`, moves `MPIE` to `MIE` and sets `MPIE`. `WFI` goes on to the next
/// instruction. Any other such word halts as illegal.
#[verifier::spinoff_prover]
#[verifier::rlimit(40)]
pub proof fn law_control(
    before: CoreModel<RamBus>,
    packet: CommitPacket,
    after: CoreModel<RamBus>,
    top: int,
    slot: int,
    f3: int,
    rd: int,
    other: u16,
)
    requires
        crate::hart::steps(before, packet, after),
        before.state.gpr.len() == 32,
        register(slot) && register(rd) && 0 <= top < 0x1000 && (f3 == 0 || f3 == 4),
        fetches(before, i_word(top, slot, f3, rd, 0x73)),
    ensures
        ({
            let csrs = before.state.csrs;
            let taken = interrupt(csrs);
            let plain = f3 == 0 && slot == 0 && rd == 0;
            if plain && top == 0 {
                if at_handler(before) {
                    halts(before, packet, after, HaltKind::DoubleTrap, 135)
                } else {
                    enters_trap(
                        before,
                        packet,
                        after,
                        if taken != 0 {
                            taken
                        } else {
                            11
                        },
                    )
                }
            } else if plain && top == 1 {
                let a0 = (before.state.gpr[10] % 0x100) as u8;
                halts(before, packet, after, HaltKind::Voluntary { a0 }, a0)
            } else if plain && top == 0x302 {
                taken == 0 ==> {
                    &&& retires(before, packet, after, 0, 0, csr(csrs, 0x341) as int)
                    &&& packet.store is None
                    &&& after.bus@ == before.bus@
                    &&& csr(after.state.csrs, 0x300) == if csr(csrs, 0x300) & 0x80 != 0 {
                        0x1888u32
                    } else {
                        0x1880
                    }
                    &&& other != 0x300 ==> after.state.csrs.read(other) == csrs.read(other)
                }
            } else if plain && top == 0x105 {
                taken == 0 ==> computes(before, packet, after, 0, 0, on(before.state.pc, 4))
            } else {
                halts(before, packet, after, HaltKind::Illegal, 130)
            }
        }),
{
    lemma_control_acts(before, packet, after, top, slot, f3, rd);
    reveal(acts);
    lemma_interrupt(before.state.csrs);
    lemma_interrupt(after.state.csrs);
    crate::csr::lemma_mie_bit(before.state.csrs);
}

/// A step whose word is illegal, or a mere NOP.
proof fn lemma_shell(
    before: CoreModel<RamBus>,
    packet: CommitPacket,
    after: CoreModel<RamBus>,
    illegal: bool,
)
    requires
        acts(before, packet, after, Uop { illegal, ..Uop::shell(before.state.pc) }),
        before.state.gpr.len() == 32,
    ensures
        illegal ==> halts(before, packet, after, HaltKind::Illegal, 130),
        !illegal && interrupt(before.state.csrs) == 0 ==> computes(
            before,
            packet,
            after,
            0,
            0,
            on(before.state.pc, 4),
        ),
{
    reveal(acts);
    lemma_interrupt(before.state.csrs);
}

/// `FENCE` goes on to the next instruction and does nothing else. The other codes of its
/// opcode, `FENCE.I` among them, halt as illegal.
pub proof fn law_fence(
    before: CoreModel<RamBus>,
    packet: CommitPacket,
    after: CoreModel<RamBus>,
    imm: int,
    rs1: int,
    f3: int,
    rd: int,
)
    requires
        crate::hart::steps(before, packet, after),
        before.state.gpr.len() == 32,
        register(rs1) && register(rd) && 0 <= f3 < 8 && -0x800 <= imm < 0x800,
        fetches(before, i_word(imm, rs1, f3, rd, 0x0F)),
    ensures
        f3 != 0 ==> halts(before, packet, after, HaltKind::Illegal, 130),
        f3 == 0 && interrupt(before.state.csrs) == 0 ==> computes(
            before,
            packet,
            after,
            0,
            0,
            on(before.state.pc, 4),
        ),
{
    let raw = i_word(imm, rs1, f3, rd, 0x0F) as u32;
    assert(crate::decode::opcode_of(raw) == 0x0F && crate::decode::funct3_of(raw) == f3) by {
        reveal(i_word);
        lemma_fields(raw, 0x0F, rd, f3, rs1, imm % 0x1000);
    }
    lemma_acts(before, packet, after, raw);
    lemma_shell(before, packet, after, f3 != 0);
}

/// A word whose opcode is none of the eleven halts as illegal.
pub proof fn law_other_opcodes_are_illegal(
    before: CoreModel<RamBus>,
    packet: CommitPacket,
    after: CoreModel<RamBus>,
    raw: u32,
)
    requires
        crate::hart::steps(before, packet, after),
        before.state.gpr.len() == 32,
        fetches(before, raw as int),
        ({
            let op = raw % 0x80;
            &&& op != 0x33 && op != 0x13 && op != 0x03 && op != 0x23 && op != 0x63 && op != 0x6F
            &&& op != 0x67 && op != 0x17 && op != 0x37 && op != 0x0F && op != 0x73
        }),
    ensures
        halts(before, packet, after, HaltKind::Illegal, 130),
{
    lemma_acts(before, packet, after, raw);
    lemma_shell(before, packet, after, true);
}

/// A PC that is no multiple of four halts, and so does one outside memory.
pub proof fn law_fetch_faults(
    before: CoreModel<RamBus>,
    packet: CommitPacket,
    after: CoreModel<RamBus>,
)
    requires
        crate::hart::steps(before, packet, after),
    ensures
        ({
            let pc = before.state.pc;
            let ram = before.bus@;
            &&& pc % 4 != 0 ==> halts(before, packet, after, HaltKind::MisalignPc, 134)
            &&& pc % 4 == 0 && (pc < ram.base || pc - ram.base + 4 > ram.mem.len()) ==> halts(
                before,
                packet,
                after,
                HaltKind::BusErrorIf,
                131,
            )
        }),
{
    crate::laws::law_ram_step_is_a_function(before, packet, after);
}

/// With `mstatus.MIE` set, a step that does not halt traps to the first of external,
/// software and timer interrupt whose bit is set in both `mip` and `mie`. It takes no
/// interrupt if none is, or if `MIE` is clear. This holds over any bus.
pub proof fn law_interrupt_is_taken<B: Bus>(
    before: CoreModel<B>,
    packet: CommitPacket,
    after: CoreModel<B>,
)
    requires
        crate::hart::steps(before, packet, after),
        packet.halt is None,
    ensures
        ({
            let enabled = csr(before.state.csrs, 0x300) & 0x8 != 0;
            let mip = csr(before.state.csrs, 0x344);
            let mie = csr(before.state.csrs, 0x304);
            let external = mip & 0x800 != 0 && mie & 0x800 != 0;
            let software = mip & 0x8 != 0 && mie & 0x8 != 0;
            let timer = mip & 0x80 != 0 && mie & 0x80 != 0;
            if enabled && (external || software || timer) {
                &&& packet.trap is Some
                &&& packet.trap->0.cause == if external {
                    0x8000_000Bu32
                } else if software {
                    0x8000_0003
                } else {
                    0x8000_0007
                }
                &&& after.state.pc == csr(before.state.csrs, 0x305)
                &&& csr(after.state.csrs, 0x342) == packet.trap->0.cause
                &&& after.state.gpr == before.state.gpr
            } else {
                packet.trap is Some ==> packet.trap->0.cause == 11
            }
        }),
{
    reveal(crate::hart::steps);
    let mip = csr(before.state.csrs, 0x344);
    let mie = csr(before.state.csrs, 0x304);
    lemma_interrupt(before.state.csrs);
    assert(((mip & mie) & 0x800 != 0) == (mip & 0x800 != 0 && mie & 0x800 != 0) && ((mip & mie)
        & 0x8 != 0) == (mip & 0x8 != 0 && mie & 0x8 != 0) && ((mip & mie) & 0x80 != 0) == (mip
        & 0x80 != 0 && mie & 0x80 != 0)) by (bit_vector);
}

/// Raising the wires changes nothing about whether an instruction faults.
proof fn lemma_wires_and_faults(
    before1: CoreModel<RamBus>,
    before2: CoreModel<RamBus>,
)
    requires
        before2.state == (crate::arch::ArchModel {
            csrs: CsrModel {
                msip: before2.state.csrs.msip,
                mtip: before2.state.csrs.mtip,
                meip: before2.state.csrs.meip,
                ..before1.state.csrs
            },
            ..before1.state
        }),
        before1.bus@ == before2.bus@,
    ensures
        ({
            let one = crate::laws::ram_staged(before1.state, before1.bus@);
            let two = crate::laws::ram_staged(before2.state, before2.bus@);
            &&& one is Ok <==> two is Ok
            &&& one is Err ==> one == two
            &&& one is Err ==> !(one->Err_0 is BusErrorSt) && !(one->Err_0 is DoubleTrap)
        }),
{
    assert(before1.state.gpr == before2.state.gpr && before1.state.pc == before2.state.pc);
    assert(crate::laws::ram_fetch(before1.state, before1.bus@) == crate::laws::ram_fetch(
        before2.state,
        before2.bus@,
    ));
}

/// An interrupt that is taken goes before whatever the instruction does, unless the
/// instruction faults. Of two cores that differ in the interrupt wires alone, of which
/// the first has all of them low: if its step faults before it would retire, so does
/// that of the second; else the second enters the trap handler with the interrupt's
/// cause, or halts if that is the handler's first instruction.
pub proof fn law_interrupt_goes_first(
    before1: CoreModel<RamBus>,
    packet1: CommitPacket,
    after1: CoreModel<RamBus>,
    before2: CoreModel<RamBus>,
    packet2: CommitPacket,
    after2: CoreModel<RamBus>,
)
    requires
        crate::hart::steps(before1, packet1, after1),
        crate::hart::steps(before2, packet2, after2),
        before1.state.pc == before2.state.pc,
        before1.state.gpr == before2.state.gpr,
        before1.bus@ == before2.bus@,
        before1.trapped == before2.trapped,
        csr(before1.state.csrs, 0x344) == 0,
        forall|addr: u16|
            addr != 0x344 ==> #[trigger] before1.state.csrs.read(addr) == before2.state.csrs.read(
                addr,
            ),
        interrupt(before2.state.csrs) != 0,
    ensures
        ({
            let faults = packet1.halt is Some && !(packet1.halt->0.kind is BusErrorSt) && !(
            packet1.halt->0.kind is DoubleTrap);
            if faults {
                packet2.halt == packet1.halt && after2.state == before2.state
            } else if at_handler(before2) {
                halts(before2, packet2, after2, HaltKind::DoubleTrap, 135)
            } else {
                enters_trap(before2, packet2, after2, interrupt(before2.state.csrs))
            }
        }),
{
    let (c1, c2) = (before1.state.csrs, before2.state.csrs);
    lemma_interrupt(c1);
    lemma_interrupt(c2);
    crate::csr::lemma_mie_bit(c2);
    crate::csr::law_reads_tell_the_file(c1, c2);
    crate::csr::lemma_pending_bits(c1);
    crate::laws::law_ram_step_is_a_function(before1, packet1, after1);
    crate::laws::law_ram_step_is_a_function(before2, packet2, after2);
    lemma_wires_and_faults(before1, before2);
    if crate::laws::ram_staged(before2.state, before2.bus@) is Ok {
        assert(before2.state.pc % 4 == 0);
    }
    lemma_interrupt(after2.state.csrs);
}

/// The packet of every step tells what the CSRs read as after it.
pub proof fn law_packet_tells_the_csrs<B: Bus>(
    before: CoreModel<B>,
    packet: CommitPacket,
    after: CoreModel<B>,
)
    requires
        crate::hart::steps(before, packet, after),
    ensures
        packet.csr_snapshot.mstatus == csr(after.state.csrs, 0x300),
        packet.csr_snapshot.mie == csr(after.state.csrs, 0x304),
        packet.csr_snapshot.mtvec == csr(after.state.csrs, 0x305),
        packet.csr_snapshot.mscratch == csr(after.state.csrs, 0x340),
        packet.csr_snapshot.mepc == csr(after.state.csrs, 0x341),
        packet.csr_snapshot.mcause == csr(after.state.csrs, 0x342),
        packet.csr_snapshot.mtval == csr(after.state.csrs, 0x343),
        csr(after.state.csrs, 0x344) == csr(before.state.csrs, 0x344),
{
    reveal(crate::hart::steps);
}

/// Over any bus a step reads the word at the PC, unless that is misaligned, and after
/// that a load reads its own address once, and a store writes its own once; no other
/// step accesses the bus again. What a load delivers is what the bus answered.
pub proof fn law_bus_accesses<B: Bus>(
    before: CoreModel<B>,
    replies: Replies,
    fetched: B,
    executed: B,
    packet: CommitPacket,
    after: CoreModel<B>,
)
    requires
        crate::hart::step_with(before, replies, fetched, executed, packet, after),
    ensures
        before.state.pc % 4 != 0 ==> replies.fetch is None && fetched == before.bus,
        before.state.pc % 4 == 0 ==> replies.fetch is Some && before.bus.model().read_to(
            before.state.pc,
            Width::Word,
            replies.fetch->0,
            fetched.model(),
        ),
        !(replies.fetch matches Some(Ok(_))) ==> executed == fetched && after.bus == fetched,
        replies.fetch matches Some(Ok(raw)) ==> {
            let addr = on(
                before.state.gpr[raw as int / 0x8000 % 0x20],
                if raw % 0x80 == 0x03 {
                    raw as int / 0x10_0000
                } else {
                    (raw as int / 0x200_0000) * 0x20 + raw as int / 0x80 % 0x20
                } - if raw >= 0x8000_0000 {
                    0x1000int
                } else {
                    0
                },
            );
            let f3 = raw as int / 0x1000 % 8;
            let width = if access_size(f3) == 1 {
                Width::Byte
            } else if access_size(f3) == 2 {
                Width::Half
            } else {
                Width::Word
            };
            let strb: u8 = if access_size(f3) == 1 {
                0x1
            } else if access_size(f3) == 2 {
                0x3
            } else {
                0xF
            };
            let aligned = addr % access_size(f3) == 0;
            &&& raw % 0x80 == 0x03 && aligned ==> replies.load is Some && fetched.model().read_to(
                addr as u32,
                width,
                replies.load->0,
                executed.model(),
            )
            &&& raw % 0x80 != 0x03 || !aligned ==> replies.load is None && executed == fetched
            &&& raw % 0x80 == 0x23 && aligned && interrupt(before.state.csrs) == 0
                ==> replies.store is Some && executed.model().written_to(
                addr as u32,
                width,
                before.state.gpr[raw as int / 0x10_0000 % 0x20],
                strb,
                replies.store->0,
                after.bus.model(),
            )
            &&& raw % 0x80 != 0x23 || !aligned || interrupt(before.state.csrs) != 0
                ==> replies.store is None && after.bus == executed
        },
{
    lemma_interrupt(before.state.csrs);
    if let Some(Ok(raw)) = replies.fetch {
        lemma_access(raw, before.state.pc, before.state.gpr);
    }
}

/// The sign of an immediate is the top bit of its word.
proof fn lemma_sign(raw: u32)
    ensures
        ({
            let below = if raw >= 0x8000_0000 {
                0x1000int
            } else {
                0
            };
            &&& crate::decode::imm_i_of(raw) == (raw as int / 0x10_0000 - below) % 0x1_0000_0000
            &&& crate::decode::imm_s_of(raw) == ((raw as int / 0x200_0000) * 0x20 + raw as int
                / 0x80 % 0x20 - below) % 0x1_0000_0000
        }),
{
    let top = raw as int / 0x10_0000;
    let high = raw as int / 0x200_0000;
    let low = raw as int / 0x80 % 0x20;
    assert(top >= 0x800 <==> raw >= 0x8000_0000);
    assert(high >= 0x40 <==> raw >= 0x8000_0000);
    assert(0 <= low < 0x20 && 0 <= high < 0x80 && 0 <= top < 0x1000);
    if raw >= 0x8000_0000 {
        lemma_split(top - 0x1000, 0x1_0000_0000, -1, top - 0x1000 + 0x1_0000_0000);
        let v = high * 0x20 + low;
        lemma_split(v - 0x1000, 0x1_0000_0000, -1, v - 0x1000 + 0x1_0000_0000);
    }
}

/// Adding a number or its word gives the same address.
proof fn lemma_on(a: u32, n: int)
    ensures
        crate::word::wrap(a + (n % 0x1_0000_0000)) == on(a, n),
{
    vstd::arithmetic::div_mod::lemma_add_mod_noop_right(a as int, n, 0x1_0000_0000);
}

/// The address of a load or store.
proof fn lemma_access(raw: u32, pc: u32, gpr: Seq<u32>)
    ensures
        ({
            let below = if raw >= 0x8000_0000 {
                0x1000int
            } else {
                0
            };
            let out = crate::execute::alu_output(crate::decode::decoded(raw, pc, gpr));
            let base = gpr[raw as int / 0x8000 % 0x20];
            &&& raw % 0x80 == 0x03 ==> out == on(base, raw as int / 0x10_0000 - below)
            &&& raw % 0x80 == 0x23 ==> out == on(
                base,
                (raw as int / 0x200_0000) * 0x20 + raw as int / 0x80 % 0x20 - below,
            )
        }),
{
    let below = if raw >= 0x8000_0000 {
        0x1000int
    } else {
        0
    };
    let base = gpr[raw as int / 0x8000 % 0x20];
    lemma_sign(raw);
    lemma_on(base, raw as int / 0x10_0000 - below);
    lemma_on(base, (raw as int / 0x200_0000) * 0x20 + raw as int / 0x80 % 0x20 - below);
}

/// The uop that a word starts from, and that an illegal one decodes to: a NOP that is
/// marked illegal and names no register.
pub proof fn law_illegal_words_decode(raw: u32, pc: u32, gpr: Seq<u32>)
    ensures
        ({
            let u = Uop::shell(pc);
            &&& u.pc == pc && u.illegal
            &&& u.rs1 == 0 && u.rs2 == 0 && u.rd == 0
            &&& u.rs1_val == 0 && u.rs2_val == 0 && u.imm == 0
            &&& u.alu_src1 is Rs1 && u.alu_src2 is Rs2 && u.alu_op is Add
            &&& u.mem is None && u.branch is None && u.rd_source is Skip && u.system is NotSystem
        }),
        ({
            let op = raw % 0x80;
            &&& op != 0x33 && op != 0x13 && op != 0x03 && op != 0x23 && op != 0x63 && op != 0x6F
            &&& op != 0x67 && op != 0x17 && op != 0x37 && op != 0x0F && op != 0x73
        }) ==> crate::decode::decoded(raw, pc, gpr) == Uop::shell(pc),
        raw % 0x80 == 0x0F ==> crate::decode::decoded(raw, pc, gpr) == (Uop {
            illegal: raw as int / 0x1000 % 8 != 0,
            ..Uop::shell(pc)
        }),
{
}

/// Over any bus, what a step makes of the bus's answers. Whatever the error, a refused
/// fetch, load or store halts the step, with the code of the access, and leaves registers
/// and CSRs as they are. A load delivers what the bus answered: its low byte or halfword
/// with the top bit repeated for `LB` and `LH`, and the answer itself for the others. A
/// store that is not refused retires.
#[verifier::spinoff_prover]
#[verifier::rlimit(40)]
pub proof fn law_bus_answers<B: Bus>(
    before: CoreModel<B>,
    replies: Replies,
    fetched: B,
    executed: B,
    packet: CommitPacket,
    after: CoreModel<B>,
)
    requires
        crate::hart::step_with(before, replies, fetched, executed, packet, after),
        before.state.gpr.len() == 32,
    ensures
        replies.fetch matches Some(Err(_)) ==> packet.halt == Some(
            HaltEvent { kind: HaltKind::BusErrorIf, exit_code: 131 },
        ) && after.state == before.state,
        replies.load matches Some(Err(_)) ==> packet.halt == Some(
            HaltEvent { kind: HaltKind::BusErrorLd, exit_code: 132 },
        ) && after.state == before.state,
        replies.store matches Some(Err(_)) ==> packet.halt == Some(
            HaltEvent { kind: HaltKind::BusErrorSt, exit_code: 133 },
        ) && after.state == before.state,
        replies.store matches Some(Ok(_)) ==> packet.halt is None && packet.trap is None
            && packet.store is Some && after.state == (crate::arch::ArchModel {
            pc: on(before.state.pc, 4) as u32,
            ..before.state
        }),
        replies.load matches Some(Ok(v)) ==> (interrupt(before.state.csrs) == 0 ==> {
            let raw = replies.fetch->0->Ok_0 as int;
            let f3 = raw / 0x1000 % 8;
            let rd = raw / 0x80 % 0x20;
            let low = if f3 == 0 {
                v as int % 0x100
            } else if f3 == 1 {
                v as int % 0x1_0000
            } else {
                v as int
            };
            let value = if f3 == 0 && low >= 0x80 {
                low + 0xFFFF_FF00
            } else if f3 == 1 && low >= 0x8000 {
                low + 0xFFFF_0000
            } else {
                low
            };
            &&& packet.halt is None && packet.trap is None && packet.store is None
            &&& packet.rd == rd
            &&& rd != 0 ==> packet.rd_value == value && after.state.gpr[rd] == value
            &&& after.state.pc == on(before.state.pc, 4)
            &&& after.state.csrs == before.state.csrs
        }),
{
    lemma_interrupt(before.state.csrs);
}

} // verus!

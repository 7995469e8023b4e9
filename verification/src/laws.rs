//! Laws of the step FSM: what holds of every step, and of every run, whatever the
//! program and the bus.

use vstd::prelude::*;

use crate::arch::ArchModel;
use crate::bus::{AxiResp, Bus, RamBus, RamModel, Width};
use crate::csr::CsrModel;
use crate::decode::MemOp;
use crate::execute::{Staging, StoreReq};
use crate::hart::{CoreModel, Replies};
use crate::packet::{CommitPacket, CsrSnapshot, HaltEvent, HaltKind};

verus! {

/// What reset establishes and every step keeps: 32 registers of which `x0` is
/// zero, a word-aligned PC, and CSRs whose code addresses are word-aligned.
pub open spec fn sound(state: ArchModel) -> bool {
    &&& state.gpr.len() == 32
    &&& state.gpr[0] == 0
    &&& state.pc % 4 == 0
    &&& state.csrs.wf()
}

/// Whether an interrupt is taken in this state: one is pending and enabled, and
/// interrupts are globally enabled.
pub open spec fn interrupted(state: ArchModel) -> bool {
    state.csrs.mie && crate::hart::interrupt_cause(state.csrs) != 0
}

/// Whether the step that starts in `before` starts at the first instruction of the
/// handler that the previous step trapped to.
pub open spec fn entering_handler<B>(before: CoreModel<B>) -> bool {
    before.trapped && before.state.pc == before.state.csrs.mtvec
}

/// Every step keeps the state sound, and reset is sound.
pub proof fn law_step_keeps_state_sound<B: Bus>(
    before: CoreModel<B>,
    packet: CommitPacket,
    after: CoreModel<B>,
)
    requires
        sound(before.state),
        crate::hart::steps(before, packet, after),
    ensures
        sound(after.state),
        sound(ArchModel::reset()),
{
    reveal(crate::hart::steps);
}

/// Every state of a run from a sound state is sound.
pub proof fn law_run_keeps_state_sound<B: Bus>(
    before: CoreModel<B>,
    packets: Seq<CommitPacket>,
    states: Seq<CoreModel<B>>,
    i: int,
)
    requires
        sound(before.state),
        crate::hart::runs(before, packets, states),
        0 <= i < states.len(),
    ensures
        sound(states[i].state),
    decreases i,
{
    if i > 0 {
        law_run_keeps_state_sound(before, packets, states, i - 1);
        assert(crate::hart::steps(states[i - 1], packets[i - 1], states[i - 1 + 1]));
        law_step_keeps_state_sound(states[i - 1], packets[i - 1], states[i]);
    }
}

/// The packet is the step's footprint: it carries the PC that the step started at
/// and the CSRs that the step left, it names the one register that changed and
/// its new value, and it reports at most one of a halt, a trap entry and a store.
pub proof fn law_packet_is_the_footprint<B: Bus>(
    before: CoreModel<B>,
    packet: CommitPacket,
    after: CoreModel<B>,
    i: int,
)
    requires
        before.state.gpr.len() == 32,
        crate::hart::steps(before, packet, after),
        0 <= i < 32,
    ensures
        packet.pc == before.state.pc,
        packet.csr_snapshot == CsrSnapshot::of(after.state.csrs),
        after.state.gpr[i] == if packet.rd != 0 && i == packet.rd {
            packet.rd_value
        } else {
            before.state.gpr[i]
        },
        packet.halt is Some ==> packet.trap is None && packet.store is None && packet.rd == 0,
        packet.trap is Some ==> packet.halt is None && packet.store is None && packet.rd == 0,
        packet.store is Some ==> packet.halt is None && packet.trap is None && packet.rd == 0,
        after.trapped == packet.trap is Some,
{
    reveal(crate::hart::steps);
}

/// A halting step changes no register, no CSR and not the PC, and its exit code is
/// that of its kind.
pub proof fn law_halt_changes_nothing<B: Bus>(
    before: CoreModel<B>,
    packet: CommitPacket,
    after: CoreModel<B>,
)
    requires
        crate::hart::steps(before, packet, after),
        packet.halt is Some,
    ensures
        after.state == before.state,
        packet.halt->0.exit_code == packet.halt->0.kind.code(),
        !after.trapped,
{
    reveal(crate::hart::steps);
}

/// A trap bypasses Commit: no register is written and no store retires. The step
/// only runs the trap-entry microsequence, which leaves the PC at the handler, the
/// address of the un-retired instruction in `mepc`, and interrupts disabled.
pub proof fn law_trap_bypasses_commit<B: Bus>(
    before: CoreModel<B>,
    packet: CommitPacket,
    after: CoreModel<B>,
)
    requires
        crate::hart::steps(before, packet, after),
        packet.trap is Some,
    ensures
        after.state == (ArchModel {
            pc: before.state.csrs.mtvec,
            csrs: before.state.csrs.trapped(packet.trap->0.cause, before.state.pc, 0),
            ..before.state
        }),
        packet.trap->0.mepc == before.state.pc,
        packet.trap->0.mtval == 0,
        after.state.csrs.mepc == before.state.pc,
        !after.state.csrs.mie,
        after.state.csrs.mpie == before.state.csrs.mie,
        packet.store is None,
        packet.rd == 0,
{
    reveal(crate::hart::steps);
}

/// A taken interrupt wins over whatever the instruction staged, an `ECALL` among
/// it: unless the step halts it traps, with the cause of the pending source that
/// comes first in the order external, software, timer. Without one, the only trap
/// is that of an `ECALL`.
pub proof fn law_interrupts_come_first<B: Bus>(
    before: CoreModel<B>,
    packet: CommitPacket,
    after: CoreModel<B>,
)
    requires
        crate::hart::steps(before, packet, after),
        packet.halt is None,
    ensures
        interrupted(before.state) ==> packet.trap is Some && packet.trap->0.cause == 0x8000_0000
            + crate::hart::interrupt_cause(before.state.csrs),
        !interrupted(before.state) && packet.trap is Some ==> packet.trap->0.cause == 11,
{
    reveal(crate::hart::steps);
}

/// A trap on the first instruction of the handler that the previous step trapped
/// to does not enter the handler again: it halts as a double trap, and nothing
/// else does.
pub proof fn law_double_trap<B: Bus>(
    before: CoreModel<B>,
    packet: CommitPacket,
    after: CoreModel<B>,
)
    requires
        crate::hart::steps(before, packet, after),
    ensures
        entering_handler(before) ==> packet.trap is None,
        entering_handler(before) && interrupted(before.state) ==> packet.halt is Some,
        packet.halt == Some(HaltEvent::of(HaltKind::DoubleTrap)) ==> entering_handler(before),
{
    reveal(crate::hart::steps);
}

/// A misaligned PC halts without a single bus access.
pub proof fn law_misaligned_pc_halts<B: Bus>(
    before: CoreModel<B>,
    packet: CommitPacket,
    after: CoreModel<B>,
)
    requires
        crate::hart::steps(before, packet, after),
        before.state.pc % 4 != 0,
    ensures
        packet.halt == Some(HaltEvent::of(HaltKind::MisalignPc)),
        after.bus == before.bus,
{
    reveal(crate::hart::steps);
}

/// Only a retired or refused store writes the bus: a reported store was answered
/// by the bus, under the full byte enable of its width, and a refused one halts.
pub proof fn law_store_reaches_the_bus<B: Bus>(
    before: CoreModel<B>,
    replies: Replies,
    fetched: B,
    executed: B,
    packet: CommitPacket,
    after: CoreModel<B>,
)
    requires
        crate::hart::step_with(before, replies, fetched, executed, packet, after),
    ensures
        packet.store is Some ==> replies.store matches Some(Ok(_)),
        packet.store matches Some(st) ==> exists|width: Width|
            st.strb == width.strobe() && width.aligned(st.addr)
                && #[trigger] executed.model().written_to(
                st.addr,
                width,
                st.data,
                st.strb,
                replies.store->0,
                after.bus.model(),
            ),
        replies.store is None ==> packet.store is None && after.bus == executed,
        replies.store matches Some(Err(_)) <==> packet.halt == Some(
            HaltEvent::of(HaltKind::BusErrorSt),
        ),
{
    if packet.store is Some {
        let st = packet.store->0;
        let req = crate::hart::front_end(before.state, replies.fetch, replies.load)->Ok_0.store->0;
        assert(executed.model().written_to(
            st.addr,
            req.width,
            st.data,
            st.strb,
            replies.store->0,
            after.bus.model(),
        ));
    }
}

/// A RAM's answer to a read.
pub open spec fn ram_reply(ram: RamModel, addr: u32, width: Width) -> Result<u32, AxiResp> {
    if ram.covers(addr, width) {
        Ok(ram.value_at(addr, width))
    } else {
        Err(AxiResp::DecErr)
    }
}

/// A RAM's answer to the fetch of a step.
pub open spec fn ram_fetch(state: ArchModel, ram: RamModel) -> Option<Result<u32, AxiResp>> {
    if state.pc % 4 == 0 {
        Some(ram_reply(ram, state.pc, Width::Word))
    } else {
        None
    }
}

/// A RAM's answer to the load of a step, if the fetched instruction makes one.
pub open spec fn ram_load(state: ArchModel, ram: RamModel) -> Option<Result<u32, AxiResp>> {
    match ram_fetch(state, ram) {
        Some(Ok(raw)) => match crate::execute::load_request(
            crate::decode::decoded(raw, state.pc, state.gpr),
        ) {
            Some((addr, width)) => Some(ram_reply(ram, addr, width)),
            None => None,
        },
        _ => None,
    }
}

/// What fetch, decode and execute stage over a RAM.
pub open spec fn ram_staged(state: ArchModel, ram: RamModel) -> Result<Staging, HaltKind> {
    crate::hart::front_end(state, ram_fetch(state, ram), ram_load(state, ram))
}

/// A RAM's answer to a store request, and the RAM after it.
pub open spec fn ram_store(request: Option<StoreReq>, ram: RamModel) -> (
    Option<Result<(), AxiResp>>,
    RamModel,
) {
    match request {
        Some(req) => if ram.covers(req.addr, req.width) {
            (Some(Ok(())), ram.with_value(req.addr, req.width, req.data, req.strb))
        } else {
            (Some(Err(AxiResp::DecErr)), ram)
        },
        None => (None, ram),
    }
}

/// A step over a RAM: registers, packet and memory afterwards as a function of
/// registers, trap flag and memory before.
pub open spec fn ram_step(state: ArchModel, trapped: bool, ram: RamModel) -> (
    ArchModel,
    CommitPacket,
    RamModel,
) {
    let staged = ram_staged(state, ram);
    let (reply, memory) = ram_store(crate::hart::store_request(state.csrs, staged), ram);
    let entering = trapped && state.pc == state.csrs.mtvec;
    let (after, effects) = crate::hart::settled(state, entering, staged, reply);
    (after, CommitPacket { csr_snapshot: CsrSnapshot::of(after.csrs), ..effects }, memory)
}

/// What a [`RamBus`] answers to the accesses of a step.
proof fn lemma_ram_accesses(
    before: CoreModel<RamBus>,
    replies: Replies,
    fetched: RamBus,
    executed: RamBus,
    packet: CommitPacket,
    after: CoreModel<RamBus>,
)
    requires
        crate::hart::step_with(before, replies, fetched, executed, packet, after),
    ensures
        replies.fetch == ram_fetch(before.state, before.bus@),
        replies.load == ram_load(before.state, before.bus@),
        (replies.store, after.bus@) == ram_store(
            crate::hart::store_request(before.state.csrs, ram_staged(before.state, before.bus@)),
            before.bus@,
        ),
{
    let staged = crate::hart::front_end(before.state, replies.fetch, replies.load);
    if before.state.pc % 4 == 0 {
        crate::bus::law_ram_read(
            before.bus,
            before.state.pc,
            Width::Word,
            replies.fetch->0,
            fetched,
        );
    }
    if let Some(Ok(raw)) = replies.fetch {
        let uop = crate::decode::decoded(raw, before.state.pc, before.state.gpr);
        if let Some((addr, width)) = crate::execute::load_request(uop) {
            crate::bus::law_ram_read(fetched, addr, width, replies.load->0, executed);
        }
    }
    if let Some(req) = crate::hart::store_request(before.state.csrs, staged) {
        crate::bus::law_ram_write(
            executed,
            req.addr,
            req.width,
            req.data,
            req.strb,
            replies.store->0,
            after.bus,
        );
    }
}

/// Over a [`RamBus`] a step is a function: it does what [`ram_step`] says.
pub proof fn law_ram_step_is_a_function(
    before: CoreModel<RamBus>,
    packet: CommitPacket,
    after: CoreModel<RamBus>,
)
    requires
        crate::hart::steps(before, packet, after),
    ensures
        (after.state, packet, after.bus@) == ram_step(before.state, before.trapped, before.bus@),
        after.trapped == packet.trap is Some,
{
    reveal(crate::hart::steps);
    let (replies, fetched, executed) = choose|replies: Replies, fetched: RamBus, executed: RamBus|
     #[trigger]
        crate::hart::step_with(before, replies, fetched, executed, packet, after);
    lemma_ram_accesses(before, replies, fetched, executed, packet, after);
}

/// Over a [`RamBus`] the packet tells the whole effect on memory: a reported store
/// is in memory, where a load of its width finds its low bytes, and without one
/// memory is as it was.
pub proof fn law_ram_store_is_visible(
    before: CoreModel<RamBus>,
    packet: CommitPacket,
    after: CoreModel<RamBus>,
)
    requires
        crate::hart::steps(before, packet, after),
    ensures
        packet.store is None ==> after.bus@ == before.bus@,
        packet.store matches Some(st) ==> exists|width: Width|
            before.bus@.covers(st.addr, width) && st.strb == width.strobe() && after.bus@
                == #[trigger] before.bus@.with_value(st.addr, width, st.data, st.strb)
                && after.bus@.value_at(st.addr, width) == match width {
                Width::Byte => st.data % 0x100,
                Width::Half => st.data % 0x1_0000,
                Width::Word => st.data,
            },
{
    reveal(crate::hart::steps);
    let (replies, fetched, executed) = choose|replies: Replies, fetched: RamBus, executed: RamBus|
     #[trigger]
        crate::hart::step_with(before, replies, fetched, executed, packet, after);
    lemma_ram_accesses(before, replies, fetched, executed, packet, after);
    if packet.store is Some {
        let st = packet.store->0;
        let req = crate::hart::front_end(before.state, replies.fetch, replies.load)->Ok_0.store->0;
        let w = req.width;
        crate::bus::law_load_after_store(
            before.bus@.mem,
            st.addr - before.bus@.base,
            w,
            st.data,
            st.addr - before.bus@.base,
            w,
        );
        assert(after.bus@ == before.bus@.with_value(st.addr, w, st.data, st.strb));
    }
}

/// Over a [`RamBus`] a step is a function of registers, memory and the trap flag:
/// equal cores emit equal packets and stay equal.
pub proof fn law_ram_step_is_deterministic(
    before1: CoreModel<RamBus>,
    packet1: CommitPacket,
    after1: CoreModel<RamBus>,
    before2: CoreModel<RamBus>,
    packet2: CommitPacket,
    after2: CoreModel<RamBus>,
)
    requires
        before1.state == before2.state,
        before1.bus@ == before2.bus@,
        before1.trapped == before2.trapped,
        crate::hart::steps(before1, packet1, after1),
        crate::hart::steps(before2, packet2, after2),
    ensures
        packet1 == packet2,
        after1.state == after2.state,
        after1.bus@ == after2.bus@,
        after1.trapped == after2.trapped,
{
    law_ram_step_is_a_function(before1, packet1, after1);
    law_ram_step_is_a_function(before2, packet2, after2);
}

/// Over a [`RamBus`] runs of equal length from equal cores emit the same packets.
pub proof fn law_ram_run_is_deterministic(
    before1: CoreModel<RamBus>,
    packets1: Seq<CommitPacket>,
    states1: Seq<CoreModel<RamBus>>,
    before2: CoreModel<RamBus>,
    packets2: Seq<CommitPacket>,
    states2: Seq<CoreModel<RamBus>>,
)
    requires
        before1.state == before2.state,
        before1.bus@ == before2.bus@,
        before1.trapped == before2.trapped,
        crate::hart::runs(before1, packets1, states1),
        crate::hart::runs(before2, packets2, states2),
        packets1.len() == packets2.len(),
    ensures
        packets1 == packets2,
        states1.last().state == states2.last().state,
        states1.last().bus@ == states2.last().bus@,
        states1.last().trapped == states2.last().trapped,
    decreases packets1.len(),
{
    if packets1.len() > 0 {
        let n = packets1.len() - 1;
        let p1 = packets1.drop_last();
        let p2 = packets2.drop_last();
        let s1 = states1.drop_last();
        let s2 = states2.drop_last();
        assert forall|i: int| 0 <= i < p1.len() implies crate::hart::steps(
            s1[i],
            #[trigger] p1[i],
            s1[i + 1],
        ) by {
            assert(p1[i] == packets1[i]);
        }
        assert forall|i: int| 0 <= i < p2.len() implies crate::hart::steps(
            s2[i],
            #[trigger] p2[i],
            s2[i + 1],
        ) by {
            assert(p2[i] == packets2[i]);
        }
        law_ram_run_is_deterministic(before1, p1, s1, before2, p2, s2);
        assert(crate::hart::steps(states1[n], packets1[n], states1[n + 1]));
        assert(crate::hart::steps(states2[n], packets2[n], states2[n + 1]));
        law_ram_step_is_deterministic(
            states1[n],
            packets1[n],
            states1[n + 1],
            states2[n],
            packets2[n],
            states2[n + 1],
        );
        assert(packets1 =~= p1.push(packets1[n]));
        assert(packets2 =~= p2.push(packets2[n]));
    }
}

/// Over a [`RamBus`] the run to the first halt is unique: two runs from equal cores
/// that end with their first halt emit the same packets, and so the same halt.
pub proof fn law_ram_halting_run_is_unique(
    before1: CoreModel<RamBus>,
    packets1: Seq<CommitPacket>,
    states1: Seq<CoreModel<RamBus>>,
    before2: CoreModel<RamBus>,
    packets2: Seq<CommitPacket>,
    states2: Seq<CoreModel<RamBus>>,
)
    requires
        before1.state == before2.state,
        before1.bus@ == before2.bus@,
        before1.trapped == before2.trapped,
        crate::hart::runs(before1, packets1, states1),
        crate::hart::runs(before2, packets2, states2),
        ends_with_first_halt(packets1),
        ends_with_first_halt(packets2),
    ensures
        packets1 == packets2,
{
    if packets1.len() <= packets2.len() {
        lemma_shorter_run_is_prefix(before1, packets1, states1, before2, packets2, states2);
    } else {
        lemma_shorter_run_is_prefix(before2, packets2, states2, before1, packets1, states1);
    }
}

/// Whether the last of `packets`, and no earlier one, reports a halt.
pub open spec fn ends_with_first_halt(packets: Seq<CommitPacket>) -> bool {
    packets.len() > 0 && packets.last().halt is Some && crate::hart::no_halt(packets.drop_last())
}

/// The shorter of two such runs ends where the longer one does.
proof fn lemma_shorter_run_is_prefix(
    before1: CoreModel<RamBus>,
    packets1: Seq<CommitPacket>,
    states1: Seq<CoreModel<RamBus>>,
    before2: CoreModel<RamBus>,
    packets2: Seq<CommitPacket>,
    states2: Seq<CoreModel<RamBus>>,
)
    requires
        before1.state == before2.state,
        before1.bus@ == before2.bus@,
        before1.trapped == before2.trapped,
        crate::hart::runs(before1, packets1, states1),
        crate::hart::runs(before2, packets2, states2),
        ends_with_first_halt(packets1),
        ends_with_first_halt(packets2),
        packets1.len() <= packets2.len(),
    ensures
        packets1 == packets2,
{
    let n = packets1.len() as int;
    let start = packets2.take(n);
    let passed = states2.take(n + 1);
    assert forall|i: int| 0 <= i < start.len() implies crate::hart::steps(
        passed[i],
        #[trigger] start[i],
        passed[i + 1],
    ) by {
        assert(start[i] == packets2[i]);
    }
    law_ram_run_is_deterministic(before1, packets1, states1, before2, start, passed);
    if n < packets2.len() {
        assert(packets2.drop_last()[n - 1] == start[n - 1]);
    } else {
        assert(start =~= packets2);
    }
}

/// `EBREAK` halts with the low byte of `a0` as exit code, pending interrupts or
/// not.
pub proof fn law_ebreak_exits_with_a0<B: Bus>(
    before: CoreModel<B>,
    replies: Replies,
    fetched: B,
    executed: B,
    packet: CommitPacket,
    after: CoreModel<B>,
)
    requires
        crate::hart::step_with(before, replies, fetched, executed, packet, after),
        replies.fetch == Some(Ok::<u32, AxiResp>(0x0010_0073)),
    ensures
        packet.halt == Some(
            HaltEvent::of(HaltKind::Voluntary { a0: (before.state.gpr[10] % 0x100) as u8 }),
        ),
        packet.halt->0.exit_code == before.state.gpr[10] % 0x100,
{
}

/// A core over a [`RamBus`] whose next instruction is `EBREAK` halts in one step.
pub proof fn law_ram_ebreak_halts(before: CoreModel<RamBus>)
    requires
        before.state.pc % 4 == 0,
        before.bus@.covers(before.state.pc, Width::Word),
        before.bus@.value_at(before.state.pc, Width::Word) == 0x0010_0073,
    ensures
        crate::hart::halts_within(before, 1),
{
    reveal(crate::hart::steps);
    assert forall|packet: CommitPacket, after: CoreModel<RamBus>| #[trigger]
        crate::hart::steps(before, packet, after) implies packet.halt is Some by {
        let (r, f, e) = choose|r: Replies, f: RamBus, e: RamBus| #[trigger]
            crate::hart::step_with(before, r, f, e, packet, after);
        lemma_ram_accesses(before, r, f, e, packet, after);
        law_ebreak_exits_with_a0(before, r, f, e, packet, after);
    }
}

/// `ECALL` without an interrupt enters the handler with cause 11, or halts as a
/// double trap if it is itself the handler's first instruction.
pub proof fn law_ecall_traps<B: Bus>(
    before: CoreModel<B>,
    replies: Replies,
    fetched: B,
    executed: B,
    packet: CommitPacket,
    after: CoreModel<B>,
)
    requires
        crate::hart::step_with(before, replies, fetched, executed, packet, after),
        replies.fetch == Some(Ok::<u32, AxiResp>(0x0000_0073)),
        !interrupted(before.state),
    ensures
        !entering_handler(before) ==> packet.trap is Some && packet.trap->0.cause == 11,
        entering_handler(before) ==> packet.halt == Some(HaltEvent::of(HaltKind::DoubleTrap)),
{
}

/// `MRET` without an interrupt goes to `mepc` and restores `MIE` from `MPIE`.
pub proof fn law_mret_returns<B: Bus>(
    before: CoreModel<B>,
    replies: Replies,
    fetched: B,
    executed: B,
    packet: CommitPacket,
    after: CoreModel<B>,
)
    requires
        crate::hart::step_with(before, replies, fetched, executed, packet, after),
        replies.fetch == Some(Ok::<u32, AxiResp>(0x3020_0073)),
        !interrupted(before.state),
    ensures
        packet.halt is None && packet.trap is None && packet.store is None && packet.rd == 0,
        after.state == (ArchModel {
            pc: before.state.csrs.mepc,
            csrs: before.state.csrs.returned(),
            ..before.state
        }),
{
}

/// A trap and an `MRET` as the handler's first instruction bring the hart back to
/// the instruction that trapped, with the registers and the interrupt enable that
/// it had.
pub proof fn law_trap_and_mret_come_back<B: Bus>(
    before: CoreModel<B>,
    trap: CommitPacket,
    middle: CoreModel<B>,
    replies: Replies,
    fetched: B,
    executed: B,
    packet: CommitPacket,
    after: CoreModel<B>,
)
    requires
        crate::hart::steps(before, trap, middle),
        trap.trap is Some,
        crate::hart::step_with(middle, replies, fetched, executed, packet, after),
        replies.fetch == Some(Ok::<u32, AxiResp>(0x3020_0073)),
    ensures
        packet.halt is None && packet.trap is None,
        after.state.pc == before.state.pc,
        after.state.gpr == before.state.gpr,
        after.state.csrs.mie == before.state.csrs.mie,
        !after.trapped,
{
    law_trap_bypasses_commit(before, trap, middle);
    law_mret_returns(middle, replies, fetched, executed, packet, after);
}

/// `FENCE` and `WFI` without an interrupt only advance the PC.
pub proof fn law_fence_and_wfi_are_nops<B: Bus>(
    before: CoreModel<B>,
    replies: Replies,
    fetched: B,
    executed: B,
    packet: CommitPacket,
    after: CoreModel<B>,
    raw: u32,
)
    requires
        crate::hart::step_with(before, replies, fetched, executed, packet, after),
        replies.fetch == Some(Ok::<u32, AxiResp>(raw)),
        raw == 0x1050_0073 || crate::decode::opcode_of(raw) == 0x0F && crate::decode::funct3_of(raw)
            == 0,
        !interrupted(before.state),
    ensures
        after.state == (ArchModel { pc: crate::word::wrap(before.state.pc + 4), ..before.state }),
        after.bus == fetched,
        packet == (CommitPacket {
            csr_snapshot: CsrSnapshot::of(before.state.csrs),
            ..CommitPacket::blank(before.state.pc)
        }),
{
}

/// A Zicsr instruction without an interrupt reads and writes its CSR in one step:
/// `rd` gets the old value, the CSR the combined one. It is illegal if the CSR is
/// unknown, or read-only and to be written.
pub proof fn law_zicsr_swaps<B: Bus>(
    before: CoreModel<B>,
    replies: Replies,
    fetched: B,
    executed: B,
    packet: CommitPacket,
    after: CoreModel<B>,
    raw: u32,
)
    requires
        crate::hart::step_with(before, replies, fetched, executed, packet, after),
        replies.fetch == Some(Ok::<u32, AxiResp>(raw)),
        crate::decode::opcode_of(raw) == 0x73,
        crate::decode::funct3_of(raw) % 4 != 0,
        !interrupted(before.state),
    ensures
        ({
            let addr = crate::decode::funct12_of(raw) as u16;
            let slot = crate::decode::rs1_of(raw);
            let op = crate::decode::csr_op_of(crate::decode::funct3_of(raw)).file_op();
            let source = if crate::decode::funct3_of(raw) >= 5 {
                slot
            } else {
                before.state.gpr[slot as int]
            };
            let writes = op is Rw || slot != 0;
            let legal = CsrModel::recognised(addr) && (writes ==> CsrModel::writable(addr));
            let old_value = before.state.csrs.read(addr)->0;
            &&& legal ==> {
                &&& packet.halt is None && packet.trap is None
                &&& packet.rd == crate::decode::rd_of(raw)
                &&& packet.rd != 0 ==> packet.rd_value == old_value
                &&& after.state.pc == crate::word::wrap(before.state.pc + 4)
                &&& after.state.csrs == if writes {
                    before.state.csrs.write(addr, op.combine(old_value, source))
                } else {
                    before.state.csrs
                }
            }
            &&& !legal ==> packet.halt == Some(HaltEvent::of(HaltKind::Illegal))
        }),
{
}

/// A jump without an interrupt links the address of the next instruction and goes
/// to its target with bit 0 cleared; a target that is then not word-aligned halts.
pub proof fn law_jumps_link<B: Bus>(
    before: CoreModel<B>,
    replies: Replies,
    fetched: B,
    executed: B,
    packet: CommitPacket,
    after: CoreModel<B>,
    raw: u32,
)
    requires
        crate::hart::step_with(before, replies, fetched, executed, packet, after),
        replies.fetch == Some(Ok::<u32, AxiResp>(raw)),
        crate::decode::opcode_of(raw) == 0x6F || crate::decode::opcode_of(raw) == 0x67,
        !interrupted(before.state),
    ensures
        ({
            let sum = if crate::decode::opcode_of(raw) == 0x6F {
                crate::word::wrap(before.state.pc + crate::decode::imm_j_of(raw))
            } else {
                crate::word::wrap(
                    before.state.gpr[crate::decode::rs1_of(raw) as int] + crate::decode::imm_i_of(
                        raw,
                    ),
                )
            };
            let target = sum - sum % 2;
            &&& target % 4 == 0 ==> {
                &&& packet.halt is None
                &&& after.state.pc == target
                &&& packet.rd == crate::decode::rd_of(raw)
                &&& packet.rd != 0 ==> packet.rd_value == crate::word::wrap(before.state.pc + 4)
            }
            &&& target % 4 != 0 ==> packet.halt == Some(HaltEvent::of(HaltKind::MisalignPc))
        }),
{
}

/// A branch without an interrupt writes nothing but the PC, which goes to the
/// target if the condition holds and on to the next instruction if not.
pub proof fn law_branches_only_move_the_pc<B: Bus>(
    before: CoreModel<B>,
    replies: Replies,
    fetched: B,
    executed: B,
    packet: CommitPacket,
    after: CoreModel<B>,
    raw: u32,
)
    requires
        crate::hart::step_with(before, replies, fetched, executed, packet, after),
        replies.fetch == Some(Ok::<u32, AxiResp>(raw)),
        crate::decode::opcode_of(raw) == 0x63,
        !interrupted(before.state),
        packet.halt is None,
    ensures
        ({
            let condition = crate::decode::branch_of(crate::decode::funct3_of(raw));
            &&& condition is Some
            &&& after.state == (ArchModel {
                pc: if condition->0.holds(
                    before.state.gpr[crate::decode::rs1_of(raw) as int],
                    before.state.gpr[crate::decode::rs2_of(raw) as int],
                ) {
                    crate::word::wrap(before.state.pc + crate::decode::imm_b_of(raw))
                } else {
                    crate::word::wrap(before.state.pc + 4)
                },
                ..before.state
            })
            &&& packet.rd == 0 && packet.store is None && packet.trap is None
        }),
{
}

/// Over a [`RamBus`] a load without an interrupt delivers what its address holds,
/// sign-extended for `LB` and `LH`, and halts if the address is misaligned or
/// outside memory.
pub proof fn law_ram_load_reads_memory(
    before: CoreModel<RamBus>,
    packet: CommitPacket,
    after: CoreModel<RamBus>,
    raw: u32,
)
    requires
        crate::hart::steps(before, packet, after),
        before.state.pc % 4 == 0,
        before.bus@.covers(before.state.pc, Width::Word),
        before.bus@.value_at(before.state.pc, Width::Word) == raw,
        crate::decode::opcode_of(raw) == 0x03,
        !interrupted(before.state),
    ensures
        ({
            let f3 = crate::decode::funct3_of(raw);
            let width = crate::decode::width_of(f3);
            let mem = MemOp { store: false, width, load_signext: f3 == 0 || f3 == 1 };
            let addr = crate::word::wrap(
                before.state.gpr[crate::decode::rs1_of(raw) as int] + crate::decode::imm_i_of(raw),
            );
            if !width.aligned(addr) {
                packet.halt == Some(HaltEvent::of(HaltKind::MisalignLd))
            } else if !before.bus@.covers(addr, width) {
                packet.halt == Some(HaltEvent::of(HaltKind::BusErrorLd))
            } else {
                &&& packet.halt is None
                &&& packet.rd == crate::decode::rd_of(raw)
                &&& packet.rd != 0 ==> packet.rd_value == crate::execute::extended(
                    before.bus@.value_at(addr, width),
                    mem,
                )
                &&& after.state.pc == crate::word::wrap(before.state.pc + 4)
            }
        }),
{
    reveal(crate::hart::steps);
    let (r, f, e) = choose|r: Replies, f: RamBus, e: RamBus| #[trigger]
        crate::hart::step_with(before, r, f, e, packet, after);
    lemma_ram_accesses(before, r, f, e, packet, after);
}

/// A run is a chain of steps: it starts at the core it is a run of, each step starts
/// where the one before it ended, and none but the last of a run to the first halt
/// reports a halt.
pub proof fn law_run_is_a_chain<B: Bus>(
    before: CoreModel<B>,
    packets: Seq<CommitPacket>,
    states: Seq<CoreModel<B>>,
    i: int,
)
    requires
        crate::hart::runs(before, packets, states),
        0 <= i < packets.len(),
    ensures
        states[0] == before,
        states.len() == packets.len() + 1,
        crate::hart::steps(states[i], packets[i], states[i + 1]),
        crate::hart::no_halt(packets) ==> packets[i].halt is None,
        crate::hart::no_halt(packets.drop_last()) && i < packets.len() - 1 ==> packets[i].halt
            is None,
{
    assert(crate::hart::steps(states[i], packets[i], states[i + 1]));
    if i < packets.len() - 1 {
        assert(packets.drop_last()[i] == packets[i]);
    }
}

/// `on_step` sees every packet of a run.
pub proof fn law_every_packet_is_observed<F: FnMut(&CommitPacket)>(
    on_step: F,
    packets: Seq<CommitPacket>,
    i: int,
)
    requires
        crate::hart::observed(on_step, packets),
        0 <= i < packets.len(),
    ensures
        call_ensures(on_step, (&packets[i],), ()),
{
}

/// A core that halts within a number of steps halts in the first one, or comes to a core
/// that halts within one step less; none halts within no step.
pub proof fn law_halting_counts_steps<B: Bus>(
    before: CoreModel<B>,
    packet: CommitPacket,
    after: CoreModel<B>,
    n: nat,
)
    requires
        crate::hart::halts_within(before, n),
        crate::hart::steps(before, packet, after),
    ensures
        n > 0,
        packet.halt is Some || crate::hart::halts_within(after, (n - 1) as nat),
{
}

} // verus!

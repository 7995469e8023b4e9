//! [`Core`]: the RV32I_Zicsr functional CPU model and its step FSM.
//!
//! One [`Core::step`] runs `Fetch -> Decode -> Execute -> [barrier] -> Commit`.
//! The barrier *between* Execute and Commit is the single trap insertion point:
//!
//! - **(a)** if an asynchronous interrupt is pending and enabled, take it
//!   (priority MEI > MSI > MTI); this wins over a staged `ECALL`;
//! - **(b)** else if Execute staged a synchronous trap (`ECALL`), take it;
//! - **(c)** else Commit applies the staging.
//!
//! A trap bypasses Commit entirely: all staged effects (GPR and CSR writes,
//! `MRET`, the store buffer, the PC advance) are discarded and only the trap-entry
//! microsequence runs (`mepc <- PC`, `PC <- mtvec.BASE`). Every step emits a
//! [`CommitPacket`], halt events among them.

use vstd::prelude::*;

use crate::arch::{ArchModel, ArchState};
use crate::bus::{AxiResp, Bus, Width};
use crate::csr::{CsrFile, CsrModel};
use crate::decode::decode;
use crate::execute::{execute, Action, Staging, StoreReq};
use crate::packet::{CommitPacket, CsrSnapshot, HaltEvent, HaltKind, StoreObserved, TrapEvent};

verus! {

/// A single RV32I_Zicsr hart wired to a [`Bus`].
///
/// Generic over the bus, so that [`step`](Self::step) has no dynamic dispatch; use
/// `Core<&mut dyn Bus>` where dynamic dispatch is needed.
pub struct Core<B: Bus> {
    state: ArchState,
    bus: B,
    /// Whether the previous step entered a trap; drives double-trap detection.
    last_step_entered_trap: bool,
}

/// What a [`Core`] holds.
pub struct CoreModel<B> {
    pub state: ArchModel,
    pub bus: B,
    /// Whether the previous step entered a trap.
    pub trapped: bool,
}

impl<B: Bus> View for Core<B> {
    type V = CoreModel<B>;

    closed spec fn view(&self) -> CoreModel<B> {
        CoreModel { state: self.state@, bus: self.bus, trapped: self.last_step_entered_trap }
    }
}

/// The bus's answers to the accesses of one step; `None` where the step makes no
/// such access.
pub struct Replies {
    pub fetch: Option<Result<u32, AxiResp>>,
    pub load: Option<Result<u32, AxiResp>>,
    pub store: Option<Result<(), AxiResp>>,
}

/// Whether `fetch` can be the answer to the instruction fetch at `pc`. A
/// misaligned `pc` is not fetched.
pub open spec fn fetch_performed<B: Bus>(
    pc: u32,
    before: B,
    fetch: Option<Result<u32, AxiResp>>,
    after: B,
) -> bool {
    if pc % 4 == 0 {
        fetch is Some && before.model().read_to(pc, Width::Word, fetch->0, after.model())
    } else {
        fetch is None && after == before
    }
}

/// Whether `load` can be the answer to the load, if any, of the fetched
/// instruction.
pub open spec fn data_read_performed<B: Bus>(
    state: ArchModel,
    fetch: Option<Result<u32, AxiResp>>,
    before: B,
    load: Option<Result<u32, AxiResp>>,
    after: B,
) -> bool {
    match fetch {
        Some(Ok(raw)) => crate::execute::load_performed(
            crate::decode::decoded(raw, state.pc, state.gpr),
            before,
            load,
            after,
        ),
        _ => load is None && after == before,
    }
}

/// Whether `store` can be the answer to the store `request`, if there is one.
pub open spec fn store_performed<B: Bus>(
    request: Option<StoreReq>,
    before: B,
    store: Option<Result<(), AxiResp>>,
    after: B,
) -> bool {
    match request {
        Some(req) => store is Some && before.model().written_to(
            req.addr,
            req.width,
            req.data,
            req.strb,
            store->0,
            after.model(),
        ),
        None => store is None && after == before,
    }
}

/// What fetch, decode and execute stage, or the fault that halts them.
pub open spec fn front_end(
    state: ArchModel,
    fetch: Option<Result<u32, AxiResp>>,
    load: Option<Result<u32, AxiResp>>,
) -> Result<Staging, HaltKind> {
    match fetch {
        None => Err(HaltKind::MisalignPc),
        Some(Err(_)) => Err(HaltKind::BusErrorIf),
        Some(Ok(raw)) => crate::execute::staged(
            state,
            crate::decode::decoded(raw, state.pc, state.gpr),
            load,
        ),
    }
}

/// The cause code of the highest-priority interrupt that is pending and enabled:
/// external (11) before software (3) before timer (7); 0 if there is none.
pub open spec fn interrupt_cause(csrs: CsrModel) -> u32 {
    if csrs.meip && csrs.meie {
        11
    } else if csrs.msip && csrs.msie {
        3
    } else if csrs.mtip && csrs.mtie {
        7
    } else {
        0
    }
}

/// The trap that the barrier takes, if any, as its `mcause`: an interrupt, which
/// has the top bit set, before a staged `ECALL`.
pub open spec fn trap_cause(csrs: CsrModel, stg: Staging) -> Option<u32> {
    if csrs.mie && interrupt_cause(csrs) != 0 {
        Some((0x8000_0000 + interrupt_cause(csrs)) as u32)
    } else {
        match stg.action {
            Action::SyncTrap { cause, .. } => Some(cause),
            _ => None,
        }
    }
}

/// The store that the barrier lets through to the bus.
pub open spec fn store_request(csrs: CsrModel, staged: Result<Staging, HaltKind>) -> Option<
    StoreReq,
> {
    match staged {
        Ok(stg) => if trap_cause(csrs, stg) is None {
            stg.store
        } else {
            None
        },
        Err(_) => None,
    }
}

/// The architectural state after the staging is committed. A store that the bus
/// refuses leaves the PC where it is.
pub open spec fn committed(
    state: ArchModel,
    stg: Staging,
    store: Option<Result<(), AxiResp>>,
) -> ArchModel {
    ArchModel {
        pc: if store matches Some(Err(_)) {
            state.pc
        } else {
            stg.new_pc
        },
        gpr: state.with_gpr(stg.rd, stg.rd_value).gpr,
        csrs: match stg.action {
            Action::Zicsr { addr, write_value, writes } => if writes {
                state.csrs.write(addr, write_value)
            } else {
                state.csrs
            },
            Action::Mret => state.csrs.returned(),
            _ => state.csrs,
        },
    }
}

/// The packet of a committed staging, before its snapshot is taken.
pub open spec fn commit_packet(
    pc: u32,
    stg: Staging,
    store: Option<Result<(), AxiResp>>,
) -> CommitPacket {
    CommitPacket {
        rd: stg.rd,
        rd_value: if stg.rd == 0 {
            0
        } else {
            stg.rd_value
        },
        store: match (stg.store, store) {
            (Some(req), Some(Ok(_))) => Some(
                StoreObserved { addr: req.addr, data: req.data, strb: req.strb },
            ),
            _ => None,
        },
        halt: if store matches Some(Err(_)) {
            Some(HaltEvent::of(HaltKind::BusErrorSt))
        } else {
            None
        },
        ..CommitPacket::blank(pc)
    }
}

/// The architectural state after trap entry.
pub open spec fn trap_entered(state: ArchModel, cause: u32) -> ArchModel {
    ArchModel {
        pc: state.csrs.mtvec,
        gpr: state.gpr,
        csrs: state.csrs.trapped(cause, state.pc, 0),
    }
}

/// The packet of a halting step, before its snapshot is taken.
pub open spec fn halt_packet(pc: u32, kind: HaltKind) -> CommitPacket {
    CommitPacket { halt: Some(HaltEvent::of(kind)), ..CommitPacket::blank(pc) }
}

/// The packet of a trap entry, before its snapshot is taken.
pub open spec fn trap_packet(pc: u32, cause: u32) -> CommitPacket {
    CommitPacket {
        trap: Some(TrapEvent { cause, mepc: crate::word::align4(pc), mtval: 0 }),
        ..CommitPacket::blank(pc)
    }
}

/// The architectural state after a step, and its packet without the snapshot:
/// what the barrier makes of `staged`. `entering` says that the step starts at the
/// first instruction of the handler that the previous step trapped to; a trap
/// there halts.
pub open spec fn settled(
    state: ArchModel,
    entering: bool,
    staged: Result<Staging, HaltKind>,
    store: Option<Result<(), AxiResp>>,
) -> (ArchModel, CommitPacket) {
    match staged {
        Err(kind) => (state, halt_packet(state.pc, kind)),
        Ok(stg) => match trap_cause(state.csrs, stg) {
            Some(cause) => if entering {
                (state, halt_packet(state.pc, HaltKind::DoubleTrap))
            } else {
                (trap_entered(state, cause), trap_packet(state.pc, cause))
            },
            None => (committed(state, stg, store), commit_packet(state.pc, stg, store)),
        },
    }
}

/// Whether one step may take `before` to `after` and emit `packet`, with the bus
/// answering `replies` and being `fetched` after the fetch and `executed` after
/// Execute.
pub open spec fn step_with<B: Bus>(
    before: CoreModel<B>,
    replies: Replies,
    fetched: B,
    executed: B,
    packet: CommitPacket,
    after: CoreModel<B>,
) -> bool {
    let staged = front_end(before.state, replies.fetch, replies.load);
    let entering = before.trapped && before.state.pc == before.state.csrs.mtvec;
    let (state, effects) = settled(before.state, entering, staged, replies.store);
    &&& fetch_performed(before.state.pc, before.bus, replies.fetch, fetched)
    &&& data_read_performed(before.state, replies.fetch, fetched, replies.load, executed)
    &&& store_performed(
        store_request(before.state.csrs, staged),
        executed,
        replies.store,
        after.bus,
    )
    &&& after.state == state
    &&& packet == CommitPacket { csr_snapshot: CsrSnapshot::of(after.state.csrs), ..effects }
    &&& after.trapped == packet.trap is Some
}

/// Whether one step may take `before` to `after` and emit `packet`.
#[verifier::opaque]
pub open spec fn steps<B: Bus>(
    before: CoreModel<B>,
    packet: CommitPacket,
    after: CoreModel<B>,
) -> bool {
    exists|replies: Replies, fetched: B, executed: B| #[trigger]
        step_with(before, replies, fetched, executed, packet, after)
}

/// Whether stepping `before` repeatedly may emit `packets` and pass through
/// `states`, which starts with `before` and has one entry more than `packets`.
pub open spec fn runs<B: Bus>(
    before: CoreModel<B>,
    packets: Seq<CommitPacket>,
    states: Seq<CoreModel<B>>,
) -> bool {
    &&& states.len() == packets.len() + 1
    &&& states[0] == before
    &&& forall|i: int|
        0 <= i < packets.len() ==> steps(states[i], #[trigger] packets[i], states[i + 1])
}

/// Whether none of `packets` reports a halt.
pub open spec fn no_halt(packets: Seq<CommitPacket>) -> bool {
    forall|i: int| 0 <= i < packets.len() ==> (#[trigger] packets[i]).halt is None
}

/// Whether `on_step` may have been called on each of `packets`. How often it was
/// called on each, and in what order, is left unsaid: a contract over a closure
/// knows no state of it that a call could change.
pub open spec fn observed<F: FnMut(&CommitPacket)>(
    on_step: F,
    packets: Seq<CommitPacket>,
) -> bool {
    forall|i: int|
        0 <= i < packets.len() ==> call_ensures(on_step, (&#[trigger] packets[i],), ())
}

/// A closure that watches a run, with a record of the packets that
/// [`tell`](Watcher::tell) was called on.
struct Watcher<F> {
    on_step: F,
    told: Ghost<Seq<CommitPacket>>,
}

impl<F: FnMut(&CommitPacket)> Watcher<F> {
    /// Call the closure on `packet` and add it to the record. That the body makes one
    /// call, and not more, is beyond the contract.
    fn tell(&mut self, packet: &CommitPacket)
        requires
            call_requires(old(self).on_step, (packet,)),
        ensures
            final(self).on_step == old(self).on_step,
            final(self).told@ == old(self).told@.push(*packet),
            call_ensures(old(self).on_step, (packet,), ()),
    {
        (self.on_step)(packet);
        self.told = Ghost(self.told@.push(*packet));
    }
}

/// Whether every run from `before` halts after at most `n` steps.
pub open spec fn halts_within<B: Bus>(before: CoreModel<B>, n: nat) -> bool
    decreases n,
{
    n > 0 && forall|packet: CommitPacket, after: CoreModel<B>| #[trigger]
        steps(before, packet, after) ==> packet.halt is Some || halts_within(
            after,
            (n - 1) as nat,
        )
}

impl<B: Bus> Core<B> {
    /// Construct a Core wired to `bus`, in reset state (PC 0, GPRs 0, CSRs reset).
    pub fn new(bus: B) -> (r: Self)
        ensures
            r@ == (CoreModel { state: ArchModel::reset(), bus, trapped: false }),
    {
        Core { state: ArchState::new(), bus, last_step_entered_trap: false }
    }

    /// Construct a Core wired to `bus` with a pre-seeded architectural `state`.
    pub fn with_state(bus: B, state: ArchState) -> (r: Self)
        ensures
            r@ == (CoreModel { state: state@, bus, trapped: false }),
    {
        Core { state, bus, last_step_entered_trap: false }
    }

    /// Borrow the architectural state (PC, GPRs and CSRs).
    pub fn state(&self) -> (r: &ArchState)
        ensures
            r@ == self@.state,
    {
        &self.state
    }

    /// Mutably borrow the architectural state, for set-up and cross-verification.
    pub fn state_mut(&mut self) -> (r: &mut ArchState)
        ensures
            r@ == old(self)@.state,
            final(self)@ == (CoreModel { state: final(r)@, ..old(self)@ }),
    {
        &mut self.state
    }

    /// Replace the architectural state wholesale.
    pub fn set_state(&mut self, state: ArchState)
        ensures
            final(self)@ == (CoreModel { state: state@, ..old(self)@ }),
    {
        self.state = state;
    }

    /// Borrow the CSR file, for an external interrupt controller to drive the
    /// three `mip` wires via [`CsrFile::set_wires`].
    pub fn csrs_mut(&mut self) -> (r: &mut CsrFile)
        ensures
            r@ == old(self)@.state.csrs,
            final(self)@ == (CoreModel {
                state: ArchModel { csrs: final(r)@, ..old(self)@.state },
                ..old(self)@
            }),
    {
        &mut self.state.csrs
    }

    /// Borrow the underlying bus.
    pub fn bus(&self) -> (r: &B)
        ensures
            *r == self@.bus,
    {
        &self.bus
    }

    /// Mutably borrow the underlying bus.
    pub fn bus_mut(&mut self) -> (r: &mut B)
        ensures
            *r == old(self)@.bus,
            final(self)@ == (CoreModel { bus: *final(r), ..old(self)@ }),
    {
        &mut self.bus
    }

    /// Execute one architectural step, returning the [`CommitPacket`] that
    /// describes the outcome (normal retirement, trap entry, or halt). The caller
    /// **must** stop stepping when `packet.halt` is `Some`.
    pub fn step(&mut self) -> (packet: CommitPacket)
        ensures
            steps(old(self)@, packet, final(self)@),
    {
        let pc: u32 = self.state.pc;
        let mut pkt = CommitPacket::pending(pc);
        // Double-trap predicate: the previous step trapped and this step starts at
        // the handler's first instruction (mtvec.BASE).
        let entering_handler: bool = self.last_step_entered_trap && pc
            == self.state.csrs.mtvec_base();
        let staged = self.fetch_decode_execute(pc);
        let ghost executed = self@;
        let ghost (fetch, load, fetched) = choose|
            fetch: Option<Result<u32, AxiResp>>,
            load: Option<Result<u32, AxiResp>>,
            fetched: B,
        | #[trigger]
            front_end_performed(old(self)@, fetch, load, fetched, executed.bus) && staged
                == front_end(old(self)@.state, fetch, load);
        let ghost mut store: Option<Result<(), AxiResp>> = None;
        match staged {
            Err(halt) => {
                set_halt(&mut pkt, halt);
            },
            Ok(stg) => {
                let Ghost(reply) = self.barrier(pc, stg, entering_handler, &mut pkt);
                proof {
                    store = reply;
                }
            },
        }
        // Remember trap state for the next step's double-trap check, then snapshot
        // the post-step CSRs into the packet.
        self.last_step_entered_trap = pkt.trap.is_some();
        pkt.csr_snapshot = CsrSnapshot::capture(&self.state.csrs);
        proof {
            let replies = Replies { fetch, load, store };
            assert(step_with(old(self)@, replies, fetched, executed.bus, pkt, self@));
            reveal(steps);
        }
        pkt
    }

    /// Fetch the word, decode it, execute it. Any fault in these phases
    /// short-circuits to a halt.
    fn fetch_decode_execute(&mut self, pc: u32) -> (r: Result<Staging, HaltKind>)
        requires
            pc == old(self)@.state.pc,
        ensures
            final(self)@.state == old(self)@.state,
            final(self)@.trapped == old(self)@.trapped,
            exists|
                fetch: Option<Result<u32, AxiResp>>,
                load: Option<Result<u32, AxiResp>>,
                fetched: B,
            | #[trigger]
                front_end_performed(old(self)@, fetch, load, fetched, final(self)@.bus) && r
                    == front_end(old(self)@.state, fetch, load),
            r matches Ok(stg) ==> {
                &&& stg.rd < 32
                &&& stg.action matches Action::Zicsr { addr, writes, .. } ==> (writes
                    ==> CsrModel::writable(addr))
            },
    {
        let (r, Ghost(fetch)) = self.fetch(pc);
        let ghost fetched = self.bus;
        let raw: u32 = match r {
            Ok(raw) => raw,
            Err(kind) => {
                assert(front_end_performed(old(self)@, fetch, None, fetched, self@.bus));
                return Err(kind);
            },
        };
        let uop = decode(raw, pc, &self.state.gpr);
        let r = execute(&self.state, &uop, &mut self.bus);
        proof {
            let load = choose|load: Option<Result<u32, AxiResp>>| #[trigger]
                crate::execute::load_performed(uop, fetched, load, self.bus) && r
                    == crate::execute::staged(self.state@, uop, load);
            assert(front_end_performed(old(self)@, fetch, load, fetched, self@.bus));
        }
        r
    }

    /// Fetch the 4-byte instruction word at `pc`.
    fn fetch(&mut self, pc: u32) -> (r: (
        Result<u32, HaltKind>,
        Ghost<Option<Result<u32, AxiResp>>>,
    ))
        ensures
            final(self)@.state == old(self)@.state,
            final(self)@.trapped == old(self)@.trapped,
            final(self).state == old(self).state,
            fetch_performed(pc, old(self)@.bus, r.1@, final(self)@.bus),
            r.0 == match r.1@ {
                None => Err::<u32, HaltKind>(HaltKind::MisalignPc),
                Some(Err(_)) => Err::<u32, HaltKind>(HaltKind::BusErrorIf),
                Some(Ok(raw)) => Ok::<u32, HaltKind>(raw),
            },
    {
        if !Width::Word.is_aligned(pc) {
            return (Err(HaltKind::MisalignPc), Ghost(None));
        }
        let reply = self.bus.read(pc, Width::Word);
        match reply {
            Ok(raw) => (Ok(raw), Ghost(Some(reply))),
            Err(_) => (Err(HaltKind::BusErrorIf), Ghost(Some(reply))),
        }
    }

    /// The barrier. Chooses trap entry or Commit (never both) and detects
    /// double traps. Returns the bus's reply to a store that it let through.
    fn barrier(
        &mut self,
        pc: u32,
        stg: Staging,
        entering_handler: bool,
        pkt: &mut CommitPacket,
    ) -> (r: Ghost<Option<Result<(), AxiResp>>>)
        requires
            pc == old(self)@.state.pc,
            *old(pkt) == CommitPacket::blank(pc),
            stg.rd < 32,
            stg.action matches Action::Zicsr { addr, writes, .. } ==> (writes
                ==> CsrModel::writable(addr)),
        ensures
            store_performed(
                store_request(old(self)@.state.csrs, Ok(stg)),
                old(self)@.bus,
                r@,
                final(self)@.bus,
            ),
            settled(old(self)@.state, entering_handler, Ok(stg), r@) == (
                final(self)@.state,
                *final(pkt),
            ),
            final(self)@.trapped == old(self)@.trapped,
    {
        // (a) an asynchronous interrupt wins over a staged synchronous trap.
        let mut trap_cause: Option<u32> = None;
        if self.state.csrs.mie_enabled() {
            let async_cause: u32 = self.async_priority();
            if async_cause != 0 {
                // set the interrupt bit
                trap_cause = Some(0x8000_0000 + async_cause);
            }
        }
        // (b) else a staged synchronous ECALL.

        if trap_cause.is_none() {
            if let Action::SyncTrap { cause, .. } = stg.action {
                trap_cause = Some(cause);
            }
        }
        match trap_cause {
            Some(cause) => {
                // Double trap: any trap on the handler's first instruction.
                if entering_handler {
                    set_halt(pkt, HaltKind::DoubleTrap);
                } else {
                    self.trap_entry(cause, pc, 0, pkt);
                }
                Ghost(None)
            },
            // (c) commit.
            None => self.commit(stg, pkt),
        }
    }

    /// Commit: apply the staging to architectural state. The only place where a
    /// successful retirement changes architectural state. Returns the bus's reply
    /// to the staged store.
    fn commit(&mut self, stg: Staging, pkt: &mut CommitPacket) -> (r: Ghost<
        Option<Result<(), AxiResp>>,
    >)
        requires
            *old(pkt) == CommitPacket::blank(old(self)@.state.pc),
            stg.rd < 32,
            stg.action !is SyncTrap,
            stg.action matches Action::Zicsr { addr, writes, .. } ==> (writes
                ==> CsrModel::writable(addr)),
        ensures
            store_performed(stg.store, old(self)@.bus, r@, final(self)@.bus),
            final(self)@.state == committed(old(self)@.state, stg, r@),
            *final(pkt) == commit_packet(old(self)@.state.pc, stg, r@),
            final(self)@.trapped == old(self)@.trapped,
    {
        // (1) GPR write. The packet reports it only when rd != 0.
        if stg.rd != 0 {
            self.state.write_gpr(stg.rd, stg.rd_value);
            pkt.rd = stg.rd;
            pkt.rd_value = stg.rd_value;
        }
        // (2) CSR mutation.

        match stg.action {
            Action::Zicsr { addr, write_value, writes } => {
                if writes {
                    let ok: bool = self.state.csrs.write(addr, write_value);
                    assert(ok);
                }
            },
            Action::Mret => {
                self.state.csrs.mret();
            },
            _ => {},
        }
        // (3) Drain the 1-entry store buffer; a bus error here halts and skips the
        // PC update, so that the PC stays pinned at this instruction.
        let ghost mut reply: Option<Result<(), AxiResp>> = None;
        if let Some(store) = stg.store {
            let answer = self.bus.write(store.addr, store.width, store.data, store.strb);
            proof {
                reply = Some(answer);
            }
            match answer {
                Ok(_) => {
                    pkt.store = Some(
                        StoreObserved { addr: store.addr, data: store.data, strb: store.strb },
                    );
                },
                Err(_) => {
                    set_halt(pkt, HaltKind::BusErrorSt);
                    return Ghost(reply);
                },
            }
        }
        // (4) PC update.

        self.state.pc = stg.new_pc;
        Ghost(reply)
    }

    /// Trap entry: the alternative to Commit. Discards all staged retirement
    /// effects; only the trap-entry microsequence applies.
    fn trap_entry(&mut self, cause: u32, epc: u32, tval: u32, pkt: &mut CommitPacket)
        ensures
            final(self)@ == (CoreModel {
                state: ArchModel {
                    pc: old(self)@.state.csrs.mtvec,
                    csrs: old(self)@.state.csrs.trapped(cause, epc, tval),
                    ..old(self)@.state
                },
                ..old(self)@
            }),
            *final(pkt) == (CommitPacket {
                trap: Some(
                    TrapEvent { cause, mepc: crate::word::align4(epc), mtval: tval },
                ),
                ..*old(pkt)
            }),
    {
        self.state.csrs.trap_entry(cause, epc, tval);
        self.state.pc = self.state.csrs.mtvec_base();
        pkt.trap = Some(
            TrapEvent {
                cause,
                mepc: self.state.csrs.mepc(),
                mtval: self.state.csrs.mtval_raw(),
            },
        );
    }

    /// Priority-encode the highest-priority pending and enabled interrupt source:
    /// 11 (MEI) before 3 (MSI) before 7 (MTI); 0 if there is none.
    fn async_priority(&self) -> (r: u32)
        ensures
            r == interrupt_cause(self@.state.csrs),
    {
        let pending: u32 = self.state.csrs.mip() & self.state.csrs.mie();
        proof {
            crate::csr::lemma_pending_bits(self.state.csrs@);
        }
        if pending & 0x800 != 0 {
            11
        } else if pending & 0x8 != 0 {
            3
        } else if pending & 0x80 != 0 {
            7
        } else {
            0
        }
    }

    /// Step until a halt event, invoking `on_step` with every emitted packet, and
    /// return the terminating [`HaltEvent`].
    ///
    /// It is for programs that do halt; see
    /// [`run_until_halt_max`](Self::run_until_halt_max) for a bounded variant.
    ///
    /// The contract leaves unsaid how often and in what order `on_step` is called
    /// (see [`observed`]). The body passes every packet to `Watcher::tell` once, in the
    /// order of the steps; the watcher's record proves that much. That `tell` calls
    /// the closure once is to be read off its body.
    pub fn run_until_halt<F: FnMut(&CommitPacket)>(&mut self, on_step: F) -> (halt: HaltEvent)
        requires
            exists|n: nat| #[trigger] halts_within(old(self)@, n),
            forall|packet: &CommitPacket| call_requires(on_step, (packet,)),
        ensures
            exists|packets: Seq<CommitPacket>, states: Seq<CoreModel<B>>| #[trigger]
                runs(old(self)@, packets, states) && observed(on_step, packets) && packets.len()
                    > 0 && no_halt(packets.drop_last()) && packets.last().halt == Some(halt)
                    && states.last() == final(self)@,
    {
        let ghost mut left: nat = choose|n: nat| #[trigger] halts_within(old(self)@, n);
        let mut watcher = Watcher { on_step, told: Ghost(Seq::empty()) };
        let ghost mut packets: Seq<CommitPacket> = Seq::empty();
        let ghost mut states: Seq<CoreModel<B>> = seq![self@];
        loop
            invariant
                halts_within(self@, left),
                watcher.on_step == on_step,
                watcher.told@ == packets,
                forall|packet: &CommitPacket| call_requires(on_step, (packet,)),
                runs(old(self)@, packets, states),
                observed(on_step, packets),
                no_halt(packets),
                states.last() == self@,
            decreases left,
        {
            let pkt = self.step();
            watcher.tell(&pkt);
            proof {
                lemma_run_extends(old(self)@, packets, states, pkt, self@);
                assert(packets.push(pkt).drop_last() =~= packets);
                packets = packets.push(pkt);
                states = states.push(self@);
                left = (left - 1) as nat;
            }
            if let Some(halt) = pkt.halt {
                assert(watcher.told@ == packets);
                return halt;
            }
        }
    }

    /// Like [`run_until_halt`](Self::run_until_halt) but bounded to `max_steps`.
    /// Returns `Ok(halt)` if the program halted within the budget, or
    /// `Err(steps_run)` if the budget was exhausted first.
    ///
    /// The contract leaves unsaid how often and in what order `on_step` is called,
    /// as there, and the body passes the packets on in the same way.
    pub fn run_until_halt_max<F: FnMut(&CommitPacket)>(
        &mut self,
        max_steps: usize,
        on_step: F,
    ) -> (r: Result<HaltEvent, usize>)
        requires
            forall|packet: &CommitPacket| call_requires(on_step, (packet,)),
        ensures
            exists|packets: Seq<CommitPacket>, states: Seq<CoreModel<B>>| #[trigger]
                runs(old(self)@, packets, states) && observed(on_step, packets) && states.last()
                    == final(self)@ && match r {
                    Ok(halt) => 0 < packets.len() <= max_steps && no_halt(packets.drop_last())
                        && packets.last().halt == Some(halt),
                    Err(n) => n == max_steps && packets.len() == max_steps && no_halt(packets),
                },
    {
        let mut watcher = Watcher { on_step, told: Ghost(Seq::empty()) };
        let ghost mut packets: Seq<CommitPacket> = Seq::empty();
        let ghost mut states: Seq<CoreModel<B>> = seq![self@];
        let mut n: usize = 0;
        while n < max_steps
            invariant
                n <= max_steps,
                packets.len() == n,
                watcher.on_step == on_step,
                watcher.told@ == packets,
                forall|packet: &CommitPacket| call_requires(on_step, (packet,)),
                runs(old(self)@, packets, states),
                observed(on_step, packets),
                no_halt(packets),
                states.last() == self@,
            decreases max_steps - n,
        {
            let pkt = self.step();
            watcher.tell(&pkt);
            proof {
                lemma_run_extends(old(self)@, packets, states, pkt, self@);
                assert(packets.push(pkt).drop_last() =~= packets);
                packets = packets.push(pkt);
                states = states.push(self@);
            }
            if let Some(halt) = pkt.halt {
                assert(watcher.told@ == packets);
                return Ok(halt);
            }
            n += 1;
        }
        assert(watcher.told@ == packets);
        Err(max_steps)
    }
}

/// A run and one more step are a run.
proof fn lemma_run_extends<B: Bus>(
    before: CoreModel<B>,
    packets: Seq<CommitPacket>,
    states: Seq<CoreModel<B>>,
    packet: CommitPacket,
    after: CoreModel<B>,
)
    requires
        runs(before, packets, states),
        steps(states.last(), packet, after),
    ensures
        runs(before, packets.push(packet), states.push(after)),
{
    let longer = packets.push(packet);
    let passed = states.push(after);
    assert forall|i: int| 0 <= i < longer.len() implies steps(
        passed[i],
        #[trigger] longer[i],
        passed[i + 1],
    ) by {
        if i < packets.len() {
            assert(longer[i] == packets[i]);
        }
    }
}

/// Whether fetch and Execute may take the bus of `before` to `fetched` and then to
/// `executed`, with these replies.
pub open spec fn front_end_performed<B: Bus>(
    before: CoreModel<B>,
    fetch: Option<Result<u32, AxiResp>>,
    load: Option<Result<u32, AxiResp>>,
    fetched: B,
    executed: B,
) -> bool {
    &&& fetch_performed(before.state.pc, before.bus, fetch, fetched)
    &&& data_read_performed(before.state, fetch, fetched, load, executed)
}

/// Record a halt event into the packet (resolving its exit code).
fn set_halt(pkt: &mut CommitPacket, kind: HaltKind)
    ensures
        *final(pkt) == (CommitPacket { halt: Some(HaltEvent::of(kind)), ..*old(pkt) }),
{
    pkt.halt = Some(HaltEvent::new(kind));
}

} // verus!

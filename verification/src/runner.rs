//! Pacing of an interactive run: what a host that steps a [`Core`](crate::Core)
//! against a real terminal and a real clock does after each step.
//!
//! The host keeps the guest's `mtime` tied to the wall clock, polls the keyboard
//! gently while the guest waits for input, and gives up on a guest that never
//! halts. [`Pacer`] takes those decisions; the host reads the clock, sleeps and
//! writes the bus.

use vstd::prelude::*;

use crate::bus::Width;
use crate::execute::StoreReq;
use crate::packet::CommitPacket;

verus! {

/// UART TX register address. A store here is the guest emitting a byte, which
/// tells "rendering" apart from "spin-waiting for input".
pub const UART_TX: u32 = 0x1000_1000;

/// Steps without any UART TX after which the guest is assumed to be blocked on
/// input; the host then polls the keyboard gently instead of busy-spinning.
pub const IDLE_STEPS: u32 = 5_000;

/// How often to resync `mtime` to the wall clock, in steps. Frequent enough for
/// sub-millisecond timer resolution, rare enough to be free for compute.
pub const MTIME_SYNC_STEPS: u32 = 1_024;

/// CLINT `mtime` low register address.
pub const CLINT_MTIME_LO: u32 = 0x0200_BFF8;

/// CLINT `mtime` high register address.
pub const CLINT_MTIME_HI: u32 = 0x0200_BFFC;

/// Hard bound so that a runaway guest cannot spin forever.
pub const MAX_STEPS: u64 = 5_000_000_000;

/// What the host does after a step.
#[derive(Copy, Clone, PartialEq, Eq, Debug, Structural)]
pub enum Pace {
    /// Stop: the guest halted with this exit code.
    Halt {
        /// The guest's exit code.
        exit_code: u8,
    },
    /// Go on with the next step.
    Go {
        /// Write the wall clock to `mtime` first.
        sync_mtime: bool,
        /// Sleep for two milliseconds first.
        sleep: bool,
    },
}

/// Counts steps and decides what the host does after each.
#[derive(Debug)]
pub struct Pacer {
    /// Steps that did not halt.
    steps: u64,
    /// Steps since the last UART TX or sleep.
    idle: u32,
    /// Steps since `mtime` was last synced.
    since_sync: u32,
}

/// What a [`Pacer`] has counted.
pub struct PacerModel {
    pub steps: nat,
    pub idle: nat,
    pub since_sync: nat,
}

impl PacerModel {
    /// Before the first step.
    pub open spec fn start() -> PacerModel {
        PacerModel { steps: 0, idle: 0, since_sync: 0 }
    }

    /// Whether a step that emitted `packet` sent a byte to the UART.
    pub open spec fn transmits(packet: CommitPacket) -> bool {
        packet.store matches Some(st) && st.addr == 0x1000_1000
    }

    /// The counts after a step that did not halt. A TX restarts the idle count, as
    /// does reaching its limit; reaching its limit restarts the sync count.
    pub open spec fn counted(self, packet: CommitPacket) -> PacerModel {
        PacerModel {
            steps: self.steps + 1,
            idle: if Self::transmits(packet) || self.idle + 1 >= 5_000 {
                0
            } else {
                self.idle + 1
            },
            since_sync: if self.since_sync + 1 >= 1_024 {
                0
            } else {
                self.since_sync + 1
            },
        }
    }

    /// What the host does after a step that emitted `packet`.
    pub open spec fn pace(self, packet: CommitPacket) -> Pace {
        match packet.halt {
            Some(halt) => Pace::Halt { exit_code: halt.exit_code },
            None => Pace::Go {
                sync_mtime: self.since_sync + 1 >= 1_024,
                sleep: !Self::transmits(packet) && self.idle + 1 >= 5_000,
            },
        }
    }

    /// The counts after steps that emitted `packets`, none of which halted.
    pub open spec fn after(packets: Seq<CommitPacket>) -> PacerModel
        decreases packets.len(),
    {
        if packets.len() == 0 {
            Self::start()
        } else {
            Self::after(packets.drop_last()).counted(packets.last())
        }
    }
}

impl View for Pacer {
    type V = PacerModel;

    closed spec fn view(&self) -> PacerModel {
        PacerModel {
            steps: self.steps as nat,
            idle: self.idle as nat,
            since_sync: self.since_sync as nat,
        }
    }
}

impl Pacer {
    #[verifier::type_invariant]
    closed spec fn inv(self) -> bool {
        self.idle < 5_000 && self.since_sync < 1_024
    }

    /// A pacer for a run that has not started.
    pub fn new() -> (r: Self)
        ensures
            r@ == PacerModel::start(),
    {
        Pacer { steps: 0, idle: 0, since_sync: 0 }
    }

    /// Whether the step bound leaves room for another step.
    pub fn may_step(&self) -> (r: bool)
        ensures
            r == (self@.steps < MAX_STEPS),
    {
        self.steps < MAX_STEPS
    }

    /// Account for a step that emitted `packet` and decide what follows it.
    pub fn after_step(&mut self, packet: &CommitPacket) -> (pace: Pace)
        requires
            old(self)@.steps < MAX_STEPS,
        ensures
            pace == old(self)@.pace(*packet),
            final(self)@ == if packet.halt is Some {
                old(self)@
            } else {
                old(self)@.counted(*packet)
            },
    {
        proof {
            use_type_invariant(&*self);
        }
        if let Some(halt) = packet.halt {
            return Pace::Halt { exit_code: halt.exit_code };
        }
        let sync_mtime: bool = self.since_sync + 1 >= MTIME_SYNC_STEPS;
        self.since_sync = if sync_mtime {
            0
        } else {
            self.since_sync + 1
        };
        let transmits: bool = match packet.store {
            Some(store) => store.addr == UART_TX,
            None => false,
        };
        let sleep: bool = !transmits && self.idle + 1 >= IDLE_STEPS;
        self.idle = if transmits || sleep {
            0
        } else {
            self.idle + 1
        };
        self.steps = self.steps + 1;
        Pace::Go { sync_mtime, sleep }
    }
}

impl Default for Pacer {
    /// A pacer for a run that has not started.
    fn default() -> (r: Self)
        ensures
            r@ == PacerModel::start(),
    {
        Pacer::new()
    }
}

/// The two word writes that set `mtime` to `micros`: low word, then high word.
pub fn mtime_writes(micros: u64) -> (r: (StoreReq, StoreReq))
    ensures
        r.0 == (StoreReq {
            addr: CLINT_MTIME_LO,
            data: (micros % 0x1_0000_0000) as u32,
            strb: 0xF,
            width: Width::Word,
        }),
        r.1 == (StoreReq {
            addr: CLINT_MTIME_HI,
            data: (micros / 0x1_0000_0000) as u32,
            strb: 0xF,
            width: Width::Word,
        }),
        r.1.data * 0x1_0000_0000 + r.0.data == micros,
{
    (
        StoreReq {
            addr: CLINT_MTIME_LO,
            data: (micros % 0x1_0000_0000) as u32,
            strb: 0xF,
            width: Width::Word,
        },
        StoreReq {
            addr: CLINT_MTIME_HI,
            data: (micros / 0x1_0000_0000) as u32,
            strb: 0xF,
            width: Width::Word,
        },
    )
}

/// `bytes` with a carriage return put before every line feed.
pub open spec fn expanded(bytes: Seq<u8>) -> Seq<u8>
    decreases bytes.len(),
{
    if bytes.len() == 0 {
        Seq::empty()
    } else if bytes.last() == 0x0A {
        expanded(bytes.drop_last()) + seq![0x0Du8, 0x0A]
    } else {
        expanded(bytes.drop_last()).push(bytes.last())
    }
}

/// Expand every `\n` of `buf` into `\r\n`.
///
/// A terminal in raw mode does no newline translation, so the guest's bare line
/// feeds would drop a line without returning to column 0.
pub fn expand_newlines(buf: &[u8]) -> (r: Vec<u8>)
    ensures
        r@ == expanded(buf@),
{
    let mut r: Vec<u8> = Vec::new();
    let mut i: usize = 0;
    assert(buf@.take(0) =~= Seq::<u8>::empty());
    while i < buf.len()
        invariant
            i <= buf@.len(),
            r@ == expanded(buf@.take(i as int)),
        decreases buf@.len() - i,
    {
        assert(buf@.take(i + 1).drop_last() =~= buf@.take(i as int));
        let b: u8 = buf[i];
        if b == 0x0A {
            r.push(0x0D);
        }
        r.push(b);
        i = i + 1;
        assert(r@ =~= expanded(buf@.take(i as int)));
    }
    assert(buf@.take(buf@.len() as int) =~= buf@);
    r
}

/// In expanded bytes a carriage return stands before every line feed.
pub proof fn law_every_newline_returns(bytes: Seq<u8>, i: int)
    requires
        0 <= i < expanded(bytes).len(),
        expanded(bytes)[i] == 0x0A,
    ensures
        i > 0,
        expanded(bytes)[i - 1] == 0x0D,
    decreases bytes.len(),
{
    let earlier = bytes.drop_last();
    if i < expanded(earlier).len() {
        law_every_newline_returns(earlier, i);
    }
}

/// Bytes without a line feed pass through expansion unchanged, and expansion works
/// piece by piece.
pub proof fn law_expansion_is_piecewise(first: Seq<u8>, second: Seq<u8>)
    ensures
        expanded(first + second) == expanded(first) + expanded(second),
        (forall|i: int| 0 <= i < first.len() ==> first[i] != 0x0A) ==> expanded(first) == first,
    decreases first.len() + second.len(),
{
    if second.len() > 0 {
        let whole = first + second;
        assert(whole.drop_last() =~= first + second.drop_last());
        law_expansion_is_piecewise(first, second.drop_last());
        assert(expanded(whole) =~= expanded(first) + expanded(second));
    } else {
        assert(first + second =~= first);
        assert(expanded(first) + expanded(second) =~= expanded(first));
        if first.len() > 0 {
            law_expansion_is_piecewise(first.drop_last(), second);
            assert(first.drop_last().push(first.last()) =~= first);
        }
    }
}

/// Whatever the guest does, `mtime` is synced on every 1024th step, and the counts
/// stay below their limits.
pub proof fn law_mtime_sync_is_periodic(packets: Seq<CommitPacket>, next: CommitPacket)
    requires
        next.halt is None,
    ensures
        PacerModel::after(packets).steps == packets.len(),
        PacerModel::after(packets).since_sync == packets.len() % 1_024,
        PacerModel::after(packets).idle < 5_000,
        PacerModel::after(packets).pace(next)->sync_mtime <==> (packets.len() + 1) % 1_024 == 0,
    decreases packets.len(),
{
    if packets.len() > 0 {
        law_mtime_sync_is_periodic(packets.drop_last(), next);
    }
}

/// A guest that keeps transmitting is never put to sleep.
pub proof fn law_output_keeps_the_guest_awake(pacer: PacerModel, packet: CommitPacket)
    requires
        PacerModel::transmits(packet),
    ensures
        pacer.counted(packet).idle == 0,
        pacer.pace(packet) matches Pace::Go { sleep, .. } ==> !sleep,
{
}

/// The addresses that the pacing speaks of, and its bounds.
pub proof fn law_memory_map()
    ensures
        UART_TX == 0x1000_1000,
        CLINT_MTIME_LO == 0x0200_BFF8,
        CLINT_MTIME_HI == 0x0200_BFFC,
        IDLE_STEPS == 5_000,
        MTIME_SYNC_STEPS == 1_024,
        MAX_STEPS == 5_000_000_000,
{
}

/// A halt stops the host with the guest's exit code, and nothing else does.
pub proof fn law_only_a_halt_stops(pacer: PacerModel, packet: CommitPacket)
    ensures
        packet.halt matches Some(halt) ==> pacer.pace(packet) == (Pace::Halt {
            exit_code: halt.exit_code,
        }),
        packet.halt is None ==> pacer.pace(packet) is Go,
{
}

/// Whether the step stored to the UART's transmit register.
pub open spec fn sends(packet: CommitPacket) -> bool {
    packet.store is Some && packet.store->0.addr == 0x1000_1000
}

/// The host sleeps once in 5000 steps for as long as the guest sends nothing, counted
/// from the start or from the last step that sent a byte, and never on a step that
/// sends one.
pub proof fn law_silence_is_slept_through(
    earlier: Seq<CommitPacket>,
    silent: Seq<CommitPacket>,
    next: CommitPacket,
)
    requires
        earlier.len() > 0 ==> sends(earlier.last()),
        forall|i: int| 0 <= i < silent.len() ==> !sends(#[trigger] silent[i]),
        next.halt is None,
    ensures
        PacerModel::after(earlier + silent).idle == silent.len() % 5_000,
        PacerModel::after(earlier + silent).pace(next)->sleep <==> !sends(next) && (silent.len()
            + 1) % 5_000 == 0,
    decreases silent.len(),
{
    let all = earlier + silent;
    if silent.len() > 0 {
        let rest = silent.drop_last();
        assert(all.drop_last() =~= earlier + rest);
        assert(all.last() == silent.last());
        law_silence_is_slept_through(earlier, rest, next);
    } else {
        assert(all =~= earlier);
    }
}

/// Expansion byte by byte: a line feed becomes a carriage return and a line feed, and
/// any other byte stays as it is.
pub proof fn law_expansion_of_a_byte(bytes: Seq<u8>, b: u8)
    ensures
        expanded(Seq::empty()) == Seq::<u8>::empty(),
        expanded(bytes.push(b)) == expanded(bytes) + if b == 0x0A {
            seq![0x0Du8, 0x0A]
        } else {
            seq![b]
        },
{
    assert(bytes.push(b).drop_last() =~= bytes);
    assert(expanded(bytes.push(b)) =~= expanded(bytes) + if b == 0x0A {
        seq![0x0Du8, 0x0A]
    } else {
        seq![b]
    });
}

} // verus!

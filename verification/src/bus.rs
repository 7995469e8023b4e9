//! The [`Bus`] abstraction the Core talks to, the value types shared by every
//! bus access ([`AxiResp`], [`Width`]) and a flat-memory [`RamBus`].

use vstd::prelude::*;

verus! {

/// AXI4-Lite response codes (`xRESP`), in the order of their 2-bit encoding.
///
/// [`AxiResp::ExOkay`] completes the encoding but is forbidden by AXI4-Lite,
/// which has no exclusive access.
#[derive(Copy, Clone, PartialEq, Eq, Debug, Structural)]
pub enum AxiResp {
    /// `2'b00`: normal access success.
    Okay,
    /// `2'b01`: forbidden in AXI4-Lite.
    ExOkay,
    /// `2'b10`: subordinate-level error, such as a write to a read-only register.
    SlvErr,
    /// `2'b11`: decode error, raised by the fabric for an unmapped address.
    DecErr,
}

impl AxiResp {
    /// The tag of each response.
    pub open spec fn tag(self) -> Seq<char> {
        match self {
            AxiResp::Okay => "OKAY"@,
            AxiResp::ExOkay => "EXOKAY"@,
            AxiResp::SlvErr => "SLVERR"@,
            AxiResp::DecErr => "DECERR"@,
        }
    }

    /// Human-readable tag for diagnostics.
    pub fn name(self) -> (r: &'static str)
        ensures
            r@ == self.tag(),
    {
        match self {
            AxiResp::Okay => "OKAY",
            AxiResp::ExOkay => "EXOKAY",
            AxiResp::SlvErr => "SLVERR",
            AxiResp::DecErr => "DECERR",
        }
    }
}

/// Access width. RV32I memory accesses are 1, 2 or 4 bytes wide.
#[derive(Copy, Clone, PartialEq, Eq, Debug, Structural)]
pub enum Width {
    /// 1 byte (`LB` / `LBU` / `SB`).
    Byte,
    /// 2 bytes (`LH` / `LHU` / `SH`).
    Half,
    /// 4 bytes (`LW` / `SW` and every instruction fetch).
    Word,
}

impl Width {
    /// The number of bytes that an access of this width touches.
    pub open spec fn size(self) -> nat {
        match self {
            Width::Byte => 1,
            Width::Half => 2,
            Width::Word => 4,
        }
    }

    /// The strobe that enables every byte of an access of this width, and no more.
    pub open spec fn strobe(self) -> u8 {
        match self {
            Width::Byte => 0x1,
            Width::Half => 0x3,
            Width::Word => 0xF,
        }
    }

    /// Whether `addr` is a multiple of the access size.
    pub open spec fn aligned(self, addr: u32) -> bool {
        addr as nat % self.size() == 0
    }

    /// The width as a byte count (1 / 2 / 4).
    pub fn bytes(self) -> (r: u32)
        ensures
            r == self.size(),
    {
        match self {
            Width::Byte => 1,
            Width::Half => 2,
            Width::Word => 4,
        }
    }

    /// The full AXI `WSTRB` byte enable of a packed store of this width
    /// (`0x1` / `0x3` / `0xF`). The strobe masks the low bytes of the value, not
    /// lanes within the 32-bit word.
    pub fn full_strb(self) -> (r: u8)
        ensures
            r == self.strobe(),
    {
        match self {
            Width::Byte => 0x1,
            Width::Half => 0x3,
            Width::Word => 0xF,
        }
    }

    /// `true` when `addr` is naturally aligned for this width.
    pub fn is_aligned(self, addr: u32) -> (r: bool)
        ensures
            r == self.aligned(addr),
    {
        let mask: u32 = self.bytes() - 1;
        assert(addr & 0 == 0 && addr & 1 == addr % 2 && addr & 3 == addr % 4) by (bit_vector);
        addr & mask == 0
    }
}

/// Whether the byte enable `strb` covers byte `i` of an access.
pub open spec fn enabled(strb: u8, i: int) -> bool {
    if i == 0 {
        strb % 2 == 1
    } else if i == 1 {
        strb / 2 % 2 == 1
    } else if i == 2 {
        strb / 4 % 2 == 1
    } else {
        strb / 8 % 2 == 1
    }
}

/// `mem` after a write of the low `width` bytes of `value` at `off` in which only
/// the bytes that `strb` enables take effect.
pub open spec fn stored(mem: Seq<u8>, off: int, width: Width, value: u32, strb: u8) -> Seq<u8> {
    Seq::new(
        mem.len(),
        |k: int|
            if off <= k < off + width.size() && enabled(strb, k - off) {
                crate::word::byte(value, k - off)
            } else {
                mem[k]
            },
    )
}

/// The zero-extended little-endian number that `width` bytes of `mem` at `off`
/// hold.
pub open spec fn loaded(mem: Seq<u8>, off: int, width: Width) -> u32 {
    crate::word::le_value(mem.subrange(off, off + width.size())) as u32
}

/// Read `width` bytes of `mem` at `off`, little-endian and zero-extended.
pub fn le_load(mem: &Vec<u8>, off: usize, width: Width) -> (r: u32)
    requires
        off + width.size() <= mem@.len(),
    ensures
        r == loaded(mem@, off as int, width),
{
    proof {
        lemma_loaded(mem@, off as int, width);
        assert(mem@.len() == mem.len());
    }
    match width {
        Width::Byte => mem[off] as u32,
        Width::Half => mem[off] as u32 + 0x100 * mem[off + 1] as u32,
        Width::Word => mem[off] as u32 + 0x100 * mem[off + 1] as u32 + 0x1_0000 * mem[off
            + 2] as u32 + 0x100_0000 * mem[off + 3] as u32,
    }
}

/// Write the bytes of `value` that `strb` enables, among the low `width` ones,
/// into `mem` at `off`.
pub fn le_store(mem: &mut Vec<u8>, off: usize, width: Width, value: u32, strb: u8)
    requires
        off + width.size() <= old(mem)@.len(),
    ensures
        final(mem)@ == stored(old(mem)@, off as int, width, value, strb),
{
    let n: usize = width.bytes() as usize;
    let mut i: usize = 0;
    let mut rest: u32 = value;
    let mut enables: u8 = strb;
    while i < n
        invariant
            i <= n,
            n == width.size(),
            off + n <= mem.len(),
            mem@.len() == old(mem)@.len(),
            i == 0 ==> rest == value && enables == strb,
            i == 1 ==> rest == value / 0x100 && enables == strb / 2,
            i == 2 ==> rest == value / 0x1_0000 && enables == strb / 4,
            i == 3 ==> rest == value / 0x100_0000 && enables == strb / 8,
            forall|k: int|
                0 <= k < mem@.len() ==> #[trigger] mem@[k] == if off <= k < off + i && enabled(
                    strb,
                    k - off,
                ) {
                    crate::word::byte(value, k - off)
                } else {
                    old(mem)@[k]
                },
        decreases n - i,
    {
        if enables % 2 == 1 {
            mem[off + i] = (rest % 0x100) as u8;
        }
        rest = rest / 0x100;
        enables = enables / 2;
        i = i + 1;
    }
}

/// What [`loaded`] is for each width, byte by byte.
pub proof fn lemma_loaded(mem: Seq<u8>, off: int, width: Width)
    requires
        0 <= off,
        off + width.size() <= mem.len(),
    ensures
        loaded(mem, off, width) == match width {
            Width::Byte => mem[off] as int,
            Width::Half => mem[off] + 0x100 * mem[off + 1],
            Width::Word => mem[off] + 0x100 * mem[off + 1] + 0x1_0000 * mem[off + 2] + 0x100_0000
                * mem[off + 3],
        },
{
    let s = mem.subrange(off, off + width.size());
    reveal_with_fuel(crate::word::le_value, 5);
    let s1 = s.drop_first();
    let s2 = s1.drop_first();
    let s3 = s2.drop_first();
    assert(s[0] == mem[off]);
    if width is Half {
        assert(s1[0] == mem[off + 1]);
    }
    if width is Word {
        assert(s1[0] == mem[off + 1]);
        assert(s2[0] == mem[off + 2]);
        assert(s3[0] == mem[off + 3]);
    }
}

/// Reading back a full-strobe write of the same width gives the low bytes of the
/// value, and reading bytes that the write did not touch gives what they held.
pub proof fn law_load_after_store(
    mem: Seq<u8>,
    off: int,
    width: Width,
    value: u32,
    other: int,
    other_width: Width,
)
    requires
        0 <= off,
        off + width.size() <= mem.len(),
        0 <= other,
        other + other_width.size() <= mem.len(),
    ensures
        loaded(stored(mem, off, width, value, width.strobe()), off, width) == match width {
            Width::Byte => value % 0x100,
            Width::Half => value % 0x1_0000,
            Width::Word => value,
        },
        other + other_width.size() <= off || off + width.size() <= other ==> loaded(
            stored(mem, off, width, value, width.strobe()),
            other,
            other_width,
        ) == loaded(mem, other, other_width),
{
    let after = stored(mem, off, width, value, width.strobe());
    assert(loaded(after, off, width) == match width {
        Width::Byte => value % 0x100,
        Width::Half => value % 0x1_0000,
        Width::Word => value,
    }) by {
        lemma_loaded(after, off, width);
        lemma_bytes_make_up_value(value);
        assert(after[off] == crate::word::byte(value, 0));
        if width !is Byte {
            assert(after[off + 1] == crate::word::byte(value, 1));
        }
        if width is Word {
            assert(after[off + 2] == crate::word::byte(value, 2));
            assert(after[off + 3] == crate::word::byte(value, 3));
        }
    }
    if other + other_width.size() <= off || off + width.size() <= other {
        let n = other_width.size() as int;
        assert(after.subrange(other, other + n) =~= mem.subrange(other, other + n));
    }
}

/// The bytes of a word make it up.
proof fn lemma_bytes_make_up_value(value: u32)
    ensures
        crate::word::byte(value, 0) == value % 0x100,
        crate::word::byte(value, 0) + 0x100 * crate::word::byte(value, 1) == value % 0x1_0000,
        crate::word::byte(value, 0) + 0x100 * crate::word::byte(value, 1) + 0x1_0000
            * crate::word::byte(value, 2) + 0x100_0000 * crate::word::byte(value, 3) == value,
{
}

/// A bus as a state and the way it answers accesses. The state is whatever the
/// devices behind the bus hold, as byte strings; the two relations are fixed for
/// the bus's lifetime.
pub struct BusModel {
    pub state: Seq<Seq<u8>>,
    /// Whether, in a state, a read at an address may give a reply and leave a
    /// state.
    pub reads: spec_fn(Seq<Seq<u8>>, u32, Width, Result<u32, AxiResp>, Seq<Seq<u8>>) -> bool,
    /// Whether, in a state, a write of a value at an address under a byte enable
    /// may give a reply and leave a state.
    pub writes: spec_fn(
        Seq<Seq<u8>>,
        u32,
        Width,
        u32,
        u8,
        Result<(), AxiResp>,
        Seq<Seq<u8>>,
    ) -> bool,
}

impl BusModel {
    /// A bus of which nothing is said.
    pub open spec fn unknown() -> BusModel {
        BusModel {
            state: Seq::empty(),
            reads: |
                state: Seq<Seq<u8>>,
                addr: u32,
                width: Width,
                reply: Result<u32, AxiResp>,
                after: Seq<Seq<u8>>,
            | true,
            writes: |
                state: Seq<Seq<u8>>,
                addr: u32,
                width: Width,
                value: u32,
                strb: u8,
                reply: Result<(), AxiResp>,
                after: Seq<Seq<u8>>,
            | true,
        }
    }

    /// The same bus in another state.
    pub open spec fn in_state(self, state: Seq<Seq<u8>>) -> BusModel {
        BusModel { state, ..self }
    }

    /// Whether a read may give `reply` and leave `after`.
    pub open spec fn read_to(
        self,
        addr: u32,
        width: Width,
        reply: Result<u32, AxiResp>,
        after: BusModel,
    ) -> bool {
        &&& after == self.in_state(after.state)
        &&& (self.reads)(self.state, addr, width, reply, after.state)
    }

    /// Whether a write may give `reply` and leave `after`.
    pub open spec fn written_to(
        self,
        addr: u32,
        width: Width,
        value: u32,
        strb: u8,
        reply: Result<(), AxiResp>,
        after: BusModel,
    ) -> bool {
        &&& after == self.in_state(after.state)
        &&& (self.writes)(self.state, addr, width, value, strb, reply, after.state)
    }
}

/// A memory-mapped bus addressed by *system* address.
///
/// The Core only ever calls [`read`](Bus::read) and [`write`](Bus::write). An
/// implementation answers [`AxiResp::DecErr`] for an unmapped address and passes
/// on a device's [`AxiResp::SlvErr`].
pub trait Bus {
    /// The bus's state and behaviour. A bus that does not say may answer anything.
    open spec fn model(&self) -> BusModel {
        BusModel::unknown()
    }

    /// Read `width` bytes at `addr`, returning the zero-extended word.
    fn read(&mut self, addr: u32, width: Width) -> (reply: Result<u32, AxiResp>)
        ensures
            (*old(self)).model().read_to(addr, width, reply, (*final(self)).model()),
    ;

    /// Write the low `width` bytes of `value` at `addr` under the `strb` byte
    /// enable (bit *i* enables byte *i*). For [`Width::Word`] the AXI4-Lite
    /// minimal subset has `strb == 0xF`.
    fn write(&mut self, addr: u32, width: Width, value: u32, strb: u8) -> (reply: Result<
        (),
        AxiResp,
    >)
        ensures
            (*old(self)).model().written_to(
                addr,
                width,
                value,
                strb,
                reply,
                (*final(self)).model(),
            ),
    ;
}

/// A mutable reference to a bus is a bus, so a `Core` can run over a borrowed or
/// a dynamically dispatched one.
impl<B: Bus + ?Sized> Bus for &mut B {
    open spec fn model(&self) -> BusModel {
        (**self).model()
    }

    fn read(&mut self, addr: u32, width: Width) -> (reply: Result<u32, AxiResp>) {
        (**self).read(addr, width)
    }

    fn write(&mut self, addr: u32, width: Width, value: u32, strb: u8) -> (reply: Result<
        (),
        AxiResp,
    >) {
        (**self).write(addr, width, value, strb)
    }
}

/// A flat little-endian RAM covering `[base, base + len)`: every access that lies
/// in it succeeds, and anything outside the region, or straddling its end, is
/// [`AxiResp::DecErr`].
#[derive(Debug)]
pub struct RamBus {
    base: u32,
    mem: Vec<u8>,
}

/// What a [`RamBus`] holds: the address of its first byte and its bytes.
pub struct RamModel {
    pub base: u32,
    pub mem: Seq<u8>,
}

impl RamModel {
    /// Whether the region covers all `width` bytes at `addr`.
    pub open spec fn covers(self, addr: u32, width: Width) -> bool {
        self.base <= addr && addr - self.base + width.size() <= self.mem.len()
    }

    /// The number held by the `width` bytes at `addr`.
    pub open spec fn value_at(self, addr: u32, width: Width) -> u32 {
        loaded(self.mem, addr - self.base, width)
    }

    /// The region after a write of `value` at `addr`.
    pub open spec fn with_value(self, addr: u32, width: Width, value: u32, strb: u8) -> RamModel {
        RamModel {
            base: self.base,
            mem: stored(self.mem, addr - self.base, width, value, strb),
        }
    }

    /// The region after the words of a program are laid out from `addr` on.
    pub open spec fn with_program(self, addr: int, words: Seq<u32>) -> RamModel
        decreases words.len(),
    {
        if words.len() == 0 {
            self
        } else {
            self.with_program(addr, words.drop_last()).with_value(
                (addr + 4 * (words.len() - 1)) as u32,
                Width::Word,
                words.last(),
                0xF,
            )
        }
    }
}

impl View for RamBus {
    type V = RamModel;

    closed spec fn view(&self) -> RamModel {
        RamModel { base: self.base, mem: self.mem@ }
    }
}

impl Clone for RamBus {
    /// A copy of the whole region.
    fn clone(&self) -> (r: Self)
        ensures
            r@ == self@,
    {
        let mem: Vec<u8> = self.mem.clone();
        assert(mem@ =~= self.mem@);
        RamBus { base: self.base, mem }
    }
}

impl RamBus {
    /// A zero-filled region of `len` bytes based at `base`.
    pub fn new(base: u32, len: usize) -> (r: Self)
        ensures
            r@ == (RamModel { base, mem: Seq::new(len as nat, |i: int| 0u8) }),
    {
        let mem: Vec<u8> = vec![0; len];
        assert(mem@ =~= Seq::new(len as nat, |i: int| 0u8));
        RamBus { base, mem }
    }

    /// A region initialised from `bytes`, whose length becomes the region size.
    pub fn from_bytes(base: u32, bytes: Vec<u8>) -> (r: Self)
        ensures
            r@ == (RamModel { base, mem: bytes@ }),
    {
        RamBus { base, mem: bytes }
    }

    /// Load a little-endian 32-bit `word` at system `addr`: a set-up helper, not
    /// a bus access.
    pub fn load_word(&mut self, addr: u32, word: u32)
        requires
            old(self)@.covers(addr, Width::Word),
        ensures
            final(self)@ == old(self)@.with_value(addr, Width::Word, word, 0xF),
            final(self)@.value_at(addr, Width::Word) == word,
    {
        let off: usize = (addr - self.base) as usize;
        proof {
            law_load_after_store(
                self.mem@,
                off as int,
                Width::Word,
                word,
                off as int,
                Width::Word,
            );
        }
        le_store(&mut self.mem, off, Width::Word, word, 0xF);
    }

    /// Load a sequence of little-endian words starting at `addr`, for staging a
    /// small program image.
    pub fn load_program(&mut self, addr: u32, words: &[u32])
        requires
            words@.len() > 0 ==> {
                &&& old(self)@.base <= addr
                &&& addr - old(self)@.base + 4 * words@.len() <= old(self)@.mem.len()
                &&& addr + 4 * (words@.len() - 1) <= u32::MAX
            },
        ensures
            final(self)@ == old(self)@.with_program(addr as int, words@),
    {
        let mut i: usize = 0;
        assert(words@.take(0) =~= Seq::<u32>::empty());
        while i < words.len()
            invariant
                i <= words@.len(),
                self@ == old(self)@.with_program(addr as int, words@.take(i as int)),
                self@.base == old(self)@.base,
                self@.mem.len() == old(self)@.mem.len(),
                words@.len() > 0 ==> {
                    &&& old(self)@.base <= addr
                    &&& addr - old(self)@.base + 4 * words@.len() <= old(self)@.mem.len()
                    &&& addr + 4 * (words@.len() - 1) <= u32::MAX
                },
            decreases words@.len() - i,
        {
            let at: u32 = addr + (i as u32) * 4;
            assert(words@.take(i + 1).drop_last() =~= words@.take(i as int));
            self.load_word(at, words[i]);
            i = i + 1;
        }
        assert(words@.take(words@.len() as int) =~= words@);
    }

    /// Resolve a system address and width to an in-bounds local byte range.
    fn range(&self, addr: u32, width: Width) -> (r: Option<core::ops::Range<usize>>)
        ensures
            r is Some <==> self@.covers(addr, width),
            r matches Some(range) ==> {
                &&& range.start == addr - self@.base
                &&& range.end == range.start + width.size()
            },
    {
        let len: usize = self.mem.len();
        let off: usize = match addr.checked_sub(self.base) {
            Some(off) => off as usize,
            None => return None,
        };
        let end: usize = match off.checked_add(width.bytes() as usize) {
            Some(end) => end,
            None => return None,
        };
        if end <= len {
            Some(off..end)
        } else {
            None
        }
    }
}

/// How a RAM that starts at `base` answers a read, and what it then holds.
pub open spec fn ram_reads(
    base: u32,
    state: Seq<Seq<u8>>,
    addr: u32,
    width: Width,
    reply: Result<u32, AxiResp>,
    after: Seq<Seq<u8>>,
) -> bool {
    let ram = RamModel { base, mem: state[0] };
    &&& after == state
    &&& reply == if ram.covers(addr, width) {
        Ok(ram.value_at(addr, width))
    } else {
        Err(AxiResp::DecErr)
    }
}

/// How a RAM that starts at `base` answers a write, and what it then holds.
pub open spec fn ram_writes(
    base: u32,
    state: Seq<Seq<u8>>,
    addr: u32,
    width: Width,
    value: u32,
    strb: u8,
    reply: Result<(), AxiResp>,
    after: Seq<Seq<u8>>,
) -> bool {
    let ram = RamModel { base, mem: state[0] };
    if ram.covers(addr, width) {
        &&& reply == Ok::<(), AxiResp>(())
        &&& after == seq![ram.with_value(addr, width, value, strb).mem]
    } else {
        &&& reply == Err::<(), AxiResp>(AxiResp::DecErr)
        &&& after == state
    }
}

impl RamModel {
    /// The region as a bus: its bytes are the state.
    pub open spec fn as_bus(self) -> BusModel {
        let base = self.base;
        BusModel {
            state: seq![self.mem],
            reads: |
                state: Seq<Seq<u8>>,
                addr: u32,
                width: Width,
                reply: Result<u32, AxiResp>,
                after: Seq<Seq<u8>>,
            | ram_reads(base, state, addr, width, reply, after),
            writes: |
                state: Seq<Seq<u8>>,
                addr: u32,
                width: Width,
                value: u32,
                strb: u8,
                reply: Result<(), AxiResp>,
                after: Seq<Seq<u8>>,
            | ram_writes(base, state, addr, width, value, strb, reply, after),
        }
    }
}

impl Bus for RamBus {
    open spec fn model(&self) -> BusModel {
        self@.as_bus()
    }

    fn read(&mut self, addr: u32, width: Width) -> (reply: Result<u32, AxiResp>)
        ensures
            final(self)@ == old(self)@,
            reply == if old(self)@.covers(addr, width) {
                Ok(old(self)@.value_at(addr, width))
            } else {
                Err(AxiResp::DecErr)
            },
    {
        match self.range(addr, width) {
            Some(range) => Ok(le_load(&self.mem, range.start, width)),
            None => Err(AxiResp::DecErr),
        }
    }

    fn write(&mut self, addr: u32, width: Width, value: u32, strb: u8) -> (reply: Result<
        (),
        AxiResp,
    >)
        ensures
            old(self)@.covers(addr, width) ==> reply is Ok && final(self)@
                == old(self)@.with_value(addr, width, value, strb),
            !old(self)@.covers(addr, width) ==> reply == Err::<(), AxiResp>(AxiResp::DecErr)
                && final(self)@ == old(self)@,
    {
        match self.range(addr, width) {
            Some(range) => {
                le_store(&mut self.mem, range.start, width, value, strb);
                Ok(())
            },
            None => Err(AxiResp::DecErr),
        }
    }
}

/// Two RAMs that behave alike start at the same address.
proof fn lemma_ram_base(one: RamModel, two: RamModel)
    requires
        one.as_bus().reads == two.as_bus().reads,
    ensures
        one.base == two.base,
{
    let state = seq![seq![0u8]];
    let probe: Result<u32, AxiResp> = Ok(loaded(state[0], 0, Width::Byte));
    assert((one.as_bus().reads)(state, one.base, Width::Byte, probe, state));
    assert((two.as_bus().reads)(state, one.base, Width::Byte, probe, state));
}

/// A read of a [`RamBus`] gives the number at the address where the region covers
/// it, and a decode error elsewhere; it changes nothing.
pub proof fn law_ram_read(
    before: RamBus,
    addr: u32,
    width: Width,
    reply: Result<u32, AxiResp>,
    after: RamBus,
)
    requires
        before.model().read_to(addr, width, reply, after.model()),
    ensures
        after@ == before@,
        reply == if before@.covers(addr, width) {
            Ok(before@.value_at(addr, width))
        } else {
            Err(AxiResp::DecErr)
        },
{
    lemma_ram_base(before@, after@);
    assert(before@.as_bus().state[0] == before@.mem);
    assert(after@.as_bus().state[0] == after@.mem);
}

/// A write of a [`RamBus`] stores the enabled bytes where the region covers the
/// access, and is refused with a decode error, without effect, elsewhere. It
/// neither moves nor resizes the region.
pub proof fn law_ram_write(
    before: RamBus,
    addr: u32,
    width: Width,
    value: u32,
    strb: u8,
    reply: Result<(), AxiResp>,
    after: RamBus,
)
    requires
        before.model().written_to(addr, width, value, strb, reply, after.model()),
    ensures
        before@.covers(addr, width) ==> reply == Ok::<(), AxiResp>(()) && after@
            == before@.with_value(addr, width, value, strb),
        !before@.covers(addr, width) ==> reply == Err::<(), AxiResp>(AxiResp::DecErr) && after@
            == before@,
        after@.base == before@.base,
        after@.mem.len() == before@.mem.len(),
{
    lemma_ram_base(before@, after@);
    assert(before@.as_bus().state[0] == before@.mem);
    assert(after@.as_bus().state[0] == after@.mem);
    assert(seq![before@.with_value(addr, width, value, strb).mem][0] == before@.with_value(
        addr,
        width,
        value,
        strb,
    ).mem);
}

/// What is written to a [`RamBus`] is read back: a read after a full-strobe write
/// of the same width gives the low bytes of the value, and a read of other bytes
/// gives what it would have given before.
pub proof fn law_ram_read_after_write(
    before: RamBus,
    addr: u32,
    width: Width,
    value: u32,
    written: Result<(), AxiResp>,
    middle: RamBus,
    other: u32,
    other_width: Width,
    reply: Result<u32, AxiResp>,
    after: RamBus,
)
    requires
        before.model().written_to(addr, width, value, width.strobe(), written, middle.model()),
        middle.model().read_to(other, other_width, reply, after.model()),
        before@.covers(addr, width),
        before@.covers(other, other_width),
    ensures
        written is Ok,
        other == addr && other_width == width ==> reply == Ok::<u32, AxiResp>(
            match width {
                Width::Byte => value % 0x100,
                Width::Half => value % 0x1_0000,
                Width::Word => value,
            },
        ),
        other + other_width.size() <= addr || addr + width.size() <= other ==> reply == Ok::<
            u32,
            AxiResp,
        >(before@.value_at(other, other_width)),
{
    law_ram_write(before, addr, width, value, width.strobe(), written, middle);
    law_ram_read(middle, other, other_width, reply, after);
    law_load_after_store(
        before@.mem,
        addr - before@.base,
        width,
        value,
        other - before@.base,
        other_width,
    );
}

/// After a program is loaded each of its words is read back at its address, and
/// bytes outside the program are as they were.
pub proof fn law_program_is_in_memory(
    ram: RamModel,
    addr: u32,
    words: Seq<u32>,
    i: int,
    k: int,
)
    requires
        ram.base <= addr,
        addr - ram.base + 4 * words.len() <= ram.mem.len(),
        addr + 4 * (words.len() - 1) <= u32::MAX,
        0 <= i < words.len(),
        0 <= k < ram.mem.len(),
    ensures
        ram.with_program(addr as int, words).value_at((addr + 4 * i) as u32, Width::Word)
            == words[i],
        k < addr - ram.base || addr - ram.base + 4 * words.len() <= k ==> ram.with_program(
            addr as int,
            words,
        ).mem[k] == ram.mem[k],
    decreases words.len(),
{
    let rest = words.drop_last();
    let earlier = ram.with_program(addr as int, rest);
    lemma_program_keeps_region(ram, addr as int, rest);
    law_load_after_store(
        earlier.mem,
        addr + 4 * rest.len() - ram.base,
        Width::Word,
        words.last(),
        addr + 4 * i - ram.base,
        Width::Word,
    );
    if i < rest.len() {
        law_program_is_in_memory(ram, addr, rest, i, k);
    } else if rest.len() > 0 {
        law_program_is_in_memory(ram, addr, rest, 0, k);
    }
}

/// Loading a program neither moves nor resizes the region.
proof fn lemma_program_keeps_region(ram: RamModel, addr: int, words: Seq<u32>)
    ensures
        ram.with_program(addr, words).base == ram.base,
        ram.with_program(addr, words).mem.len() == ram.mem.len(),
    decreases words.len(),
{
    if words.len() > 0 {
        lemma_program_keeps_region(ram, addr, words.drop_last());
    }
}

/// The three widths: their sizes, their byte enables, and the multiples that they are
/// aligned at.
pub proof fn law_widths(addr: u32)
    ensures
        Width::Byte.size() == 1 && Width::Half.size() == 2 && Width::Word.size() == 4,
        Width::Byte.strobe() == 0x1 && Width::Half.strobe() == 0x3 && Width::Word.strobe() == 0xF,
        Width::Byte.aligned(addr),
        Width::Half.aligned(addr) <==> addr % 2 == 0,
        Width::Word.aligned(addr) <==> addr % 4 == 0,
{
}

/// The tags of the responses.
pub proof fn law_response_tags()
    ensures
        AxiResp::Okay.tag() == "OKAY"@,
        AxiResp::ExOkay.tag() == "EXOKAY"@,
        AxiResp::SlvErr.tag() == "SLVERR"@,
        AxiResp::DecErr.tag() == "DECERR"@,
{
}

/// A read of memory is the little-endian number of its bytes.
pub proof fn law_loaded_bytes(mem: Seq<u8>, off: int)
    requires
        0 <= off,
    ensures
        off + 1 <= mem.len() ==> loaded(mem, off, Width::Byte) == mem[off],
        off + 2 <= mem.len() ==> loaded(mem, off, Width::Half) == mem[off] + 0x100 * mem[off + 1],
        off + 4 <= mem.len() ==> loaded(mem, off, Width::Word) == mem[off] + 0x100 * mem[off + 1]
            + 0x1_0000 * mem[off + 2] + 0x100_0000 * mem[off + 3],
{
    if off + 1 <= mem.len() {
        lemma_loaded(mem, off, Width::Byte);
    }
    if off + 2 <= mem.len() {
        lemma_loaded(mem, off, Width::Half);
    }
    if off + 4 <= mem.len() {
        lemma_loaded(mem, off, Width::Word);
    }
}

/// A write of memory changes the bytes of its range that its byte enable has a bit for,
/// to the value's bytes in little-endian order, and no other.
pub proof fn law_stored_bytes(mem: Seq<u8>, off: int, width: Width, value: u32, strb: u8, k: int)
    requires
        0 <= off,
        0 <= k < mem.len(),
    ensures
        ({
            let after = stored(mem, off, width, value, strb);
            let size = match width {
                Width::Byte => 1int,
                Width::Half => 2,
                Width::Word => 4,
            };
            &&& after.len() == mem.len()
            &&& !(off <= k < off + size) ==> after[k] == mem[k]
            &&& k == off ==> after[k] == if strb & 1 != 0 {
                value as int % 0x100
            } else {
                mem[k] as int
            }
            &&& k == off + 1 && size >= 2 ==> after[k] == if strb & 2 != 0 {
                value as int / 0x100 % 0x100
            } else {
                mem[k] as int
            }
            &&& k == off + 2 && size == 4 ==> after[k] == if strb & 4 != 0 {
                value as int / 0x1_0000 % 0x100
            } else {
                mem[k] as int
            }
            &&& k == off + 3 && size == 4 ==> after[k] == if strb & 8 != 0 {
                value as int / 0x100_0000
            } else {
                mem[k] as int
            }
        }),
{
    assert((strb & 1 != 0) == (strb % 2 == 1) && (strb & 2 != 0) == (strb / 2 % 2 == 1) && (strb & 4
        != 0) == (strb / 4 % 2 == 1) && (strb & 8 != 0) == (strb / 8 % 2 == 1)) by (bit_vector);
}

/// What a [`RamBus`] answers, by addresses and bytes: it takes an access that lies in
/// its region, the last byte of it included, and answers any other with a decode error,
/// without effect.
pub proof fn law_ram_region(
    before: RamBus,
    addr: u32,
    width: Width,
    value: u32,
    strb: u8,
    read: Result<u32, AxiResp>,
    written: Result<(), AxiResp>,
    after: RamBus,
)
    ensures
        ({
            let ram = before@;
            let size = match width {
                Width::Byte => 1int,
                Width::Half => 2,
                Width::Word => 4,
            };
            let inside = ram.base <= addr && addr - ram.base + size <= ram.mem.len();
            &&& before.model().read_to(addr, width, read, after.model()) ==> after@ == ram && read
                == if inside {
                Ok(loaded(ram.mem, addr - ram.base, width))
            } else {
                Err(AxiResp::DecErr)
            }
            &&& before.model().written_to(addr, width, value, strb, written, after.model()) ==> {
                &&& after@.base == ram.base
                &&& inside ==> written is Ok && after@.mem == stored(
                    ram.mem,
                    addr - ram.base,
                    width,
                    value,
                    strb,
                )
                &&& !inside ==> written == Err::<(), AxiResp>(AxiResp::DecErr) && after@.mem
                    == ram.mem
            }
        }),
{
    if before.model().read_to(addr, width, read, after.model()) {
        law_ram_read(before, addr, width, read, after);
    }
    if before.model().written_to(addr, width, value, strb, written, after.model()) {
        law_ram_write(before, addr, width, value, strb, written, after);
    }
}

/// A loaded program lies in memory word after word, each in little-endian order.
pub proof fn law_program_bytes(ram: RamModel, addr: u32, words: Seq<u32>, i: int)
    requires
        ram.base <= addr,
        addr - ram.base + 4 * words.len() <= ram.mem.len(),
        addr + 4 * (words.len() - 1) <= u32::MAX,
        0 <= i < words.len(),
    ensures
        ({
            let after = ram.with_program(addr as int, words);
            let off = addr - ram.base + 4 * i;
            &&& after.base == ram.base
            &&& after.mem.len() == ram.mem.len()
            &&& words[i] == after.mem[off] + 0x100 * after.mem[off + 1] + 0x1_0000 * after.mem[off
                + 2] + 0x100_0000 * after.mem[off + 3]
        }),
{
    let after = ram.with_program(addr as int, words);
    lemma_program_keeps_region(ram, addr as int, words);
    law_program_is_in_memory(ram, addr, words, i, 0);
    lemma_loaded(after.mem, addr - ram.base + 4 * i, Width::Word);
}

} // verus!

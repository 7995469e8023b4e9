//! Device-dispatch bus: a registry of memory-mapped devices by address range.
//!
//! [`MmioDevice`] is the trait a memory-mapped subordinate implements, using a
//! *device-relative* offset. [`DeviceBus`] owns a set of units, each a range and a
//! device, and implements [`Bus`] by locating the covering unit and forwarding the
//! access with the base subtracted. Overlap is rejected at registration
//! ([`DeviceBus::add`]), and an unmapped address yields [`AxiResp::DecErr`].

use core::ops::Range;
use vstd::prelude::*;

use crate::bus::{le_load, le_store, AxiResp, Bus, BusModel, Width};

verus! {

/// A device as a state and the way it answers accesses. The state is whatever the
/// device holds, as bytes; the two relations are fixed for the device's lifetime.
pub struct DeviceModel {
    pub state: Seq<u8>,
    /// Whether, in a state, a read at an offset may give a reply and leave a state.
    pub reads: spec_fn(Seq<u8>, u32, Width, Result<u32, AxiResp>, Seq<u8>) -> bool,
    /// Whether, in a state, a write of a value at an offset under a byte enable may
    /// give a reply and leave a state.
    pub writes: spec_fn(Seq<u8>, u32, Width, u32, u8, Result<(), AxiResp>, Seq<u8>) -> bool,
}

impl DeviceModel {
    /// A device of which nothing is said.
    pub open spec fn unknown() -> DeviceModel {
        DeviceModel {
            state: Seq::empty(),
            reads: |
                state: Seq<u8>,
                offset: u32,
                width: Width,
                reply: Result<u32, AxiResp>,
                after: Seq<u8>,
            | true,
            writes: |
                state: Seq<u8>,
                offset: u32,
                width: Width,
                value: u32,
                strb: u8,
                reply: Result<(), AxiResp>,
                after: Seq<u8>,
            | true,
        }
    }

    /// The same device in another state.
    pub open spec fn in_state(self, state: Seq<u8>) -> DeviceModel {
        DeviceModel { state, ..self }
    }

    /// Whether a read may give `reply` and leave `after`.
    pub open spec fn read_to(
        self,
        offset: u32,
        width: Width,
        reply: Result<u32, AxiResp>,
        after: DeviceModel,
    ) -> bool {
        &&& after == self.in_state(after.state)
        &&& (self.reads)(self.state, offset, width, reply, after.state)
        &&& reply != Err::<u32, AxiResp>(AxiResp::DecErr)
    }

    /// Whether a write may give `reply` and leave `after`.
    pub open spec fn written_to(
        self,
        offset: u32,
        width: Width,
        value: u32,
        strb: u8,
        reply: Result<(), AxiResp>,
        after: DeviceModel,
    ) -> bool {
        &&& after == self.in_state(after.state)
        &&& (self.writes)(self.state, offset, width, value, strb, reply, after.state)
        &&& reply != Err::<(), AxiResp>(AxiResp::DecErr)
    }
}

/// A memory-mapped subordinate, addressed by an offset relative to its base.
///
/// Subordinates never return [`AxiResp::DecErr`]: that is fabric-only and is
/// synthesised by [`DeviceBus`]. A subordinate returns [`AxiResp::SlvErr`] for a
/// register-level error (write to a read-only register, bad width or strobe, or
/// an offset outside any defined sub-region).
pub trait MmioDevice {
    /// The device's state and behaviour. A device that does not say may answer
    /// anything.
    open spec fn model(&self) -> DeviceModel {
        DeviceModel::unknown()
    }

    /// Read `width` bytes at device-relative `offset`.
    fn read(&mut self, offset: u32, width: Width) -> (reply: Result<u32, AxiResp>)
        ensures
            old(self).model().read_to(offset, width, reply, final(self).model()),
    ;

    /// Write the low `width` bytes of `value` at `offset` under `strb`.
    fn write(&mut self, offset: u32, width: Width, value: u32, strb: u8) -> (reply: Result<
        (),
        AxiResp,
    >)
        ensures
            old(self).model().written_to(offset, width, value, strb, reply, final(self).model()),
    ;
}

/// Why a [`DeviceBus::add`] registration was rejected.
#[derive(Copy, Clone, Debug, PartialEq, Eq, Structural)]
pub enum AddError {
    /// `size == 0`, or `base + size` overflows the 32-bit address space.
    BadRange,
    /// The requested range overlaps an already-registered unit.
    Overlap,
}

/// A device of type `D` over the addresses `[start, end)`.
struct Unit<D> {
    start: u32,
    end: u32,
    device: D,
}

impl<D: MmioDevice + ?Sized> Unit<Box<D>> {
    spec fn model(self) -> UnitModel {
        UnitModel { start: self.start, end: self.end, device: self.device.model() }
    }
}

/// What a unit of a [`DeviceBus`] holds.
pub struct UnitModel {
    pub start: u32,
    pub end: u32,
    pub device: DeviceModel,
}

impl UnitModel {
    /// Whether the unit holds all `width` bytes at `addr`.
    pub open spec fn covers(self, addr: u32, width: Width) -> bool {
        self.start <= addr && addr + width.size() <= self.end
    }

    /// Whether the unit and `[start, end)` share an address.
    pub open spec fn meets(self, start: int, end: int) -> bool {
        self.start < end && start < self.end
    }
}

/// What every [`DeviceBus`] keeps: no unit is empty, and no two share an address.
pub open spec fn well_mapped(units: Seq<UnitModel>) -> bool {
    &&& forall|i: int| 0 <= i < units.len() ==> (#[trigger] units[i]).start < units[i].end
    &&& forall|i: int, j: int|
        0 <= i < units.len() && 0 <= j < units.len() && i != j ==> !(#[trigger] units[i]).meets(
            (#[trigger] units[j]).start as int,
            units[j].end as int,
        )
}

/// Whether some unit holds all `width` bytes at `addr`.
pub open spec fn mapped(units: Seq<UnitModel>, addr: u32, width: Width) -> bool {
    exists|i: int| 0 <= i < units.len() && (#[trigger] units[i]).covers(addr, width)
}

/// The unit that holds all `width` bytes at `addr`.
pub open spec fn unit_at(units: Seq<UnitModel>, addr: u32, width: Width) -> int {
    choose|i: int| 0 <= i < units.len() && (#[trigger] units[i]).covers(addr, width)
}

/// Whether some unit shares an address with `[start, end)`.
pub open spec fn overlaps(units: Seq<UnitModel>, start: int, end: int) -> bool {
    exists|i: int| 0 <= i < units.len() && (#[trigger] units[i]).meets(start, end)
}

/// What registering `device` over `[base, base + size)` answers and leaves: a bad
/// range and an overlap are rejected, and change nothing; otherwise the unit is
/// added.
pub open spec fn added(
    units: Seq<UnitModel>,
    base: u32,
    size: u32,
    device: DeviceModel,
    r: Result<(), AddError>,
    after: Seq<UnitModel>,
) -> bool {
    if size == 0 || base + size > u32::MAX {
        r == Err::<(), AddError>(AddError::BadRange) && after == units
    } else if overlaps(units, base as int, base + size) {
        r == Err::<(), AddError>(AddError::Overlap) && after == units
    } else {
        let n = units.len() as int;
        &&& r is Ok
        &&& after.len() == n + 1
        &&& forall|i: int| 0 <= i < n ==> #[trigger] after[i] == units[i]
        &&& after[n].start == base && after[n].end == base + size && after[n].device == device
    }
}

/// What a read answers and leaves: the unit that holds all bytes of the access
/// answers it at the offset from its start; an access that no unit holds is a
/// decode error and changes nothing.
pub open spec fn dispatched_read(
    units: Seq<UnitModel>,
    addr: u32,
    width: Width,
    reply: Result<u32, AxiResp>,
    after: Seq<UnitModel>,
) -> bool {
    if mapped(units, addr, width) {
        let i = unit_at(units, addr, width);
        &&& after == units.update(i, UnitModel { device: after[i].device, ..units[i] })
        &&& units[i].device.read_to(
            (addr - units[i].start) as u32,
            width,
            reply,
            after[i].device,
        )
    } else {
        after == units && reply == Err::<u32, AxiResp>(AxiResp::DecErr)
    }
}

/// What a write answers and leaves, dispatched like a read.
pub open spec fn dispatched_write(
    units: Seq<UnitModel>,
    addr: u32,
    width: Width,
    value: u32,
    strb: u8,
    reply: Result<(), AxiResp>,
    after: Seq<UnitModel>,
) -> bool {
    if mapped(units, addr, width) {
        let i = unit_at(units, addr, width);
        &&& after == units.update(i, UnitModel { device: after[i].device, ..units[i] })
        &&& units[i].device.written_to(
            (addr - units[i].start) as u32,
            width,
            value,
            strb,
            reply,
            after[i].device,
        )
    } else {
        after == units && reply == Err::<(), AxiResp>(AxiResp::DecErr)
    }
}

/// Units of boxed devices of type `D`, dispatched by address range.
struct Registry<D: MmioDevice + ?Sized> {
    units: Vec<Unit<Box<D>>>,
}

spec fn unit_models<D: MmioDevice + ?Sized>(units: Seq<Unit<Box<D>>>) -> Seq<UnitModel> {
    Seq::new(units.len(), |i: int| units[i].model())
}

impl<D: MmioDevice + ?Sized> View for Registry<D> {
    type V = Seq<UnitModel>;

    closed spec fn view(&self) -> Seq<UnitModel> {
        unit_models(self.units@)
    }
}

impl<D: MmioDevice + ?Sized> Registry<D> {
    #[verifier::type_invariant]
    spec fn inv(self) -> bool {
        well_mapped(self@)
    }

    fn new() -> (r: Self)
        ensures
            r@ == Seq::<UnitModel>::empty(),
    {
        let units: Vec<Unit<Box<D>>> = Vec::new();
        assert(unit_models(units@) =~= Seq::<UnitModel>::empty());
        Registry { units }
    }

    /// Insert `unit` unless it overlaps one that is there.
    fn insert(&mut self, unit: Unit<Box<D>>) -> (r: bool)
        requires
            unit.start < unit.end,
        ensures
            r == !overlaps(old(self)@, unit.start as int, unit.end as int),
            final(self)@ == if r {
                old(self)@.push(unit.model())
            } else {
                old(self)@
            },
            well_mapped(final(self)@),
    {
        proof {
            use_type_invariant(&*self);
        }
        let new = unit.start..unit.end;
        let mut i: usize = 0;
        while i < self.units.len()
            invariant
                i <= self.units@.len(),
                *self == *old(self),
                new.start == unit.start,
                new.end == unit.end,
                well_mapped(self@),
                forall|k: int|
                    0 <= k < i ==> !(#[trigger] self@[k]).meets(unit.start as int, unit.end as int),
            decreases self.units@.len() - i,
        {
            let range = self.units[i].start..self.units[i].end;
            if ranges_overlap(&range, &new) {
                assert(self@[i as int].meets(unit.start as int, unit.end as int));
                return false;
            }
            i = i + 1;
        }
        let mut units: Vec<Unit<Box<D>>> = Vec::new();
        core::mem::swap(&mut units, &mut self.units);
        units.push(unit);
        assert(unit_models(units@) =~= old(self)@.push(unit.model()));
        self.units = units;
        true
    }

    /// Locate the unit owning `[addr, addr + width)`, if any. An access that
    /// starts inside a unit but extends past its end is treated as unmapped (no
    /// straddling across the fabric boundary).
    fn unit_for(&self, addr: u32, width: Width) -> (r: Option<usize>)
        ensures
            r is Some <==> mapped(self@, addr, width),
            r matches Some(i) ==> i < self@.len() && self@[i as int].covers(addr, width) && i
                == unit_at(self@, addr, width),
    {
        proof {
            use_type_invariant(self);
        }
        let end: u32 = match addr.checked_add(width.bytes()) {
            Some(end) => end,
            None => return None,
        };
        let mut i: usize = 0;
        while i < self.units.len()
            invariant
                i <= self.units@.len(),
                end == addr + width.size(),
                well_mapped(self@),
                forall|k: int| 0 <= k < i ==> !(#[trigger] self@[k]).covers(addr, width),
            decreases self.units@.len() - i,
        {
            if self.units[i].start <= addr && end <= self.units[i].end {
                assert(self@[i as int].covers(addr, width));
                assert(self@[unit_at(self@, addr, width)].covers(addr, width));
                return Some(i);
            }
            i = i + 1;
        }
        None
    }

    fn read(&mut self, addr: u32, width: Width) -> (reply: Result<u32, AxiResp>)
        ensures
            dispatched_read(old(self)@, addr, width, reply, final(self)@),
            well_mapped(old(self)@),
            well_mapped(final(self)@),
    {
        proof {
            use_type_invariant(&*self);
        }
        match self.unit_for(addr, width) {
            Some(i) => {
                let offset: u32 = addr - self.units[i].start;
                let mut units: Vec<Unit<Box<D>>> = Vec::new();
                core::mem::swap(&mut units, &mut self.units);
                let reply = units[i].device.read(offset, width);
                proof {
                    let after = unit_models(units@);
                    let device = after[i as int].device;
                    assert(after =~= old(self)@.update(
                        i as int,
                        UnitModel { device, ..old(self)@[i as int] },
                    ));
                }
                self.units = units;
                reply
            },
            None => Err(AxiResp::DecErr),
        }
    }

    fn write(&mut self, addr: u32, width: Width, value: u32, strb: u8) -> (reply: Result<
        (),
        AxiResp,
    >)
        ensures
            dispatched_write(old(self)@, addr, width, value, strb, reply, final(self)@),
            well_mapped(old(self)@),
            well_mapped(final(self)@),
    {
        proof {
            use_type_invariant(&*self);
        }
        match self.unit_for(addr, width) {
            Some(i) => {
                let offset: u32 = addr - self.units[i].start;
                let mut units: Vec<Unit<Box<D>>> = Vec::new();
                core::mem::swap(&mut units, &mut self.units);
                let reply = units[i].device.write(offset, width, value, strb);
                proof {
                    let after = unit_models(units@);
                    let device = after[i as int].device;
                    assert(after =~= old(self)@.update(
                        i as int,
                        UnitModel { device, ..old(self)@[i as int] },
                    ));
                }
                self.units = units;
                reply
            },
            None => Err(AxiResp::DecErr),
        }
    }
}

/// Half-open `[start, end)` intersection test.
fn ranges_overlap(a: &Range<u32>, b: &Range<u32>) -> (r: bool)
    ensures
        r == (a.start < b.end && b.start < a.end),
{
    a.start < b.end && b.start < a.end
}

/// A registry of [`MmioDevice`]s dispatched by address range. The bus owns its
/// boxed devices.
pub struct DeviceBus {
    registry: Registry<dyn MmioDevice>,
}

impl View for DeviceBus {
    type V = Seq<UnitModel>;

    closed spec fn view(&self) -> Seq<UnitModel> {
        self.registry@
    }
}

impl DeviceBus {
    /// An empty registry.
    pub fn new() -> (r: Self)
        ensures
            r@ == Seq::<UnitModel>::empty(),
            well_mapped(r@),
    {
        DeviceBus { registry: Registry::new() }
    }

    /// Register `device` over `[base, base + size)`.
    ///
    /// Returns [`AddError::BadRange`] for a zero or overflowing range and
    /// [`AddError::Overlap`] if it intersects an existing unit. Registration
    /// order does not affect dispatch.
    pub fn add(&mut self, base: u32, size: u32, device: Box<dyn MmioDevice>) -> (r: Result<
        (),
        AddError,
    >)
        ensures
            added(old(self)@, base, size, device.model(), r, final(self)@),
            well_mapped(old(self)@),
            well_mapped(final(self)@),
    {
        proof {
            use_type_invariant(&self.registry);
        }
        let end: u32 = match base.checked_add(size) {
            Some(end) => end,
            None => return Err(AddError::BadRange),
        };
        if size == 0 {
            return Err(AddError::BadRange);
        }
        let unit = Unit { start: base, end, device };
        assert(unit.model() == (UnitModel { start: base, end, device: device.model() }));
        if self.registry.insert(unit) {
            Ok(())
        } else {
            Err(AddError::Overlap)
        }
    }
}

impl Default for DeviceBus {
    /// An empty registry.
    fn default() -> (r: Self)
        ensures
            r@ == Seq::<UnitModel>::empty(),
            well_mapped(r@),
    {
        DeviceBus::new()
    }
}

/// The states of the devices of all units.
pub open spec fn states_of(units: Seq<UnitModel>) -> Seq<Seq<u8>> {
    Seq::new(units.len(), |i: int| units[i].device.state)
}

/// The same units with their devices in other states.
pub open spec fn in_states(units: Seq<UnitModel>, states: Seq<Seq<u8>>) -> Seq<UnitModel> {
    Seq::new(
        units.len(),
        |i: int| UnitModel { device: units[i].device.in_state(states[i]), ..units[i] },
    )
}

/// The units without regard to the states of their devices.
pub open spec fn wiring(units: Seq<UnitModel>) -> Seq<UnitModel> {
    in_states(units, Seq::new(units.len(), |i: int| Seq::<u8>::empty()))
}

/// A registry as a bus: the states of its devices are the state.
pub open spec fn as_bus(units: Seq<UnitModel>) -> BusModel {
    let wired = wiring(units);
    BusModel {
        state: states_of(units),
        reads: |
            state: Seq<Seq<u8>>,
            addr: u32,
            width: Width,
            reply: Result<u32, AxiResp>,
            after: Seq<Seq<u8>>,
        | dispatched_read(in_states(wired, state), addr, width, reply, in_states(wired, after)),
        writes: |
            state: Seq<Seq<u8>>,
            addr: u32,
            width: Width,
            value: u32,
            strb: u8,
            reply: Result<(), AxiResp>,
            after: Seq<Seq<u8>>,
        |
            dispatched_write(
                in_states(wired, state),
                addr,
                width,
                value,
                strb,
                reply,
                in_states(wired, after),
            ),
    }
}

/// Units that differ in the states of their devices alone are the same bus in
/// another state.
proof fn lemma_same_bus(before: Seq<UnitModel>, after: Seq<UnitModel>)
    requires
        after.len() == before.len(),
        forall|i: int|
            0 <= i < before.len() ==> #[trigger] after[i] == (UnitModel {
                device: before[i].device.in_state(after[i].device.state),
                ..before[i]
            }),
    ensures
        as_bus(after) == as_bus(before).in_state(states_of(after)),
        in_states(wiring(before), states_of(before)) == before,
        in_states(wiring(before), states_of(after)) == after,
{
    assert(wiring(after) =~= wiring(before));
    assert(in_states(wiring(before), states_of(before)) =~= before);
    assert(in_states(wiring(before), states_of(after)) =~= after);
}

impl Bus for DeviceBus {
    open spec fn model(&self) -> BusModel {
        as_bus(self@)
    }

    fn read(&mut self, addr: u32, width: Width) -> (reply: Result<u32, AxiResp>)
        ensures
            dispatched_read(old(self)@, addr, width, reply, final(self)@),
            well_mapped(old(self)@),
            well_mapped(final(self)@),
    {
        let reply = self.registry.read(addr, width);
        proof {
            lemma_same_bus(old(self)@, self@);
        }
        reply
    }

    fn write(&mut self, addr: u32, width: Width, value: u32, strb: u8) -> (reply: Result<
        (),
        AxiResp,
    >)
        ensures
            dispatched_write(old(self)@, addr, width, value, strb, reply, final(self)@),
            well_mapped(old(self)@),
            well_mapped(final(self)@),
    {
        let reply = self.registry.write(addr, width, value, strb);
        proof {
            lemma_same_bus(old(self)@, self@);
        }
        reply
    }
}

/// What a core sees of a [`DeviceBus`] is the dispatch: an access answers as the
/// units do, and leaves them wired as they are, with their devices in the states
/// of the bus afterwards.
pub proof fn law_device_bus_dispatches(
    before: DeviceBus,
    addr: u32,
    width: Width,
    value: u32,
    strb: u8,
    read: Result<u32, AxiResp>,
    written: Result<(), AxiResp>,
    after: DeviceBus,
)
    ensures
        before.model().read_to(addr, width, read, after.model()) ==> dispatched_read(
            before@,
            addr,
            width,
            read,
            in_states(before@, states_of(after@)),
        ),
        before.model().written_to(addr, width, value, strb, written, after.model())
            ==> dispatched_write(
            before@,
            addr,
            width,
            value,
            strb,
            written,
            in_states(before@, states_of(after@)),
        ),
{
    lemma_same_bus(before@, before@);
    assert(in_states(wiring(before@), states_of(after@)) =~= in_states(
        before@,
        states_of(after@),
    ));
}

/// A flat little-endian RAM as an [`MmioDevice`]: the simplest subordinate, for
/// composing memory regions into a [`DeviceBus`]. An access that does not lie in
/// it is [`AxiResp::SlvErr`].
pub struct Ram {
    mem: Vec<u8>,
}

impl View for Ram {
    type V = Seq<u8>;

    closed spec fn view(&self) -> Seq<u8> {
        self.mem@
    }
}

impl Ram {
    /// A zero-filled RAM of `len` bytes.
    pub fn new(len: usize) -> (r: Self)
        ensures
            r@ == Seq::new(len as nat, |i: int| 0u8),
            r.model() == ram_model(r@),
    {
        let mem: Vec<u8> = vec![0; len];
        assert(mem@ =~= Seq::new(len as nat, |i: int| 0u8));
        Ram { mem }
    }

    /// A RAM initialised from `bytes`.
    pub fn from_bytes(bytes: Vec<u8>) -> (r: Self)
        ensures
            r@ == bytes@,
            r.model() == ram_model(r@),
    {
        Ram { mem: bytes }
    }

    fn range(&self, offset: u32, width: Width) -> (r: Option<Range<usize>>)
        ensures
            r is Some <==> offset + width.size() <= self@.len(),
            r matches Some(range) ==> range.start == offset && range.end == offset + width.size(),
    {
        let len: usize = self.mem.len();
        let off: usize = offset as usize;
        let end: usize = match off.checked_add(width.bytes() as usize) {
            Some(end) => end,
            None => return None,
        };
        if end <= len {
            Some(off..end)
        } else {
            None
        }
    }
}

/// How a RAM that holds `mem` behaves.
pub open spec fn ram_model(mem: Seq<u8>) -> DeviceModel {
    DeviceModel {
        state: mem,
        reads: |
            mem: Seq<u8>,
            offset: u32,
            width: Width,
            reply: Result<u32, AxiResp>,
            after: Seq<u8>,
        | ram_reads(mem, offset, width, reply, after),
        writes: |
            mem: Seq<u8>,
            offset: u32,
            width: Width,
            value: u32,
            strb: u8,
            reply: Result<(), AxiResp>,
            after: Seq<u8>,
        | ram_writes(mem, offset, width, value, strb, reply, after),
    }
}

/// A read of a RAM gives the number that its bytes hold, and changes nothing.
pub open spec fn ram_reads(
    mem: Seq<u8>,
    offset: u32,
    width: Width,
    reply: Result<u32, AxiResp>,
    after: Seq<u8>,
) -> bool {
    &&& after == mem
    &&& reply == if offset + width.size() <= mem.len() {
        Ok(crate::bus::loaded(mem, offset as int, width))
    } else {
        Err(AxiResp::SlvErr)
    }
}

/// A write of a RAM stores the enabled bytes, or nothing if it does not fit.
pub open spec fn ram_writes(
    mem: Seq<u8>,
    offset: u32,
    width: Width,
    value: u32,
    strb: u8,
    reply: Result<(), AxiResp>,
    after: Seq<u8>,
) -> bool {
    if offset + width.size() <= mem.len() {
        &&& after == crate::bus::stored(mem, offset as int, width, value, strb)
        &&& reply == Ok::<(), AxiResp>(())
    } else {
        &&& after == mem
        &&& reply == Err::<(), AxiResp>(AxiResp::SlvErr)
    }
}

impl MmioDevice for Ram {
    open spec fn model(&self) -> DeviceModel {
        ram_model(self@)
    }

    fn read(&mut self, offset: u32, width: Width) -> (reply: Result<u32, AxiResp>) {
        match self.range(offset, width) {
            Some(range) => Ok(le_load(&self.mem, range.start, width)),
            None => Err(AxiResp::SlvErr),
        }
    }

    fn write(&mut self, offset: u32, width: Width, value: u32, strb: u8) -> (reply: Result<
        (),
        AxiResp,
    >) {
        match self.range(offset, width) {
            Some(range) => {
                le_store(&mut self.mem, range.start, width, value, strb);
                Ok(())
            },
            None => Err(AxiResp::SlvErr),
        }
    }
}

/// Registrations and accesses keep the units apart: no unit is empty and no two
/// share an address.
pub proof fn law_units_stay_apart(
    units: Seq<UnitModel>,
    base: u32,
    size: u32,
    device: DeviceModel,
    r: Result<(), AddError>,
    after: Seq<UnitModel>,
)
    requires
        well_mapped(units),
        added(units, base, size, device, r, after),
    ensures
        well_mapped(after),
        well_mapped(Seq::empty()),
{
}

/// A read leaves the ranges of all units as they are, and all devices but the one
/// that answers it; it is a decode error exactly where no unit holds it.
pub proof fn law_read_touches_one_unit(
    units: Seq<UnitModel>,
    addr: u32,
    width: Width,
    reply: Result<u32, AxiResp>,
    after: Seq<UnitModel>,
    i: int,
)
    requires
        well_mapped(units),
        dispatched_read(units, addr, width, reply, after),
        0 <= i < units.len(),
    ensures
        well_mapped(after),
        after.len() == units.len(),
        after[i].start == units[i].start,
        after[i].end == units[i].end,
        !units[i].covers(addr, width) ==> after[i] == units[i],
        reply == Err::<u32, AxiResp>(AxiResp::DecErr) <==> !mapped(units, addr, width),
{
    if mapped(units, addr, width) {
        assert(units[unit_at(units, addr, width)].covers(addr, width));
    }
}

/// A write leaves the ranges of all units as they are, and all devices but the one
/// that answers it; it is a decode error exactly where no unit holds it.
pub proof fn law_write_touches_one_unit(
    units: Seq<UnitModel>,
    addr: u32,
    width: Width,
    value: u32,
    strb: u8,
    reply: Result<(), AxiResp>,
    after: Seq<UnitModel>,
    i: int,
)
    requires
        well_mapped(units),
        dispatched_write(units, addr, width, value, strb, reply, after),
        0 <= i < units.len(),
    ensures
        well_mapped(after),
        after.len() == units.len(),
        after[i].start == units[i].start,
        after[i].end == units[i].end,
        !units[i].covers(addr, width) ==> after[i] == units[i],
        reply == Err::<(), AxiResp>(AxiResp::DecErr) <==> !mapped(units, addr, width),
{
    if mapped(units, addr, width) {
        assert(units[unit_at(units, addr, width)].covers(addr, width));
    }
}

/// At most one unit holds an access, and that is the one that answers it.
pub proof fn law_one_unit_answers(units: Seq<UnitModel>, addr: u32, width: Width, i: int)
    requires
        well_mapped(units),
        0 <= i < units.len(),
        units[i].covers(addr, width),
    ensures
        mapped(units, addr, width),
        unit_at(units, addr, width) == i,
{
    assert(units[unit_at(units, addr, width)].covers(addr, width));
}

/// The order of registration does not affect dispatch: where two registries hold
/// the same units, an access is mapped in both or in neither, and the same unit
/// answers it.
pub proof fn law_registration_order_does_not_matter(
    one: Seq<UnitModel>,
    two: Seq<UnitModel>,
    addr: u32,
    width: Width,
)
    requires
        well_mapped(one),
        well_mapped(two),
        one.to_multiset() =~= two.to_multiset(),
    ensures
        mapped(one, addr, width) == mapped(two, addr, width),
        mapped(one, addr, width) ==> one[unit_at(one, addr, width)] == two[unit_at(
            two,
            addr,
            width,
        )],
{
    broadcast use vstd::seq_lib::group_to_multiset_ensures;

    if mapped(one, addr, width) {
        let i = unit_at(one, addr, width);
        assert(one[i].covers(addr, width));
        assert(one.contains(one[i]));
        assert(two.to_multiset().count(one[i]) > 0);
        assert(two.contains(one[i]));
        let j = choose|j: int| 0 <= j < two.len() && two[j] == one[i];
        law_one_unit_answers(two, addr, width, j);
    }
    if mapped(two, addr, width) {
        let i = unit_at(two, addr, width);
        assert(two[i].covers(addr, width));
        assert(two.contains(two[i]));
        assert(one.to_multiset().count(two[i]) > 0);
        assert(one.contains(two[i]));
        let j = choose|j: int| 0 <= j < one.len() && one[j] == two[i];
        law_one_unit_answers(one, addr, width, j);
    }
}

/// What is written through the bus to a RAM is read back through the bus, at the
/// offset from the RAM's base; an access past the RAM's own bytes is refused by
/// the RAM.
pub proof fn law_ram_behind_the_bus(
    units: Seq<UnitModel>,
    i: int,
    mem: Seq<u8>,
    addr: u32,
    width: Width,
    value: u32,
    written: Result<(), AxiResp>,
    middle: Seq<UnitModel>,
    reply: Result<u32, AxiResp>,
    after: Seq<UnitModel>,
)
    requires
        well_mapped(units),
        0 <= i < units.len(),
        units[i].device == ram_model(mem),
        units[i].covers(addr, width),
        dispatched_write(units, addr, width, value, width.strobe(), written, middle),
        dispatched_read(middle, addr, width, reply, after),
    ensures
        ({
            let offset = addr - units[i].start;
            if offset + width.size() <= mem.len() {
                &&& written is Ok
                &&& reply == Ok::<u32, AxiResp>(
                    match width {
                        Width::Byte => value % 0x100,
                        Width::Half => value % 0x1_0000,
                        Width::Word => value,
                    },
                )
                &&& after[i].device == ram_model(
                    crate::bus::stored(mem, offset, width, value, width.strobe()),
                )
            } else {
                &&& written == Err::<(), AxiResp>(AxiResp::SlvErr)
                &&& reply == Err::<u32, AxiResp>(AxiResp::SlvErr)
                &&& after == units
            }
        }),
{
    let offset = addr - units[i].start;
    law_one_unit_answers(units, addr, width, i);
    law_write_touches_one_unit(units, addr, width, value, width.strobe(), written, middle, i);
    law_one_unit_answers(middle, addr, width, i);
    if offset + width.size() <= mem.len() {
        crate::bus::law_load_after_store(mem, offset, width, value, offset, width);
    } else {
        assert(middle =~= units);
        assert(after =~= units);
    }
}

/// When a registration is rejected: an empty range or one that reaches past the last
/// address but one is a bad range, and one that shares an address with a unit an
/// overlap. Either changes nothing; any other adds one unit, behind those that are
/// there.
pub proof fn law_registration(
    units: Seq<UnitModel>,
    base: u32,
    size: u32,
    device: DeviceModel,
    r: Result<(), AddError>,
    after: Seq<UnitModel>,
    k: int,
)
    requires
        added(units, base, size, device, r, after),
    ensures
        ({
            let bad = size == 0 || base + size > 0xFFFF_FFFF;
            let shared = exists|i: int|
                0 <= i < units.len() && (#[trigger] units[i]).start < base + size && base
                    < units[i].end;
            &&& bad ==> r == Err::<(), AddError>(AddError::BadRange)
            &&& !bad && shared ==> r == Err::<(), AddError>(AddError::Overlap)
            &&& !bad && !shared ==> r is Ok
            &&& r is Err ==> after == units
            &&& r is Ok ==> {
                &&& after.len() == units.len() + 1
                &&& after[units.len() as int] == (UnitModel {
                    start: base,
                    end: (base + size) as u32,
                    device,
                })
            }
            &&& 0 <= k < units.len() ==> after[k] == units[k]
        }),
{
    assert forall|i: int| 0 <= i < units.len() implies (#[trigger] units[i]).meets(
        base as int,
        base + size,
    ) == (units[i].start < base + size && base < units[i].end) by {}
}

/// Who answers an access: the unit whose range holds its first byte and its last one,
/// at the distance from the range's start. An access that no unit holds all of is a
/// decode error.
pub proof fn law_dispatch(
    units: Seq<UnitModel>,
    i: int,
    addr: u32,
    width: Width,
    value: u32,
    strb: u8,
    read: Result<u32, AxiResp>,
    written: Result<(), AxiResp>,
    after: Seq<UnitModel>,
)
    requires
        well_mapped(units),
    ensures
        ({
            let size = match width {
                Width::Byte => 1int,
                Width::Half => 2,
                Width::Word => 4,
            };
            let here = 0 <= i < units.len() && units[i].start <= addr && addr + size <= units[i].end;
            let nowhere = forall|j: int|
                0 <= j < units.len() ==> (#[trigger] units[j]).start > addr || addr + size
                    > units[j].end;
            &&& here && dispatched_read(units, addr, width, read, after)
                ==> units[i].device.read_to(
                (addr - units[i].start) as u32,
                width,
                read,
                after[i].device,
            )
            &&& here && dispatched_write(units, addr, width, value, strb, written, after)
                ==> units[i].device.written_to(
                (addr - units[i].start) as u32,
                width,
                value,
                strb,
                written,
                after[i].device,
            )
            &&& nowhere && dispatched_read(units, addr, width, read, after) ==> read == Err::<
                u32,
                AxiResp,
            >(AxiResp::DecErr) && after == units
            &&& nowhere && dispatched_write(units, addr, width, value, strb, written, after)
                ==> written == Err::<(), AxiResp>(AxiResp::DecErr) && after == units
            &&& !here && 0 <= i < units.len() && (dispatched_read(units, addr, width, read, after) || dispatched_write(
                units,
                addr,
                width,
                value,
                strb,
                written,
                after,
            )) ==> after[i] == units[i]
        }),
{
    if 0 <= i < units.len() && units[i].covers(addr, width) {
        law_one_unit_answers(units, addr, width, i);
    }
    if mapped(units, addr, width) {
        let j = unit_at(units, addr, width);
        assert(units[j].covers(addr, width));
        assert(units[j].start <= addr);
    }
}

/// A RAM behind a bus takes an access that lies in its bytes, and refuses any other as a
/// subordinate does, without effect.
pub proof fn law_ram_device(
    mem: Seq<u8>,
    offset: u32,
    width: Width,
    value: u32,
    strb: u8,
    read: Result<u32, AxiResp>,
    written: Result<(), AxiResp>,
    after: DeviceModel,
)
    ensures
        ({
            let size = match width {
                Width::Byte => 1int,
                Width::Half => 2,
                Width::Word => 4,
            };
            let inside = offset + size <= mem.len();
            &&& ram_model(mem).read_to(offset, width, read, after) ==> after.state == mem && read
                == if inside {
                Ok(crate::bus::loaded(mem, offset as int, width))
            } else {
                Err(AxiResp::SlvErr)
            }
            &&& ram_model(mem).written_to(offset, width, value, strb, written, after) ==> {
                &&& inside ==> written is Ok && after.state == crate::bus::stored(
                    mem,
                    offset as int,
                    width,
                    value,
                    strb,
                )
                &&& !inside ==> written == Err::<(), AxiResp>(AxiResp::SlvErr) && after.state
                    == mem
            }
        }),
{
}

} // verus!

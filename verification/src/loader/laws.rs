//! Laws of the loader over a [`RamBus`]: what a successful load leaves in memory,
//! and when a load fails.

use vstd::prelude::*;

use crate::bus::{AxiResp, Bus, RamBus, RamModel, Width};
use crate::execute::StoreReq;
use crate::loader::{ElfError, PlanEnd, ProgramHeader};

verus! {

/// `ram` with `data` laid over it from address `addr` on.
pub open spec fn overlaid(ram: RamModel, addr: u32, data: Seq<u8>) -> RamModel {
    let off = addr - ram.base;
    RamModel {
        base: ram.base,
        mem: Seq::new(
            ram.mem.len(),
            |k: int|
                if off <= k < off + data.len() {
                    data[k - off]
                } else {
                    ram.mem[k]
                },
        ),
    }
}

/// Whether `ram` holds all of `len` bytes at `addr`.
pub open spec fn holds(ram: RamModel, addr: u32, len: int) -> bool {
    len == 0 || ram.base <= addr && addr - ram.base + len <= ram.mem.len()
}

/// `ram` with the data of the loadable ones of the first `n` segments laid over it,
/// in order.
pub open spec fn with_segments(
    ram: RamModel,
    image: Seq<u8>,
    segments: Seq<ProgramHeader>,
    n: int,
) -> RamModel
    decreases n,
{
    if n <= 0 {
        ram
    } else {
        let earlier = with_segments(ram, image, segments, n - 1);
        let phdr = segments[n - 1];
        if crate::loader::loadable(phdr) {
            overlaid(
                earlier,
                crate::loader::low_word(phdr.p_paddr),
                crate::loader::file_data(image, phdr),
            )
        } else {
            earlier
        }
    }
}

/// Whether no loadable segment runs past the top of the address space.
pub open spec fn below_the_top(segments: Seq<ProgramHeader>) -> bool {
    forall|i: int|
        0 <= i < segments.len() && crate::loader::loadable(#[trigger] segments[i])
            ==> segments[i].p_paddr + segments[i].p_filesz <= 0x1_0000_0000
}

/// A delivery of at least one write is that write and a delivery of the rest.
proof fn lemma_delivered_first<B: Bus>(before: B, reqs: Seq<StoreReq>, after: B) -> (middle: B)
    requires
        reqs.len() > 0,
        crate::loader::delivered(before, reqs, after),
    ensures
        crate::loader::accepts(before, reqs[0], middle),
        crate::loader::delivered(middle, reqs.drop_first(), after),
{
    let buses = choose|buses: Seq<B>| #[trigger]
        crate::loader::accepted(before, reqs, buses) && buses.last() == after;
    let middle = buses[1];
    let rest = reqs.drop_first();
    let passed = buses.drop_first();
    assert(crate::loader::accepts(buses[0], reqs[0], buses[0int + 1]));
    assert forall|i: int| 0 <= i < rest.len() implies crate::loader::accepts(
        passed[i],
        #[trigger] rest[i],
        passed[i + 1],
    ) by {
        assert(rest[i] == reqs[i + 1]);
    }
    assert(crate::loader::accepted(middle, rest, passed));
    middle
}

/// A delivery of two lists of writes is a delivery of each in turn.
proof fn lemma_delivered_split<B: Bus>(
    before: B,
    first: Seq<StoreReq>,
    second: Seq<StoreReq>,
    after: B,
) -> (middle: B)
    requires
        crate::loader::delivered(before, first + second, after),
    ensures
        crate::loader::delivered(before, first, middle),
        crate::loader::delivered(middle, second, after),
    decreases first.len(),
{
    if first.len() == 0 {
        assert(first + second =~= second);
        assert(crate::loader::accepted(before, first, seq![before]));
        before
    } else {
        let next = lemma_delivered_first(before, first + second, after);
        assert((first + second).drop_first() =~= first.drop_first() + second);
        let middle = lemma_delivered_split(next, first.drop_first(), second, after);
        crate::loader::lemma_delivered_cons(before, first[0], next, first.drop_first(), middle);
        assert(seq![first[0]] + first.drop_first() =~= first);
        middle
    }
}

/// Every write that copies `data` lies in the bytes that it is copied to.
proof fn lemma_writes_lie_in_range(addr: u32, data: Seq<u8>, i: int, j: int)
    requires
        0 <= i,
        addr + data.len() <= 0x1_0000_0000,
        0 <= j < crate::loader::writes_from(addr, data, i).len(),
    ensures
        ({
            let req = crate::loader::writes_from(addr, data, i)[j];
            addr + i <= req.addr && req.addr + req.width.size() <= addr + data.len()
        }),
    decreases data.len() - i,
{
    if j > 0 {
        let step = crate::loader::write_at(addr, data, i).width.size();
        lemma_writes_lie_in_range(addr, data, i + step, j - 1);
    }
}

/// Writes neither move nor resize a RAM.
proof fn lemma_delivered_keeps_region(before: RamBus, reqs: Seq<StoreReq>, after: RamBus)
    requires
        crate::loader::delivered(before, reqs, after),
    ensures
        after@.base == before@.base,
        after@.mem.len() == before@.mem.len(),
    decreases reqs.len(),
{
    if reqs.len() > 0 {
        let next = lemma_delivered_first(before, reqs, after);
        let req = reqs[0];
        crate::bus::law_ram_write(
            before,
            req.addr,
            req.width,
            req.data,
            req.strb,
            Ok(()),
            next,
        );
        lemma_delivered_keeps_region(next, reqs.drop_first(), after);
    }
}

/// The bytes of a word that four bytes make up are those four.
proof fn lemma_bytes_of_word(a: u8, b: u8, c: u8, d: u8, w: u32)
    requires
        w == a + 0x100 * b + 0x1_0000 * c + 0x100_0000 * d,
    ensures
        crate::word::byte(w, 0) == a,
        crate::word::byte(w, 1) == b,
        crate::word::byte(w, 2) == c,
        crate::word::byte(w, 3) == d,
{
    assert(w / 0x100 == b + 0x100 * c + 0x1_0000 * d);
    assert(w / 0x1_0000 == c + 0x100 * d);
    assert(w / 0x100_0000 == d);
}

/// One write that a RAM accepts puts the bytes that it copies in their places.
proof fn lemma_one_write_lands(before: RamBus, addr: u32, data: Seq<u8>, i: int, next: RamBus)
    requires
        0 <= i < data.len(),
        addr + data.len() <= 0x1_0000_0000,
        crate::loader::accepts(before, crate::loader::write_at(addr, data, i), next),
    ensures
        ({
            let off = addr - before@.base;
            let step = crate::loader::write_at(addr, data, i).width.size();
            &&& next@.base == before@.base
            &&& next@.mem.len() == before@.mem.len()
            &&& 0 <= off + i
            &&& off + i + step <= before@.mem.len()
            &&& i + step <= data.len()
            &&& forall|k: int|
                0 <= k < before@.mem.len() ==> #[trigger] next@.mem[k] == if off + i <= k < off + i
                    + step {
                    data[k - off]
                } else {
                    before@.mem[k]
                }
        }),
{
    let req = crate::loader::write_at(addr, data, i);
    assert(req.addr == addr + i);
    crate::bus::law_ram_write(before, req.addr, req.width, req.data, req.strb, Ok(()), next);
    if req.width is Word {
        crate::bus::lemma_loaded(data, i, Width::Word);
        lemma_bytes_of_word(data[i], data[i + 1], data[i + 2], data[i + 3], req.data);
    }
}

/// What is left to copy from byte `i` on lands where it belongs.
proof fn lemma_rest_lands(before: RamBus, addr: u32, data: Seq<u8>, i: int, after: RamBus)
    requires
        0 <= i <= data.len(),
        addr + data.len() <= 0x1_0000_0000,
        crate::loader::delivered(before, crate::loader::writes_from(addr, data, i), after),
    ensures
        after@.base == before@.base,
        after@.mem.len() == before@.mem.len(),
        i < data.len() ==> before@.base <= addr + i && addr - before@.base + data.len()
            <= before@.mem.len(),
        forall|k: int|
            0 <= k < before@.mem.len() ==> #[trigger] after@.mem[k] == if addr - before@.base + i
                <= k < addr - before@.base + data.len() {
                data[k - (addr - before@.base)]
            } else {
                before@.mem[k]
            },
    decreases data.len() - i,
{
    if i < data.len() {
        let reqs = crate::loader::writes_from(addr, data, i);
        let req = crate::loader::write_at(addr, data, i);
        let step = req.width.size();
        let next = lemma_delivered_first(before, reqs, after);
        assert(reqs.drop_first() =~= crate::loader::writes_from(addr, data, i + step));
        lemma_one_write_lands(before, addr, data, i, next);
        lemma_rest_lands(next, addr, data, i + step, after);
    }
}

/// A segment that a RAM accepts lands in it byte for byte, and nothing else
/// changes.
pub proof fn law_segment_lands_in_ram(before: RamBus, addr: u32, data: Seq<u8>, after: RamBus)
    requires
        addr + data.len() <= 0x1_0000_0000,
        crate::loader::delivered(before, crate::loader::writes_from(addr, data, 0), after),
    ensures
        holds(before@, addr, data.len() as int),
        after@ == overlaid(before@, addr, data),
{
    lemma_rest_lands(before, addr, data, 0, after);
    assert(after@.mem =~= overlaid(before@, addr, data).mem);
}

/// A RAM refuses a segment only where it does not hold all of the segment's
/// addresses, and then with a decode error.
pub proof fn law_only_missing_memory_refuses(
    before: RamBus,
    addr: u32,
    data: Seq<u8>,
    at: u32,
    resp: AxiResp,
    after: RamBus,
)
    requires
        addr + data.len() <= 0x1_0000_0000,
        crate::loader::refused(
            before,
            crate::loader::writes_from(addr, data, 0),
            at,
            resp,
            after,
        ),
    ensures
        !holds(before@, addr, data.len() as int),
        resp == AxiResp::DecErr,
        addr <= at < addr + data.len(),
{
    let reqs = crate::loader::writes_from(addr, data, 0);
    let (n, middle) = choose|n: int, middle: RamBus|
        0 <= n < reqs.len() && at == reqs[n].addr && #[trigger] crate::loader::delivered(
            before,
            reqs.take(n),
            middle,
        ) && middle.model().written_to(
            reqs[n].addr,
            reqs[n].width,
            reqs[n].data,
            reqs[n].strb,
            Err(resp),
            after.model(),
        );
    let req = reqs[n];
    lemma_delivered_keeps_region(before, reqs.take(n), middle);
    crate::bus::law_ram_write(
        middle,
        req.addr,
        req.width,
        req.data,
        req.strb,
        Err(resp),
        after,
    );
    lemma_writes_lie_in_range(addr, data, 0, n);
}

/// A successful load leaves a RAM with the data of every loadable segment laid
/// over it, in order, and with every other byte, the tails of segments that are
/// larger in memory than in the file among them, as it was. The RAM holds the
/// addresses of all of them.
pub proof fn law_load_fills_ram(
    before: RamBus,
    image: Seq<u8>,
    segments: Seq<ProgramHeader>,
    n: int,
    after: RamBus,
)
    requires
        0 <= n <= segments.len(),
        below_the_top(segments),
        crate::loader::staged_as(
            before,
            crate::loader::plan(image, segments, n),
            Ok(()),
            after,
        ),
    ensures
        after@ == with_segments(before@, image, segments, n),
        all_held(before@, segments.take(n)),
    decreases n,
{
    if n > 0 {
        let phdr = segments[n - 1];
        let earlier = crate::loader::plan(image, segments, n - 1).0;
        if crate::loader::loadable(phdr) {
            let addr = crate::loader::low_word(phdr.p_paddr);
            let data = crate::loader::file_data(image, phdr);
            let reqs = crate::loader::writes_from(addr, data, 0);
            let middle = lemma_delivered_split(before, earlier, reqs, after);
            law_load_fills_ram(before, image, segments, n - 1, middle);
            law_segment_lands_in_ram(middle, addr, data, after);
            lemma_delivered_keeps_region(before, earlier, middle);
        } else {
            law_load_fills_ram(before, image, segments, n - 1, after);
        }
        assert forall|i: int|
            0 <= i < n && crate::loader::loadable(#[trigger] segments.take(n)[i]) implies holds(
            before@,
            crate::loader::low_word(segments.take(n)[i].p_paddr),
            segments.take(n)[i].p_filesz as int,
        ) by {
            if i < n - 1 {
                assert(segments.take(n - 1)[i] == segments.take(n)[i]);
            }
        }
    } else {
        let buses = choose|buses: Seq<RamBus>| #[trigger]
            crate::loader::accepted(before, Seq::empty(), buses) && buses.last() == after;
        assert(buses[0] == buses.last());
    }
}

/// Every planned write lies in memory that holds all loadable segments.
proof fn lemma_planned_writes_are_held(
    ram: RamModel,
    image: Seq<u8>,
    segments: Seq<ProgramHeader>,
    n: int,
    j: int,
)
    requires
        0 <= n <= segments.len(),
        below_the_top(segments),
        all_held(ram, segments),
        0 <= j < crate::loader::plan(image, segments, n).0.len(),
    ensures
        ({
            let req = crate::loader::plan(image, segments, n).0[j];
            ram.covers(req.addr, req.width)
        }),
    decreases n,
{
    let earlier = crate::loader::plan(image, segments, n - 1).0;
    if j < earlier.len() {
        lemma_planned_writes_are_held(ram, image, segments, n - 1, j);
    } else {
        let phdr = segments[n - 1];
        let addr = crate::loader::low_word(phdr.p_paddr);
        let data = crate::loader::file_data(image, phdr);
        lemma_writes_lie_in_range(addr, data, 0, j - earlier.len());
    }
}

/// Whether `ram` holds the addresses of all loadable segments.
pub open spec fn all_held(ram: RamModel, segments: Seq<ProgramHeader>) -> bool {
    forall|i: int|
        0 <= i < segments.len() && crate::loader::loadable(#[trigger] segments[i]) ==> holds(
            ram,
            crate::loader::low_word(segments[i].p_paddr),
            segments[i].p_filesz as int,
        )
}

/// A load into a RAM that holds the addresses of all loadable segments succeeds,
/// unless a segment's data is not in the file or its addresses differ.
pub proof fn law_load_succeeds_where_memory_is(
    before: RamBus,
    image: Seq<u8>,
    segments: Seq<ProgramHeader>,
    r: Result<(), ElfError>,
    after: RamBus,
)
    requires
        below_the_top(segments),
        all_held(before@, segments),
        crate::loader::staged_as(
            before,
            crate::loader::plan(image, segments, segments.len() as int),
            r,
            after,
        ),
    ensures
        r is Ok <==> crate::loader::plan(image, segments, segments.len() as int).1 is Done,
        r !is Ok ==> r->Err_0 is Parse || r->Err_0 is SegmentPaddrMismatch,
{
    let reqs = crate::loader::plan(image, segments, segments.len() as int).0;
    if let Err(ElfError::Bus { addr, resp }) = r {
        let (n, middle) = choose|n: int, middle: RamBus|
            0 <= n < reqs.len() && addr == reqs[n].addr && #[trigger] crate::loader::delivered(
                before,
                reqs.take(n),
                middle,
            ) && middle.model().written_to(
                reqs[n].addr,
                reqs[n].width,
                reqs[n].data,
                reqs[n].strb,
                Err(resp),
                after.model(),
            );
        let req = reqs[n];
        lemma_delivered_keeps_region(before, reqs.take(n), middle);
        crate::bus::law_ram_write(
            middle,
            req.addr,
            req.width,
            req.data,
            req.strb,
            Err(resp),
            after,
        );
        lemma_planned_writes_are_held(before@, image, segments, segments.len() as int, n);
    }
}

/// What is loaded is read back: a byte of a loadable segment that no later
/// segment covers holds the segment's byte, and a byte that no loadable segment
/// covers holds what it held before.
pub proof fn law_loaded_bytes_read_back(
    ram: RamModel,
    image: Seq<u8>,
    segments: Seq<ProgramHeader>,
    n: int,
    k: int,
    i: int,
)
    requires
        0 <= n <= segments.len(),
        0 <= k < ram.mem.len(),
        forall|j: int|
            i < j < n && crate::loader::loadable(#[trigger] segments[j]) ==> !in_segment(
                segments[j],
                image,
                ram.base + k,
            ),
        -1 <= i < n,
        i >= 0 ==> crate::loader::loadable(segments[i]) && in_segment(
            segments[i],
            image,
            ram.base + k,
        ),
    ensures
        with_segments(ram, image, segments, n).base == ram.base,
        with_segments(ram, image, segments, n).mem.len() == ram.mem.len(),
        with_segments(ram, image, segments, n).mem[k] == if i >= 0 {
            crate::loader::file_data(image, segments[i])[ram.base + k - crate::loader::low_word(
                segments[i].p_paddr,
            )]
        } else {
            ram.mem[k]
        },
    decreases n,
{
    lemma_segments_keep_region(ram, image, segments, n);
    if n > 0 {
        lemma_segments_keep_region(ram, image, segments, n - 1);
        if i < n - 1 {
            law_loaded_bytes_read_back(ram, image, segments, n - 1, k, i);
        }
    }
}

/// Whether `addr` is one of the addresses that the segment's data is loaded to.
pub open spec fn in_segment(phdr: ProgramHeader, image: Seq<u8>, addr: int) -> bool {
    let start = crate::loader::low_word(phdr.p_paddr);
    start <= addr < start + crate::loader::file_data(image, phdr).len()
}

/// Laying segments over a RAM neither moves nor resizes it.
proof fn lemma_segments_keep_region(
    ram: RamModel,
    image: Seq<u8>,
    segments: Seq<ProgramHeader>,
    n: int,
)
    ensures
        with_segments(ram, image, segments, n).base == ram.base,
        with_segments(ram, image, segments, n).mem.len() == ram.mem.len(),
    decreases n,
{
    if n > 0 {
        lemma_segments_keep_region(ram, image, segments, n - 1);
    }
}

/// Whether every loadable segment has one address and its data in the file.
pub open spec fn stageable(image: Seq<u8>, segments: Seq<ProgramHeader>) -> bool {
    forall|i: int|
        0 <= i < segments.len() && crate::loader::loadable(#[trigger] segments[i])
            ==> segments[i].p_paddr == segments[i].p_vaddr && segments[i].p_offset
            + segments[i].p_filesz <= image.len()
}

/// Bytes that are no ELF file, and ELF files whose header tables have entries of the
/// wrong size or do not lie in the file, are a parse error, and leave the bus alone.
/// With a proper file, only a segment whose data is not in the file is one.
pub proof fn law_improper_files_are_refused<B: Bus>(
    before: B,
    image: Seq<u8>,
    r: Result<u32, ElfError>,
    after: B,
)
    requires
        crate::loader::loads(before, image, r, after),
    ensures
        ({
            let proper = crate::loader::identified(image) && crate::loader::section_headers_fit(
                image,
            ) && crate::loader::program_headers_fit(image);
            let segments = crate::loader::elf_segments(image);
            let parse_error = (r matches Err(ElfError::Parse(_)));
            &&& !proper ==> parse_error && after == before
            &&& proper && parse_error ==> crate::loader::plan(
                image,
                segments,
                segments.len() as int,
            ).1 is Unreadable
        }),
{
}

/// A number of two or four bytes of an ELF file fits 16 or 32 bits.
proof fn lemma_number_fits(image: Seq<u8>, off: int, len: int)
    requires
        0 <= off,
        off + len <= image.len(),
        len == 2 || len == 4,
    ensures
        0 <= crate::loader::elf_number(image, off, len),
        len == 2 ==> crate::loader::elf_number(image, off, len) <= 0xFFFF,
        len == 4 ==> crate::loader::elf_number(image, off, len) <= 0xFFFF_FFFF,
{
    let field = image.subrange(off, off + len);
    lemma_value_fits(field);
    lemma_value_fits(field.reverse());
}

/// The number that two or four bytes hold fits 16 or 32 bits.
proof fn lemma_value_fits(bytes: Seq<u8>)
    ensures
        bytes.len() == 2 ==> crate::word::le_value(bytes) <= 0xFFFF,
        bytes.len() == 4 ==> crate::word::le_value(bytes) <= 0xFFFF_FFFF,
{
    reveal_with_fuel(crate::word::le_value, 5);
    let s1 = bytes.drop_first();
    let s2 = s1.drop_first();
    let s3 = s2.drop_first();
    assert(s1[0] <= 0xFF && s2[0] <= 0xFF && s3[0] <= 0xFF);
}

/// A proper ELF file that is no ELF32 RISC-V executable gets the error of the first
/// check that it fails, by the bytes of its header, and leaves the bus alone. What
/// loads is an ELF32 RISC-V executable, and the answer is the entry point in its
/// header.
pub proof fn law_wrong_headers_are_refused<B: Bus>(
    before: B,
    image: Seq<u8>,
    r: Result<u32, ElfError>,
    after: B,
)
    requires
        crate::loader::loads(before, image, r, after),
    ensures
        ({
            let proper = crate::loader::elf_header(image) is Some;
            let machine = crate::loader::elf_number(image, 18, 2);
            let kind = crate::loader::elf_number(image, 16, 2);
            &&& proper && image[4] == 2 ==> r == Err::<u32, ElfError>(ElfError::NotElf32) && after
                == before
            &&& proper && image[4] == 1 && machine != 243 ==> r == Err::<u32, ElfError>(
                ElfError::NotRiscv,
            ) && after == before
            &&& proper && image[4] == 1 && machine == 243 && kind != 2 ==> r == Err::<
                u32,
                ElfError,
            >(ElfError::NotExecutable) && after == before
            &&& r matches Ok(entry) ==> {
                &&& proper && image[4] == 1 && machine == 243 && kind == 2
                &&& entry == crate::loader::elf_number(image, 24, 4)
            }
        }),
{
    if crate::loader::identified(image) {
        lemma_number_fits(image, 16, 2);
        lemma_number_fits(image, 18, 2);
        lemma_number_fits(image, 24, 4);
    }
}

/// The addresses and sizes of ELF32 segments fit 32 bits, so that loading one uses
/// the address that its header gives.
pub proof fn law_elf32_addresses_fit(image: Seq<u8>, i: int)
    requires
        crate::loader::elf_header(image) is Some,
        image[4] == 1,
        0 <= i < crate::loader::elf_segments(image).len(),
    ensures
        ({
            let phdr = crate::loader::elf_segments(image)[i];
            &&& phdr.p_offset <= u32::MAX && phdr.p_filesz <= u32::MAX && phdr.p_memsz <= u32::MAX
            &&& crate::loader::low_word(phdr.p_vaddr) == phdr.p_vaddr
            &&& crate::loader::low_word(phdr.p_paddr) == phdr.p_paddr
        }),
{
    lemma_number_fits(image, 28, 4);
    let at = crate::loader::e_phoff(image) + 32 * i;
    lemma_number_fits(image, at + 4, 4);
    lemma_number_fits(image, at + 8, 4);
    lemma_number_fits(image, at + 12, 4);
    lemma_number_fits(image, at + 16, 4);
    lemma_number_fits(image, at + 20, 4);
}

/// Segments that can be staged are all in the plan.
proof fn lemma_stageable_plan_is_done(image: Seq<u8>, segments: Seq<ProgramHeader>, n: int)
    requires
        0 <= n <= segments.len(),
        stageable(image, segments),
        crate::loader::elf_header(image) is Some,
    ensures
        crate::loader::plan(image, segments, n).1 is Done,
    decreases n,
{
    if n > 0 {
        lemma_stageable_plan_is_done(image, segments, n - 1);
    }
}

/// From the bytes of an image to memory: an ELF32 RISC-V executable whose loadable
/// segments have one address each, lie in the file and fit into a RAM, loads. The
/// answer is its entry point, and the RAM has the data of the segments laid over it,
/// in order.
pub proof fn law_executable_loads(
    before: RamBus,
    image: Seq<u8>,
    r: Result<u32, ElfError>,
    after: RamBus,
)
    requires
        crate::loader::loads(before, image, r, after),
        crate::loader::elf_header(image) is Some,
        image[4] == 1,
        crate::loader::elf_number(image, 18, 2) == 243,
        crate::loader::elf_number(image, 16, 2) == 2,
        stageable(image, crate::loader::elf_segments(image)),
        below_the_top(crate::loader::elf_segments(image)),
        all_held(before@, crate::loader::elf_segments(image)),
    ensures
        r is Ok,
        r->Ok_0 == crate::loader::elf_number(image, 24, 4),
        after@ == with_segments(
            before@,
            image,
            crate::loader::elf_segments(image),
            crate::loader::elf_segments(image).len() as int,
        ),
{
    let segments = crate::loader::elf_segments(image);
    let n = segments.len() as int;
    lemma_number_fits(image, 24, 4);
    lemma_stageable_plan_is_done(image, segments, n);
    let staged: Result<(), ElfError> = match r {
        Ok(_) => Ok(()),
        Err(e) => Err(e),
    };
    law_load_succeeds_where_memory_is(before, image, segments, staged, after);
    law_load_fills_ram(before, image, segments, n, after);
}

/// Every write that a RAM accepted lies in it.
proof fn lemma_delivered_writes_are_held(
    before: RamBus,
    reqs: Seq<StoreReq>,
    after: RamBus,
    j: int,
)
    requires
        crate::loader::delivered(before, reqs, after),
        0 <= j < reqs.len(),
    ensures
        before@.covers(reqs[j].addr, reqs[j].width),
    decreases reqs.len(),
{
    let next = lemma_delivered_first(before, reqs, after);
    let req = reqs[0];
    crate::bus::law_ram_write(before, req.addr, req.width, req.data, req.strb, Ok(()), next);
    if j > 0 {
        lemma_delivered_writes_are_held(next, reqs.drop_first(), after, j - 1);
    }
}

/// A load into a RAM ends at the first planned write that the RAM does not hold,
/// with the address of that write and a decode error.
pub proof fn law_first_missing_write_is_reported(
    before: RamBus,
    planned: (Seq<StoreReq>, PlanEnd),
    r: Result<(), ElfError>,
    after: RamBus,
    n: int,
)
    requires
        crate::loader::staged_as(before, planned, r, after),
        0 <= n < planned.0.len(),
        !before@.covers(planned.0[n].addr, planned.0[n].width),
        forall|j: int|
            0 <= j < n ==> before@.covers((#[trigger] planned.0[j]).addr, planned.0[j].width),
    ensures
        r == Err::<(), ElfError>(
            ElfError::Bus { addr: planned.0[n].addr, resp: AxiResp::DecErr },
        ),
{
    let reqs = planned.0;
    if let Err(ElfError::Bus { addr, resp }) = r {
        let (m, middle) = choose|m: int, middle: RamBus|
            0 <= m < reqs.len() && addr == reqs[m].addr && #[trigger] crate::loader::delivered(
                before,
                reqs.take(m),
                middle,
            ) && middle.model().written_to(
                reqs[m].addr,
                reqs[m].width,
                reqs[m].data,
                reqs[m].strb,
                Err(resp),
                after.model(),
            );
        let req = reqs[m];
        lemma_delivered_keeps_region(before, reqs.take(m), middle);
        crate::bus::law_ram_write(
            middle,
            req.addr,
            req.width,
            req.data,
            req.strb,
            Err(resp),
            after,
        );
        if n < m {
            lemma_delivered_writes_are_held(before, reqs.take(m), middle, n);
        }
    } else {
        lemma_delivered_writes_are_held(before, reqs, after, n);
    }
}

/// Whether the program header is that of a loadable segment with data in the file.
pub open spec fn has_data(phdr: ProgramHeader) -> bool {
    phdr.p_type == 1 && phdr.p_filesz > 0
}

/// Whether loading the segment sets the byte at `addr`.
pub open spec fn sets(phdr: ProgramHeader, addr: int) -> bool {
    has_data(phdr) && phdr.p_paddr <= addr < phdr.p_paddr + phdr.p_filesz
}

/// Whether all loadable segments end within the 32-bit address space.
pub open spec fn addressable(segments: Seq<ProgramHeader>) -> bool {
    forall|i: int|
        0 <= i < segments.len() && has_data(#[trigger] segments[i]) ==> segments[i].p_paddr
            + segments[i].p_filesz <= 0x1_0000_0000
}

/// Staged segments are in memory: each byte of a loadable segment, whatever its flags,
/// that no later one sets is the byte of the file, and a byte that none sets is as it
/// was.
pub proof fn law_staged_bytes(
    before: RamBus,
    image: Seq<u8>,
    segments: Seq<ProgramHeader>,
    after: RamBus,
    i: int,
    addr: int,
)
    requires
        crate::loader::staged_as(
            before,
            crate::loader::plan(image, segments, segments.len() as int),
            Ok(()),
            after,
        ),
        addressable(segments),
        -1 <= i < segments.len(),
        forall|j: int| i < j < segments.len() ==> !sets(#[trigger] segments[j], addr),
    ensures
        after@.base == before@.base,
        after@.mem.len() == before@.mem.len(),
        i >= 0 && sets(segments[i], addr) ==> {
            &&& segments[i].p_paddr == segments[i].p_vaddr
            &&& segments[i].p_offset + segments[i].p_filesz <= image.len()
            &&& before@.base <= addr < before@.base + before@.mem.len()
            &&& after@.mem[addr - before@.base] == image[segments[i].p_offset + (addr
                - segments[i].p_paddr)]
        },
        i == -1 && before@.base <= addr < before@.base + before@.mem.len() ==> after@.mem[addr
            - before@.base] == before@.mem[addr - before@.base],
{
    let n = segments.len() as int;
    assert(below_the_top(segments));
    law_load_fills_ram(before, image, segments, n, after);
    lemma_segments_keep_region(before@, image, segments, n);
    assert forall|j: int|
        0 <= j < n && crate::loader::loadable(#[trigger] segments[j]) implies in_segment(
        segments[j],
        image,
        addr,
    ) == sets(segments[j], addr) && crate::loader::low_word(segments[j].p_paddr)
        == segments[j].p_paddr && segments[j].p_paddr == segments[j].p_vaddr && segments[j].p_offset
        + segments[j].p_filesz <= image.len() by {
        lemma_done_plan_is_stageable(image, segments, n, j);
    }
    if i >= 0 && sets(segments[i], addr) {
        assert(segments.take(n) =~= segments);
        assert(holds(
            before@,
            crate::loader::low_word(segments[i].p_paddr),
            segments[i].p_filesz as int,
        ));
        law_loaded_bytes_read_back(before@, image, segments, n, addr - before@.base, i);
    } else if i == -1 && before@.base <= addr < before@.base + before@.mem.len() {
        law_loaded_bytes_read_back(before@, image, segments, n, addr - before@.base, -1);
    }
}

/// A plan that goes through has found each loadable segment in the file and with one
/// address.
proof fn lemma_done_plan_is_stageable(
    image: Seq<u8>,
    segments: Seq<ProgramHeader>,
    n: int,
    j: int,
)
    requires
        0 <= j < n <= segments.len(),
        crate::loader::plan(image, segments, n).1 is Done,
        crate::loader::loadable(segments[j]),
    ensures
        segments[j].p_paddr == segments[j].p_vaddr,
        segments[j].p_offset + segments[j].p_filesz <= image.len(),
    decreases n,
{
    if j < n - 1 {
        lemma_done_plan_is_stageable(image, segments, n - 1, j);
    }
}

/// A successful load of an image into a RAM leaves the data of its program headers in
/// memory: for every one with type 1 and data in the file, whatever its flags, each byte
/// that no later such header sets is the byte of the file.
pub proof fn law_loaded_image(
    before: RamBus,
    image: Seq<u8>,
    entry: u32,
    after: RamBus,
    i: int,
    k: int,
)
    requires
        crate::loader::loads(before, image, Ok(entry), after),
        0 <= i < crate::loader::elf_segments(image).len(),
        ({
            let segments = crate::loader::elf_segments(image);
            let phdr = segments[i];
            &&& phdr.p_type == 1
            &&& 0 <= k < phdr.p_filesz
            &&& addressable(segments)
            &&& forall|j: int|
                i < j < segments.len() ==> !sets(#[trigger] segments[j], phdr.p_paddr + k)
        }),
    ensures
        ({
            let phdr = crate::loader::elf_segments(image)[i];
            let at = phdr.p_paddr + k - before@.base;
            &&& 0 <= at < after@.mem.len()
            &&& phdr.p_offset + k < image.len()
            &&& after@.base == before@.base
            &&& after@.mem[at] == image[phdr.p_offset + k]
        }),
{
    let segments = crate::loader::elf_segments(image);
    law_staged_bytes(before, image, segments, after, i, segments[i].p_paddr + k);
}

/// A successful load leaves every byte that no loadable segment's data is for as it was:
/// the part of a segment beyond its data in the file is not cleared.
pub proof fn law_load_leaves_the_rest(
    before: RamBus,
    image: Seq<u8>,
    entry: u32,
    after: RamBus,
    at: int,
)
    requires
        crate::loader::loads(before, image, Ok(entry), after),
        addressable(crate::loader::elf_segments(image)),
        0 <= at < before@.mem.len(),
        forall|j: int|
            0 <= j < crate::loader::elf_segments(image).len() ==> !sets(
                #[trigger] crate::loader::elf_segments(image)[j],
                before@.base + at,
            ),
    ensures
        after@.mem.len() == before@.mem.len(),
        after@.mem[at] == before@.mem[at],
{
    let segments = crate::loader::elf_segments(image);
    law_staged_bytes(before, image, segments, after, -1, before@.base + at);
}

/// The little-endian number of four bytes.
pub open spec fn number4(image: Seq<u8>, at: int) -> int {
    image[at] + 0x100 * image[at + 1] + 0x1_0000 * image[at + 2] + 0x100_0000 * image[at + 3]
}

/// The little-endian number of two bytes.
pub open spec fn number2(image: Seq<u8>, at: int) -> int {
    image[at] + 0x100 * image[at + 1]
}

/// Numbers of a little-endian file.
proof fn lemma_little_endian(image: Seq<u8>, at: int)
    requires
        image[5] == 1,
        0 <= at,
    ensures
        at + 2 <= image.len() ==> crate::loader::elf_number(image, at, 2) == number2(image, at),
        at + 4 <= image.len() ==> crate::loader::elf_number(image, at, 4) == number4(image, at),
{
    reveal_with_fuel(crate::word::le_value, 5);
    if at + 2 <= image.len() {
        let s = image.subrange(at, at + 2);
        assert(s.drop_first()[0] == image[at + 1]);
    }
    if at + 4 <= image.len() {
        let s = image.subrange(at, at + 4);
        let s1 = s.drop_first();
        let s2 = s1.drop_first();
        let s3 = s2.drop_first();
        assert(s1[0] == image[at + 1] && s2[0] == image[at + 2] && s3[0] == image[at + 3]);
    }
}

/// The program headers of a little-endian ELF32 file, by the bytes of the file: they
/// stand one after the other, 32 bytes each, from the offset in the file header on.
pub proof fn law_program_headers(image: Seq<u8>, i: int)
    requires
        crate::loader::elf_header(image) is Some,
        image[4] == 1,
        image[5] == 1,
        0 <= i < crate::loader::elf_segments(image).len(),
    ensures
        ({
            let phdr = crate::loader::elf_segments(image)[i];
            let at = number4(image, 28) + 32 * i;
            &&& number4(image, 28) != 0
            &&& number2(image, 44) != 0xFFFF ==> crate::loader::elf_segments(image).len()
                == number2(image, 44)
            &&& at + 32 <= image.len()
            &&& phdr.p_type == number4(image, at)
            &&& phdr.p_offset == number4(image, at + 4)
            &&& phdr.p_vaddr == number4(image, at + 8)
            &&& phdr.p_paddr == number4(image, at + 12)
            &&& phdr.p_filesz == number4(image, at + 16)
            &&& phdr.p_memsz == number4(image, at + 20)
            &&& phdr.p_flags == number4(image, at + 24)
            &&& phdr.p_align == number4(image, at + 28)
        }),
{
    lemma_little_endian(image, 28);
    lemma_little_endian(image, 44);
    let at = number4(image, 28) + 32 * i;
    assert(at + 32 <= image.len());
    lemma_little_endian(image, at);
    lemma_little_endian(image, at + 4);
    lemma_little_endian(image, at + 8);
    lemma_little_endian(image, at + 12);
    lemma_little_endian(image, at + 16);
    lemma_little_endian(image, at + 20);
    lemma_little_endian(image, at + 24);
    lemma_little_endian(image, at + 28);
}

/// How a segment is copied: as words at multiples of four wherever four bytes are left,
/// and as single bytes elsewhere, each with the byte enable of its size and with the
/// bytes of the segment in little-endian order. The first write is for the first byte,
/// the last one ends with the last byte, and there is none without data.
pub proof fn law_segment_writes(addr: u32, data: Seq<u8>, start: int, j: int) -> (off: int)
    requires
        0 <= start,
        0 <= j < crate::loader::writes_from(addr, data, start).len(),
    ensures
        start <= off < data.len(),
        j == 0 ==> off == start,
        ({
            let reqs = crate::loader::writes_from(addr, data, start);
            let req = reqs[j];
            let at = (addr + off) % 0x1_0000_0000;
            let word = at % 4 == 0 && off + 4 <= data.len();
            &&& req.addr == at
            &&& word ==> {
                &&& req.width == Width::Word
                &&& req.strb == 0xF
                &&& req.data == number4(data, off)
            }
            &&& !word ==> {
                &&& req.width == Width::Byte
                &&& req.strb == 0x1
                &&& req.data == data[off]
            }
            &&& j == reqs.len() - 1 ==> off + if word {
                4int
            } else {
                1
            } == data.len()
        }),
        crate::loader::writes_from(addr, Seq::empty(), 0).len() == 0,
    decreases data.len() - start,
{
    let first = crate::loader::write_at(addr, data, start);
    let next = start + first.width.size();
    if first.width is Word {
        crate::bus::lemma_loaded(data, start, Width::Word);
    }
    if j == 0 {
        if next < data.len() {
            assert(crate::loader::writes_from(addr, data, next).len() > 0);
        }
        start
    } else {
        law_segment_writes(addr, data, next, j - 1)
    }
}

/// Each write goes on where the one before it ended.
pub proof fn law_segment_writes_are_consecutive(addr: u32, data: Seq<u8>, start: int, j: int)
    requires
        0 <= start,
        0 <= j,
        j + 1 < crate::loader::writes_from(addr, data, start).len(),
    ensures
        ({
            let reqs = crate::loader::writes_from(addr, data, start);
            reqs[j + 1].addr == (reqs[j].addr + if reqs[j].width is Word {
                4int
            } else {
                1
            }) % 0x1_0000_0000
        }),
    decreases data.len() - start,
{
    let first = crate::loader::write_at(addr, data, start);
    let next = start + first.width.size();
    if j == 0 {
        let second = crate::loader::writes_from(addr, data, next)[0];
        assert(second == crate::loader::write_at(addr, data, next));
        vstd::arithmetic::div_mod::lemma_add_mod_noop(
            addr + start,
            first.width.size() as int,
            0x1_0000_0000,
        );
    } else {
        law_segment_writes_are_consecutive(addr, data, next, j - 1);
    }
}

/// The verdict on a file header: the first of the three that is wrong, else the entry
/// point.
pub proof fn law_header_verdict(header: crate::loader::FileHeader)
    ensures
        ({
            let r = crate::loader::header_verdict(header);
            &&& !header.elf32 ==> r == Err::<u32, ElfError>(ElfError::NotElf32)
            &&& header.elf32 && header.e_machine != 243 ==> r == Err::<u32, ElfError>(
                ElfError::NotRiscv,
            )
            &&& header.elf32 && header.e_machine == 243 && header.e_type != 2 ==> r == Err::<
                u32,
                ElfError,
            >(ElfError::NotExecutable)
            &&& header.elf32 && header.e_machine == 243 && header.e_type == 2 ==> r is Ok && r->Ok_0
                == header.e_entry % 0x1_0000_0000
        }),
{
}

/// The character of a hexadecimal digit.
pub open spec fn digit_char(d: int) -> char {
    if d < 10 {
        (48 + d) as char
    } else {
        (87 + d) as char
    }
}

/// A digit is its character.
proof fn lemma_digit(d: int)
    requires
        0 <= d < 16,
    ensures
        crate::loader::hex_digit(d) == seq![digit_char(d)],
{
    reveal_strlit("0");
    reveal_strlit("1");
    reveal_strlit("2");
    reveal_strlit("3");
    reveal_strlit("4");
    reveal_strlit("5");
    reveal_strlit("6");
    reveal_strlit("7");
    reveal_strlit("8");
    reveal_strlit("9");
    reveal_strlit("a");
    reveal_strlit("b");
    reveal_strlit("c");
    reveal_strlit("d");
    reveal_strlit("e");
    reveal_strlit("f");
    assert(crate::loader::hex_digit(d) =~= seq![digit_char(d)]);
}

/// Hexadecimal digits come with the lowest one last, and those before it are those of
/// the number without it.
pub proof fn law_hex_digits(v: int, n: nat)
    requires
        n > 0,
        v >= 0,
    ensures
        crate::loader::hex_digits(v, n).len() == n,
        crate::loader::hex_digits(v, n).last() == digit_char(v % 16),
        crate::loader::hex_digits(v, n).drop_last() == crate::loader::hex_digits(
            v / 16,
            (n - 1) as nat,
        ),
    decreases n,
{
    lemma_digit(v % 16);
    let higher = crate::loader::hex_digits(v / 16, (n - 1) as nat);
    if n > 1 {
        law_hex_digits(v / 16, (n - 1) as nat);
    }
    assert((higher + crate::loader::hex_digit(v % 16)).drop_last() =~= higher);
}

/// What the messages say.
pub proof fn law_messages(e: ElfError, text: Seq<char>, vaddr: u32, paddr: u32, addr: u32)
    requires
        e.says(text),
    ensures
        e is NotElf32 ==> text == "not an ELFCLASS32 object"@,
        e is NotRiscv ==> text == "e_machine is not EM_RISCV"@,
        e is NotExecutable ==> text == "e_type is not ET_EXEC"@,
        e == (ElfError::SegmentPaddrMismatch { vaddr, paddr }) ==> text == "segment p_paddr "@ + (
        "0x"@ + crate::loader::hex_digits(paddr as int, 8)) + " != p_vaddr "@ + ("0x"@
            + crate::loader::hex_digits(vaddr as int, 8)),
        e == (ElfError::Bus { addr, resp: AxiResp::DecErr }) ==> text
            == "bus rejected segment write at "@ + ("0x"@ + crate::loader::hex_digits(
            addr as int,
            8,
        )) + ": "@ + "DecErr"@,
        e == (ElfError::Bus { addr, resp: AxiResp::SlvErr }) ==> text
            == "bus rejected segment write at "@ + ("0x"@ + crate::loader::hex_digits(
            addr as int,
            8,
        )) + ": "@ + "SlvErr"@,
        e == (ElfError::Bus { addr, resp: AxiResp::Okay }) ==> text
            == "bus rejected segment write at "@ + ("0x"@ + crate::loader::hex_digits(
            addr as int,
            8,
        )) + ": "@ + "Okay"@,
        e == (ElfError::Bus { addr, resp: AxiResp::ExOkay }) ==> text
            == "bus rejected segment write at "@ + ("0x"@ + crate::loader::hex_digits(
            addr as int,
            8,
        )) + ": "@ + "ExOkay"@,
        e is Parse ==> "ELF parse error: "@.is_prefix_of(text),
{
    if e is Parse {
        let inner = choose|inner: String|
            #[trigger] vstd::string::to_string_from_display_ensures(&(e->Parse_0), inner) && text
                == "ELF parse error: "@ + inner@;
        assert(("ELF parse error: "@ + inner@).take("ELF parse error: "@.len() as int)
            =~= "ELF parse error: "@);
    }
}

/// Whether the RAM has all addresses of the segment's data.
pub open spec fn has_room(ram: RamModel, phdr: ProgramHeader) -> bool {
    ram.base <= phdr.p_paddr && phdr.p_paddr + phdr.p_filesz <= ram.base + ram.mem.len()
}

/// Whether the segment can be loaded: it has no data to load, or one address, data in
/// the file, and room for it.
pub open spec fn fine(ram: RamModel, image: Seq<u8>, phdr: ProgramHeader) -> bool {
    has_data(phdr) ==> {
        &&& phdr.p_paddr == phdr.p_vaddr
        &&& phdr.p_offset + phdr.p_filesz <= image.len()
        &&& has_room(ram, phdr)
    }
}

/// The plan for segments that are fine goes through, and every write of it is held.
proof fn lemma_fine_plan(
    ram: RamModel,
    image: Seq<u8>,
    segments: Seq<ProgramHeader>,
    n: int,
)
    requires
        0 <= n <= segments.len(),
        addressable(segments),
        crate::loader::elf_header(image) is Some,
        forall|j: int| 0 <= j < n ==> fine(ram, image, #[trigger] segments[j]),
    ensures
        crate::loader::plan(image, segments, n).1 is Done,
        forall|j: int|
            0 <= j < crate::loader::plan(image, segments, n).0.len() ==> ram.covers(
                (#[trigger] crate::loader::plan(image, segments, n).0[j]).addr,
                crate::loader::plan(image, segments, n).0[j].width,
            ),
    decreases n,
{
    if n > 0 {
        lemma_fine_plan(ram, image, segments, n - 1);
        let phdr = segments[n - 1];
        let earlier = crate::loader::plan(image, segments, n - 1).0;
        let all = crate::loader::plan(image, segments, n).0;
        assert(fine(ram, image, phdr));
        if crate::loader::loadable(phdr) {
            let addr = crate::loader::low_word(phdr.p_paddr);
            let data = crate::loader::file_data(image, phdr);
            assert(addr == phdr.p_paddr);
            assert forall|j: int| 0 <= j < all.len() implies ram.covers(
                (#[trigger] all[j]).addr,
                all[j].width,
            ) by {
                if j < earlier.len() {
                    assert(all[j] == earlier[j]);
                } else {
                    lemma_writes_lie_in_range(addr, data, 0, j - earlier.len());
                }
            }
        }
    }
}

/// Where all writes of a segment are held, so is the segment.
proof fn lemma_held_writes_hold(ram: RamModel, addr: u32, data: Seq<u8>, i: int)
    requires
        0 <= i < data.len(),
        addr + data.len() <= 0x1_0000_0000,
        forall|j: int|
            0 <= j < crate::loader::writes_from(addr, data, i).len() ==> ram.covers(
                (#[trigger] crate::loader::writes_from(addr, data, i)[j]).addr,
                crate::loader::writes_from(addr, data, i)[j].width,
            ),
    ensures
        ram.base <= addr + i,
        addr - ram.base + data.len() <= ram.mem.len(),
    decreases data.len() - i,
{
    let reqs = crate::loader::writes_from(addr, data, i);
    let req = crate::loader::write_at(addr, data, i);
    let next = i + req.width.size();
    let rest = crate::loader::writes_from(addr, data, next);
    assert(reqs[0] == req);
    assert(req.addr == addr + i);
    if next < data.len() {
        assert forall|j: int| 0 <= j < rest.len() implies ram.covers(
            (#[trigger] rest[j]).addr,
            rest[j].width,
        ) by {
            assert(reqs[j + 1] == rest[j]);
        }
        lemma_held_writes_hold(ram, addr, data, next);
    }
}

/// The first write that is not held, if there is one among the first `n`.
proof fn lemma_first_missing(ram: RamModel, reqs: Seq<StoreReq>, n: int) -> (m: int)
    requires
        0 <= n < reqs.len(),
        !ram.covers(reqs[n].addr, reqs[n].width),
    ensures
        0 <= m <= n,
        !ram.covers(reqs[m].addr, reqs[m].width),
        forall|j: int| 0 <= j < m ==> ram.covers((#[trigger] reqs[j]).addr, reqs[j].width),
    decreases n,
{
    if exists|j: int| 0 <= j < n && !ram.covers((#[trigger] reqs[j]).addr, reqs[j].width) {
        let j = choose|j: int| 0 <= j < n && !ram.covers((#[trigger] reqs[j]).addr, reqs[j].width);
        lemma_first_missing(ram, reqs, j)
    } else {
        n
    }
}

/// The planned writes of a segment that follows fine ones are refused where the RAM has
/// no room for it.
proof fn lemma_no_room_is_reported(
    before: RamBus,
    image: Seq<u8>,
    segments: Seq<ProgramHeader>,
    r: Result<(), ElfError>,
    after: RamBus,
    i: int,
)
    requires
        crate::loader::staged_as(
            before,
            crate::loader::plan(image, segments, segments.len() as int),
            r,
            after,
        ),
        crate::loader::elf_header(image) is Some,
        addressable(segments),
        0 <= i < segments.len(),
        has_data(segments[i]),
        segments[i].p_paddr == segments[i].p_vaddr,
        segments[i].p_offset + segments[i].p_filesz <= image.len(),
        !has_room(before@, segments[i]),
        forall|j: int| 0 <= j < i ==> fine(before@, image, #[trigger] segments[j]),
    ensures
        r matches Err(ElfError::Bus { addr, resp }) && resp == AxiResp::DecErr
            && segments[i].p_paddr <= addr < segments[i].p_paddr + segments[i].p_filesz,
{
    let n = segments.len() as int;
    let planned = crate::loader::plan(image, segments, n);
    let earlier = crate::loader::plan(image, segments, i).0;
    let upto = crate::loader::plan(image, segments, i + 1).0;
    let phdr = segments[i];
    let addr = crate::loader::low_word(phdr.p_paddr);
    let data = crate::loader::file_data(image, phdr);
    let reqs = crate::loader::writes_from(addr, data, 0);
    lemma_fine_plan(before@, image, segments, i);
    crate::loader::lemma_plan_extends(image, segments, i + 1, n);
    assert(addr == phdr.p_paddr);
    assert(upto == earlier + reqs);
    assert(exists|j: int|
        0 <= j < reqs.len() && !before@.covers((#[trigger] reqs[j]).addr, reqs[j].width)) by {
        if forall|j: int|
            0 <= j < reqs.len() ==> before@.covers((#[trigger] reqs[j]).addr, reqs[j].width) {
            lemma_held_writes_hold(before@, addr, data, 0);
        }
    }
    let j = choose|j: int|
        0 <= j < reqs.len() && !before@.covers((#[trigger] reqs[j]).addr, reqs[j].width);
    assert(upto[earlier.len() + j] == reqs[j]);
    assert(planned.0[earlier.len() + j] == upto[earlier.len() + j]);
    let m = lemma_first_missing(before@, planned.0, earlier.len() + j);
    law_first_missing_write_is_reported(before, planned, r, after, m);
    assert(planned.0[m] == upto[m]);
    if m < earlier.len() {
        assert(upto[m] == earlier[m]);
    } else {
        assert(upto[m] == reqs[m - earlier.len()]);
        lemma_writes_lie_in_range(addr, data, 0, m - earlier.len());
    }
}

/// How staging segments in a RAM ends, by the fields of the program headers. It succeeds
/// if every segment is fine. Else the first that is not tells how it fails: different
/// addresses are a mismatch, data outside the file is a parse error, and missing memory
/// a decode error at an address of the segment.
pub proof fn law_staging_outcome(
    before: RamBus,
    image: Seq<u8>,
    segments: Seq<ProgramHeader>,
    r: Result<(), ElfError>,
    after: RamBus,
    i: int,
)
    requires
        crate::loader::staged_as(
            before,
            crate::loader::plan(image, segments, segments.len() as int),
            r,
            after,
        ),
        crate::loader::elf_header(image) is Some,
        addressable(segments),
        0 <= i <= segments.len(),
        forall|j: int| 0 <= j < i ==> fine(before@, image, #[trigger] segments[j]),
    ensures
        i == segments.len() ==> r is Ok,
        i < segments.len() && !fine(before@, image, segments[i]) ==> {
            let phdr = segments[i];
            if phdr.p_paddr != phdr.p_vaddr {
                r == Err::<(), ElfError>(
                    ElfError::SegmentPaddrMismatch {
                        vaddr: (phdr.p_vaddr % 0x1_0000_0000) as u32,
                        paddr: (phdr.p_paddr % 0x1_0000_0000) as u32,
                    },
                )
            } else if phdr.p_offset + phdr.p_filesz > image.len() {
                r is Err && r->Err_0 is Parse
            } else {
                r matches Err(ElfError::Bus { addr, resp }) && resp == AxiResp::DecErr
                    && phdr.p_paddr <= addr < phdr.p_paddr + phdr.p_filesz
            }
        },
{
    let n = segments.len() as int;
    let planned = crate::loader::plan(image, segments, n);
    lemma_fine_plan(before@, image, segments, i);
    if i < n && !fine(before@, image, segments[i]) && segments[i].p_paddr == segments[i].p_vaddr
        && segments[i].p_offset + segments[i].p_filesz <= image.len() {
        lemma_no_room_is_reported(before, image, segments, r, after, i);
    } else if i == n || !fine(before@, image, segments[i]) {
        if i < n {
            crate::loader::lemma_plan_extends(image, segments, i + 1, n);
            assert(planned == crate::loader::plan(image, segments, i + 1));
        }
        assert(planned.0 == crate::loader::plan(image, segments, i).0);
        if let Err(ElfError::Bus { addr, resp }) = r {
            let at = lemma_refused_write_is_missing(before, planned.0, addr, resp, after);
            assert(before@.covers(planned.0[at].addr, planned.0[at].width));
        }
    }
}

/// A write that a RAM refuses is one that it does not hold.
proof fn lemma_refused_write_is_missing(
    before: RamBus,
    reqs: Seq<StoreReq>,
    addr: u32,
    resp: AxiResp,
    after: RamBus,
) -> (at: int)
    requires
        crate::loader::refused(before, reqs, addr, resp, after),
    ensures
        0 <= at < reqs.len(),
        !before@.covers(reqs[at].addr, reqs[at].width),
{
    let (n, middle) = choose|n: int, middle: RamBus|
        0 <= n < reqs.len() && addr == reqs[n].addr && #[trigger] crate::loader::delivered(
            before,
            reqs.take(n),
            middle,
        ) && middle.model().written_to(
            reqs[n].addr,
            reqs[n].width,
            reqs[n].data,
            reqs[n].strb,
            Err(resp),
            after.model(),
        );
    let req = reqs[n];
    lemma_delivered_keeps_region(before, reqs.take(n), middle);
    crate::bus::law_ram_write(middle, req.addr, req.width, req.data, req.strb, Err(resp), after);
    n
}

/// How loading an image into a RAM ends. An ELF32 RISC-V executable whose segments are
/// all fine loads, and the answer is the entry point in its header; else the first
/// segment that is not fine tells how it fails.
pub proof fn law_load_outcome(
    before: RamBus,
    image: Seq<u8>,
    r: Result<u32, ElfError>,
    after: RamBus,
    i: int,
)
    requires
        crate::loader::loads(before, image, r, after),
        crate::loader::elf_header(image) is Some,
        image[4] == 1,
        crate::loader::elf_number(image, 18, 2) == 243,
        crate::loader::elf_number(image, 16, 2) == 2,
        addressable(crate::loader::elf_segments(image)),
        0 <= i <= crate::loader::elf_segments(image).len(),
        forall|j: int|
            0 <= j < i ==> fine(
                before@,
                image,
                #[trigger] crate::loader::elf_segments(image)[j],
            ),
    ensures
        ({
            let segments = crate::loader::elf_segments(image);
            &&& i == segments.len() ==> r is Ok && r->Ok_0 == crate::loader::elf_number(
                image,
                24,
                4,
            )
            &&& i < segments.len() && !fine(before@, image, segments[i]) ==> {
                let phdr = segments[i];
                if phdr.p_paddr != phdr.p_vaddr {
                    r == Err::<u32, ElfError>(
                        ElfError::SegmentPaddrMismatch {
                            vaddr: phdr.p_vaddr as u32,
                            paddr: phdr.p_paddr as u32,
                        },
                    )
                } else if phdr.p_offset + phdr.p_filesz > image.len() {
                    r is Err && r->Err_0 is Parse
                } else {
                    r matches Err(ElfError::Bus { addr, resp }) && resp == AxiResp::DecErr
                        && phdr.p_paddr <= addr < phdr.p_paddr + phdr.p_filesz
                }
            }
        }),
{
    let segments = crate::loader::elf_segments(image);
    let staged: Result<(), ElfError> = match r {
        Ok(_) => Ok(()),
        Err(e) => Err(e),
    };
    lemma_number_fits(image, 16, 2);
    lemma_number_fits(image, 18, 2);
    lemma_number_fits(image, 24, 4);
    law_staging_outcome(before, image, segments, staged, after, i);
    if i < segments.len() {
        law_elf32_addresses_fit(image, i);
    }
}

/// Whether the bus may answer `Ok` to each of `reqs` in turn, passing through `buses`.
pub open spec fn all_taken<B: Bus>(reqs: Seq<StoreReq>, buses: Seq<B>) -> bool {
    &&& buses.len() == reqs.len() + 1
    &&& forall|i: int|
        0 <= i < reqs.len() ==> buses[i].model().written_to(
            (#[trigger] reqs[i]).addr,
            reqs[i].width,
            reqs[i].data,
            reqs[i].strb,
            Ok(()),
            buses[i + 1].model(),
        )
}

/// Over any bus, a success means that the bus answered `Ok` to every planned write, in
/// order, and a bus error that it answered just that error to the write at that address,
/// which is one of the planned ones, after `Ok` to all before it. Either way nothing
/// comes after that.
pub proof fn law_staging_tells_the_bus<B: Bus>(
    before: B,
    planned: (Seq<StoreReq>, PlanEnd),
    r: Result<(), ElfError>,
    after: B,
)
    requires
        crate::loader::staged_as(before, planned, r, after),
    ensures
        !(r is Err && r->Err_0 is Bus) ==> exists|buses: Seq<B>| #[trigger]
            all_taken(planned.0, buses) && buses[0] == before && buses.last() == after,
        r matches Err(ElfError::Bus { addr, resp }) ==> exists|n: int, buses: Seq<B>|
            0 <= n < planned.0.len() && #[trigger] all_taken(planned.0.take(n), buses) && buses[0]
                == before && addr == planned.0[n].addr && buses.last().model().written_to(
                planned.0[n].addr,
                planned.0[n].width,
                planned.0[n].data,
                planned.0[n].strb,
                Err(resp),
                after.model(),
            ),
{
    if let Err(ElfError::Bus { addr, resp }) = r {
        let reqs = planned.0;
        let (n, middle) = choose|n: int, middle: B|
            0 <= n < reqs.len() && addr == reqs[n].addr && #[trigger] crate::loader::delivered(
                before,
                reqs.take(n),
                middle,
            ) && middle.model().written_to(
                reqs[n].addr,
                reqs[n].width,
                reqs[n].data,
                reqs[n].strb,
                Err(resp),
                after.model(),
            );
        let buses = lemma_delivered_is_taken(before, reqs.take(n), middle);
        assert(all_taken(reqs.take(n), buses));
    } else {
        let buses = lemma_delivered_is_taken(before, planned.0, after);
        assert(all_taken(planned.0, buses));
    }
}

/// What is delivered is answered `Ok`.
proof fn lemma_delivered_is_taken<B: Bus>(before: B, reqs: Seq<StoreReq>, after: B) -> (buses: Seq<
    B,
>)
    requires
        crate::loader::delivered(before, reqs, after),
    ensures
        all_taken(reqs, buses),
        buses[0] == before,
        buses.last() == after,
{
    let buses = choose|buses: Seq<B>| #[trigger]
        crate::loader::accepted(before, reqs, buses) && buses.last() == after;
    assert forall|i: int| 0 <= i < reqs.len() implies buses[i].model().written_to(
        (#[trigger] reqs[i]).addr,
        reqs[i].width,
        reqs[i].data,
        reqs[i].strb,
        Ok(()),
        buses[i + 1].model(),
    ) by {
        assert(crate::loader::accepts(buses[i], reqs[i], buses[i + 1]));
    }
    buses
}

} // verus!

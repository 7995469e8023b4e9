//! ELF program loader: stage the loadable segments of an ELF32 RISC-V executable
//! in a [`Bus`].
//!
//! The [`elf`] crate parses the image. The loader copies
//! `[p_offset, p_offset + p_filesz)` of each `PT_LOAD` segment and does **not**
//! zero the `p_memsz - p_filesz` tail: clearing `.bss` is the start-up code's job.
//! The entry point is returned for the caller to validate against its own memory
//! map.

use elf::endian::AnyEndian;
use elf::ElfBytes;
use vstd::prelude::*;

use crate::bus::{AxiResp, Bus, Width};
use crate::execute::StoreReq;

pub mod laws;

verus! {

/// `e_machine` of a RISC-V object.
const EM_RISCV: u16 = 243;

/// `e_type` of an executable.
const ET_EXEC: u16 = 2;

/// `p_type` of a loadable segment.
const PT_LOAD: u32 = 1;

/// The `elf` crate's parse error.
#[verifier::external_type_specification]
#[verifier::external_body]
pub struct ExParseError(elf::ParseError);

/// Everything that can go wrong loading an ELF image.
#[derive(Debug)]
pub enum ElfError {
    /// The `elf` crate could not parse the image (bad magic, truncation, a
    /// segment whose data falls outside the buffer, ...).
    Parse(elf::ParseError),
    /// `EI_CLASS` was not `ELFCLASS32`.
    NotElf32,
    /// `e_machine` was not `EM_RISCV`.
    NotRiscv,
    /// `e_type` was not `ET_EXEC`.
    NotExecutable,
    /// A loadable segment had `p_paddr != p_vaddr` (no identity mapping).
    SegmentPaddrMismatch {
        /// `p_vaddr` of the segment.
        vaddr: u32,
        /// `p_paddr` of the segment.
        paddr: u32,
    },
    /// A segment write was rejected by the bus: the address is unmapped, or the
    /// device refused it.
    Bus {
        /// The address of the rejected write.
        addr: u32,
        /// The bus's answer.
        resp: AxiResp,
    },
}

impl vstd::std_specs::convert::FromSpecImpl<elf::ParseError> for ElfError {
    open spec fn obeys_from_spec() -> bool {
        true
    }

    open spec fn from_spec(e: elf::ParseError) -> ElfError {
        ElfError::Parse(e)
    }
}

impl From<elf::ParseError> for ElfError {
    fn from(e: elf::ParseError) -> (r: Self) {
        ElfError::Parse(e)
    }
}

/// The lower-case hexadecimal digit `d`.
pub open spec fn hex_digit(d: int) -> Seq<char> {
    if d == 0 {
        "0"@
    } else if d == 1 {
        "1"@
    } else if d == 2 {
        "2"@
    } else if d == 3 {
        "3"@
    } else if d == 4 {
        "4"@
    } else if d == 5 {
        "5"@
    } else if d == 6 {
        "6"@
    } else if d == 7 {
        "7"@
    } else if d == 8 {
        "8"@
    } else if d == 9 {
        "9"@
    } else if d == 10 {
        "a"@
    } else if d == 11 {
        "b"@
    } else if d == 12 {
        "c"@
    } else if d == 13 {
        "d"@
    } else if d == 14 {
        "e"@
    } else {
        "f"@
    }
}

/// The low `n` hexadecimal digits of `v`, leading zeros included.
pub open spec fn hex_digits(v: int, n: nat) -> Seq<char>
    decreases n,
{
    if n == 0 {
        Seq::empty()
    } else {
        hex_digits(v / 16, (n - 1) as nat) + hex_digit(v % 16)
    }
}

/// An address as messages show it: `0x` and eight hexadecimal digits.
pub open spec fn hex_address(v: u32) -> Seq<char> {
    "0x"@ + hex_digits(v as int, 8)
}

/// Append the low `n` hexadecimal digits of `v` to `text`.
fn append_hex(text: &mut String, v: u32, n: u32)
    ensures
        final(text)@ == old(text)@ + hex_digits(v as int, n as nat),
    decreases n,
{
    if n > 0 {
        append_hex(text, v / 16, n - 1);
        let ghost higher = hex_digits(v as int / 16, (n - 1) as nat);
        let digit = match v % 16 {
            0 => "0",
            1 => "1",
            2 => "2",
            3 => "3",
            4 => "4",
            5 => "5",
            6 => "6",
            7 => "7",
            8 => "8",
            9 => "9",
            10 => "a",
            11 => "b",
            12 => "c",
            13 => "d",
            14 => "e",
            _ => "f",
        };
        text.append(digit);
        assert(text@ =~= old(text)@ + (higher + hex_digit(v as int % 16)));
    }
}

/// The name of a bus response, as messages show it.
pub open spec fn resp_text(resp: AxiResp) -> Seq<char> {
    match resp {
        AxiResp::Okay => "Okay"@,
        AxiResp::ExOkay => "ExOkay"@,
        AxiResp::SlvErr => "SlvErr"@,
        AxiResp::DecErr => "DecErr"@,
    }
}

impl ElfError {
    /// Whether `text` is the error's message. A parse error's own text is what the
    /// `elf` crate displays.
    pub open spec fn says(self, text: Seq<char>) -> bool {
        match self {
            ElfError::Parse(e) => exists|inner: String|
                #[trigger] vstd::string::to_string_from_display_ensures(&e, inner) && text
                    == "ELF parse error: "@ + inner@,
            ElfError::NotElf32 => text == "not an ELFCLASS32 object"@,
            ElfError::NotRiscv => text == "e_machine is not EM_RISCV"@,
            ElfError::NotExecutable => text == "e_type is not ET_EXEC"@,
            ElfError::SegmentPaddrMismatch { vaddr, paddr } => text == "segment p_paddr "@
                + hex_address(paddr) + " != p_vaddr "@ + hex_address(vaddr),
            ElfError::Bus { addr, resp } => text == "bus rejected segment write at "@
                + hex_address(addr) + ": "@ + resp_text(resp),
        }
    }

    /// A message that tells the error.
    pub fn message(&self) -> (text: String)
        ensures
            self.says(text@),
    {
        match self {
            ElfError::Parse(e) => {
                let inner = e.to_string();
                String::from_str("ELF parse error: ").concat(inner.as_str())
            },
            ElfError::NotElf32 => String::from_str("not an ELFCLASS32 object"),
            ElfError::NotRiscv => String::from_str("e_machine is not EM_RISCV"),
            ElfError::NotExecutable => String::from_str("e_type is not ET_EXEC"),
            ElfError::SegmentPaddrMismatch { vaddr, paddr } => {
                let mut text = String::from_str("segment p_paddr ");
                append_address(&mut text, *paddr);
                text.append(" != p_vaddr ");
                append_address(&mut text, *vaddr);
                text
            },
            ElfError::Bus { addr, resp } => {
                let mut text = String::from_str("bus rejected segment write at ");
                append_address(&mut text, *addr);
                text.append(": ");
                let name = match resp {
                    AxiResp::Okay => "Okay",
                    AxiResp::ExOkay => "ExOkay",
                    AxiResp::SlvErr => "SlvErr",
                    AxiResp::DecErr => "DecErr",
                };
                text.append(name);
                text
            },
        }
    }
}

/// Append an address to `text`.
fn append_address(text: &mut String, v: u32)
    ensures
        final(text)@ == old(text)@ + hex_address(v),
{
    text.append("0x");
    append_hex(text, v, 8);
    assert(text@ =~= old(text)@ + ("0x"@ + hex_digits(v as int, 8)));
}

/// What the loader reads of an ELF file header.
#[derive(Copy, Clone, PartialEq, Eq, Debug, Structural)]
pub struct FileHeader {
    /// Whether `EI_CLASS` is `ELFCLASS32`.
    pub elf32: bool,
    /// Object file type.
    pub e_type: u16,
    /// Target architecture.
    pub e_machine: u16,
    /// Address of the entry point.
    pub e_entry: u64,
}

/// An ELF program header.
#[derive(Copy, Clone, PartialEq, Eq, Debug, Structural)]
pub struct ProgramHeader {
    /// Segment type.
    pub p_type: u32,
    /// Offset of the segment's data in the file.
    pub p_offset: u64,
    /// Virtual address.
    pub p_vaddr: u64,
    /// Physical address.
    pub p_paddr: u64,
    /// Size of the segment in the file.
    pub p_filesz: u64,
    /// Size of the segment in memory.
    pub p_memsz: u64,
    /// Flags.
    pub p_flags: u32,
    /// Alignment in file and memory.
    pub p_align: u64,
}

/// The write that stores the data from byte `i` on: an aligned word where the
/// address is aligned and a word is left, else a byte. Addresses wrap around.
pub open spec fn write_at(addr: u32, data: Seq<u8>, i: int) -> StoreReq {
    let at = crate::word::wrap(addr + i);
    if at % 4 == 0 && i + 4 <= data.len() {
        StoreReq {
            addr: at,
            data: crate::bus::loaded(data, i, Width::Word),
            strb: 0xF,
            width: Width::Word,
        }
    } else {
        StoreReq { addr: at, data: data[i] as u32, strb: 0x1, width: Width::Byte }
    }
}

/// The writes that copy `data`, from byte `i` on, to `addr`.
pub open spec fn writes_from(addr: u32, data: Seq<u8>, i: int) -> Seq<StoreReq>
    decreases data.len() - i,
{
    if 0 <= i < data.len() {
        let req = write_at(addr, data, i);
        seq![req] + writes_from(addr, data, i + req.width.size())
    } else {
        Seq::empty()
    }
}

/// Whether the bus may accept all of `reqs` in turn, passing through `buses`,
/// which starts with `before` and has one entry more than `reqs`.
pub open spec fn accepted<B: Bus>(before: B, reqs: Seq<StoreReq>, buses: Seq<B>) -> bool {
    &&& buses.len() == reqs.len() + 1
    &&& buses[0] == before
    &&& forall|i: int|
        0 <= i < reqs.len() ==> accepts(buses[i], #[trigger] reqs[i], buses[i + 1])
}

/// Whether the bus may accept `req` and be left as `after`.
pub open spec fn accepts<B: Bus>(before: B, req: StoreReq, after: B) -> bool {
    before.model().written_to(
        req.addr,
        req.width,
        req.data,
        req.strb,
        Ok(()),
        after.model(),
    )
}

/// Whether the bus may accept all of `reqs` in turn and be left as `after`.
pub open spec fn delivered<B: Bus>(before: B, reqs: Seq<StoreReq>, after: B) -> bool {
    exists|buses: Seq<B>| #[trigger] accepted(before, reqs, buses) && buses.last() == after
}

/// Whether the bus may accept the first of `reqs`, answer `resp` to the next, which
/// goes to `addr`, and be left as `after`.
pub open spec fn refused<B: Bus>(
    before: B,
    reqs: Seq<StoreReq>,
    addr: u32,
    resp: AxiResp,
    after: B,
) -> bool {
    exists|n: int, middle: B|
        0 <= n < reqs.len() && addr == reqs[n].addr && #[trigger] delivered(
            before,
            reqs.take(n),
            middle,
        ) && middle.model().written_to(
            reqs[n].addr,
            reqs[n].width,
            reqs[n].data,
            reqs[n].strb,
            Err(resp),
            after.model(),
        )
}

/// Write to the bus, with a refusal turned into an [`ElfError::Bus`].
fn put<B: Bus>(bus: &mut B, req: StoreReq) -> (r: Result<(), ElfError>)
    ensures
        match r {
            Ok(_) => accepts(*old(bus), req, *final(bus)),
            Err(e) => e matches ElfError::Bus { addr, resp } && addr == req.addr && (*old(
                bus,
            )).model().written_to(
                req.addr,
                req.width,
                req.data,
                req.strb,
                Err(resp),
                (*final(bus)).model(),
            ),
        },
{
    let reply = bus.write(req.addr, req.width, req.data, req.strb);
    match reply {
        Ok(u) => {
            assert(u == () && reply == Ok::<(), AxiResp>(u));
            Ok(())
        },
        Err(resp) => Err(ElfError::Bus { addr: req.addr, resp }),
    }
}

/// Copy `data` to the bus from address `addr` on.
///
/// Leading bytes until the address is word-aligned, then aligned words, then
/// trailing bytes, so that an unaligned start or a length that is no multiple of
/// four still meets a device's rule that word writes be aligned and full-strobe. A
/// byte write has the byte in the low lane of its value, with strobe `0x1`.
pub fn write_segment<B: Bus>(bus: &mut B, addr: u32, data: &[u8]) -> (r: Result<(), ElfError>)
    ensures
        match r {
            Ok(_) => delivered(*old(bus), writes_from(addr, data@, 0), *final(bus)),
            Err(ElfError::Bus { addr: at, resp }) => refused(
                *old(bus),
                writes_from(addr, data@, 0),
                at,
                resp,
                *final(bus),
            ),
            Err(_) => false,
        },
{
    let ghost reqs = writes_from(addr, data@, 0);
    let ghost mut done: Seq<StoreReq> = Seq::empty();
    let mut i: usize = 0;
    proof {
        assert(accepted(*bus, done, seq![*bus]));
        assert(reqs =~= done + writes_from(addr, data@, 0));
    }
    while i < data.len()
        invariant
            i <= data@.len(),
            reqs == done + writes_from(addr, data@, i as int),
            reqs == writes_from(addr, data@, 0),
            delivered(*old(bus), done, *bus),
        decreases data@.len() - i,
    {
        let at: u32 = addr.wrapping_add((i as u64 % 0x1_0000_0000) as u32);
        let req = if at % 4 == 0 && data.len() - i >= 4 {
            let word: u32 = data[i] as u32 + 0x100 * data[i + 1] as u32 + 0x1_0000 * data[i
                + 2] as u32 + 0x100_0000 * data[i + 3] as u32;
            proof {
                crate::bus::lemma_loaded(data@, i as int, Width::Word);
            }
            StoreReq { addr: at, data: word, strb: 0xF, width: Width::Word }
        } else {
            StoreReq { addr: at, data: data[i] as u32, strb: 0x1, width: Width::Byte }
        };
        assert(req == write_at(addr, data@, i as int));
        let ghost before = *bus;
        let r = put(bus, req);
        proof {
            assert(reqs[done.len() as int] == req);
            assert(reqs.take(done.len() as int) =~= done);
        }
        match r {
            Ok(_) => {},
            Err(e) => {
                assert(delivered(*old(bus), reqs.take(done.len() as int), before));
                return Err(e);
            },
        }
        let step: usize = req.width.bytes() as usize;
        proof {
            lemma_delivers(*old(bus), done, before, req, *bus);
            assert(reqs =~= done.push(req) + writes_from(addr, data@, i + step));
            done = done.push(req);
        }
        i = i + step;
    }
    assert(done =~= reqs);
    Ok(())
}

/// What was delivered and one more accepted write are delivered.
proof fn lemma_delivers<B: Bus>(
    before: B,
    reqs: Seq<StoreReq>,
    middle: B,
    req: StoreReq,
    after: B,
)
    requires
        delivered(before, reqs, middle),
        accepts(middle, req, after),
    ensures
        delivered(before, reqs.push(req), after),
{
    let buses = choose|buses: Seq<B>| #[trigger]
        accepted(before, reqs, buses) && buses.last() == middle;
    let longer = reqs.push(req);
    let passed = buses.push(after);
    assert forall|i: int| 0 <= i < longer.len() implies accepts(
        passed[i],
        #[trigger] longer[i],
        passed[i + 1],
    ) by {
        if i < reqs.len() {
            assert(longer[i] == reqs[i]);
        }
    }
    assert(accepted(before, longer, passed));
}

/// The number that `len` bytes of `image` at `off` hold in the byte order of an
/// ELF file: byte 5 is 1 for little-endian, 2 for big-endian.
pub open spec fn elf_number(image: Seq<u8>, off: int, len: int) -> int {
    let bytes = image.subrange(off, off + len);
    if image[5] == 1 {
        crate::word::le_value(bytes) as int
    } else {
        crate::word::le_value(bytes.reverse()) as int
    }
}

/// Whether the first bytes of `image` identify an ELF file: its magic number, a
/// known class (1 for ELF32, 2 for ELF64) and byte order, the current version, and
/// room for the file header of its class.
pub open spec fn identified(image: Seq<u8>) -> bool {
    &&& image.len() >= 52
    &&& image[0] == 0x7F && image[1] == 0x45 && image[2] == 0x4C && image[3] == 0x46
    &&& image[4] == 1 || image[4] == 2 && image.len() >= 64
    &&& image[5] == 1 || image[5] == 2
    &&& image[6] == 1
}

/// A field of `image` that has one offset and length in an ELF32 file and another
/// in an ELF64 file.
pub open spec fn elf_field(image: Seq<u8>, in32: (int, int), in64: (int, int)) -> int {
    if image[4] == 1 {
        elf_number(image, in32.0, in32.1)
    } else {
        elf_number(image, in64.0, in64.1)
    }
}

/// Where the program header table starts; 0 if there is none.
pub open spec fn e_phoff(image: Seq<u8>) -> int {
    elf_field(image, (28, 4), (32, 8))
}

/// Where the section header table starts; 0 if there is none.
pub open spec fn e_shoff(image: Seq<u8>) -> int {
    elf_field(image, (32, 4), (40, 8))
}

/// The size of a program header.
pub open spec fn program_header_size(image: Seq<u8>) -> int {
    if image[4] == 1 {
        32
    } else {
        56
    }
}

/// The size of a section header.
pub open spec fn section_header_size(image: Seq<u8>) -> int {
    if image[4] == 1 {
        40
    } else {
        64
    }
}

/// The number of section headers: `e_shnum`, or `sh_size` of the first section
/// header where that is 0.
pub open spec fn section_count(image: Seq<u8>) -> int {
    let shnum = elf_field(image, (48, 2), (60, 2));
    let first = e_shoff(image);
    if shnum == 0 {
        elf_field(image, (first + 20, 4), (first + 32, 8))
    } else {
        shnum
    }
}

/// Whether the number of program headers is kept in the first section header.
pub open spec fn segment_count_is_elsewhere(image: Seq<u8>) -> bool {
    elf_field(image, (44, 2), (56, 2)) == 0xFFFF
}

/// The number of program headers: `e_phnum`, or `sh_info` of the first section
/// header where it is kept there.
pub open spec fn segment_count(image: Seq<u8>) -> int {
    let first = e_shoff(image);
    if segment_count_is_elsewhere(image) {
        elf_field(image, (first + 28, 4), (first + 44, 4))
    } else {
        elf_field(image, (44, 2), (56, 2))
    }
}

/// Whether the section header table, if there is one, has entries of the right size
/// and lies in the image.
pub open spec fn section_headers_fit(image: Seq<u8>) -> bool {
    e_shoff(image) == 0 || {
        &&& elf_field(image, (48, 2), (60, 2)) == 0 ==> e_shoff(image) + section_header_size(image)
            <= image.len()
        &&& elf_field(image, (46, 2), (58, 2)) == section_header_size(image)
        &&& e_shoff(image) + section_header_size(image) * section_count(image) <= image.len()
    }
}

/// Whether the program header table, if there is one, has entries of the right size
/// and lies in the image.
pub open spec fn program_headers_fit(image: Seq<u8>) -> bool {
    e_phoff(image) == 0 || {
        &&& segment_count_is_elsewhere(image) ==> e_shoff(image) + section_header_size(image)
            <= image.len()
        &&& elf_field(image, (42, 2), (54, 2)) == program_header_size(image)
        &&& e_phoff(image) + program_header_size(image) * segment_count(image) <= image.len()
    }
}

/// The file header of `image`; nothing if it is no ELF file, or one whose header
/// tables do not fit.
pub open spec fn elf_header(image: Seq<u8>) -> Option<FileHeader> {
    if identified(image) && section_headers_fit(image) && program_headers_fit(image) {
        Some(
            FileHeader {
                elf32: image[4] == 1,
                e_type: elf_number(image, 16, 2) as u16,
                e_machine: elf_number(image, 18, 2) as u16,
                e_entry: elf_field(image, (24, 4), (24, 8)) as u64,
            },
        )
    } else {
        None
    }
}

/// The program header at offset `at` of `image`.
pub open spec fn program_header_at(image: Seq<u8>, at: int) -> ProgramHeader {
    ProgramHeader {
        p_type: elf_number(image, at, 4) as u32,
        p_offset: elf_field(image, (at + 4, 4), (at + 8, 8)) as u64,
        p_vaddr: elf_field(image, (at + 8, 4), (at + 16, 8)) as u64,
        p_paddr: elf_field(image, (at + 12, 4), (at + 24, 8)) as u64,
        p_filesz: elf_field(image, (at + 16, 4), (at + 32, 8)) as u64,
        p_memsz: elf_field(image, (at + 20, 4), (at + 40, 8)) as u64,
        p_flags: elf_field(image, (at + 24, 4), (at + 4, 4)) as u32,
        p_align: elf_field(image, (at + 28, 4), (at + 48, 8)) as u64,
    }
}

/// The program headers of `image`: they lie one after the other.
pub open spec fn elf_segments(image: Seq<u8>) -> Seq<ProgramHeader> {
    Seq::new(
        if e_phoff(image) == 0 {
            0
        } else {
            segment_count(image) as nat
        },
        |i: int| program_header_at(image, e_phoff(image) + program_header_size(image) * i),
    )
}

/// Wraps [`elf::ElfBytes::minimal_parse`].
///
/// It claims which images are accepted and which header is read from them
/// ([`elf_header`]). Which error a refused image gets is left unsaid: its detail
/// depends on the width of the machine's addresses.
#[verifier::external_body]
fn parse_header(image: &[u8]) -> (r: Result<FileHeader, elf::ParseError>)
    ensures
        r is Ok <==> elf_header(image@) is Some,
        r matches Ok(header) ==> elf_header(image@) == Some(header),
{
    let file = ElfBytes::<AnyEndian>::minimal_parse(image)?;
    Ok(
        FileHeader {
            elf32: match file.ehdr.class {
                elf::file::Class::ELF32 => true,
                elf::file::Class::ELF64 => false,
            },
            e_type: file.ehdr.e_type,
            e_machine: file.ehdr.e_machine,
            e_entry: file.ehdr.e_entry,
        },
    )
}

/// Wraps [`elf::ElfBytes::segments`], on what `minimal_parse` makes of the image.
///
/// It claims that these are the program headers of the image, in their order
/// ([`elf_segments`]), and that there is an error exactly if the image is refused.
/// Which error that is, is left unsaid.
#[verifier::external_body]
fn parse_segments(image: &[u8]) -> (r: Result<Vec<ProgramHeader>, elf::ParseError>)
    ensures
        r is Ok <==> elf_header(image@) is Some,
        r matches Ok(segments) ==> segments@ == elf_segments(image@),
{
    let file = ElfBytes::<AnyEndian>::minimal_parse(image)?;
    let headers = file.segments().into_iter().flatten().map(
        |p|
            ProgramHeader {
                p_type: p.p_type,
                p_offset: p.p_offset,
                p_vaddr: p.p_vaddr,
                p_paddr: p.p_paddr,
                p_filesz: p.p_filesz,
                p_memsz: p.p_memsz,
                p_flags: p.p_flags,
                p_align: p.p_align,
            },
    );
    Ok(headers.collect())
}

/// Wraps [`elf::ElfBytes::segment_data`], on what `minimal_parse` makes of the
/// image.
///
/// It claims that the data is the part of the image that the program header
/// names, and that there is an error exactly if the image is refused or that part
/// does not lie in it. Which error that is, is left unsaid.
#[verifier::external_body]
fn segment_data<'a>(image: &'a [u8], phdr: &ProgramHeader) -> (r: Result<
    &'a [u8],
    elf::ParseError,
>)
    ensures
        r is Ok <==> readable(image@, *phdr),
        r matches Ok(data) ==> data@ == file_data(image@, *phdr),
{
    let file = ElfBytes::<AnyEndian>::minimal_parse(image)?;
    file.segment_data(
        &elf::segment::ProgramHeader {
            p_type: phdr.p_type,
            p_offset: phdr.p_offset,
            p_vaddr: phdr.p_vaddr,
            p_paddr: phdr.p_paddr,
            p_filesz: phdr.p_filesz,
            p_memsz: phdr.p_memsz,
            p_flags: phdr.p_flags,
            p_align: phdr.p_align,
        },
    )
}

/// Whether the image is an ELF file that holds the segment's data.
pub open spec fn readable(image: Seq<u8>, phdr: ProgramHeader) -> bool {
    elf_header(image) is Some && phdr.p_offset + phdr.p_filesz <= image.len()
}

/// The segment's data in the file.
pub open spec fn file_data(image: Seq<u8>, phdr: ProgramHeader) -> Seq<u8> {
    image.subrange(phdr.p_offset as int, phdr.p_offset + phdr.p_filesz)
}

/// The low 32 bits of an address.
pub open spec fn low_word(address: u64) -> u32 {
    (address % 0x1_0000_0000) as u32
}

/// What the loader makes of a file header: the entry point of an ELF32 RISC-V
/// executable, else the first of the three that it is not.
pub open spec fn header_verdict(header: FileHeader) -> Result<u32, ElfError> {
    if !header.elf32 {
        Err(ElfError::NotElf32)
    } else if header.e_machine != 243 {
        Err(ElfError::NotRiscv)
    } else if header.e_type != 2 {
        Err(ElfError::NotExecutable)
    } else {
        Ok(low_word(header.e_entry))
    }
}

/// Check that `header` is that of an ELF32 RISC-V executable, and return its entry
/// point.
pub fn check_header(header: &FileHeader) -> (r: Result<u32, ElfError>)
    ensures
        r == header_verdict(*header),
{
    if !header.elf32 {
        return Err(ElfError::NotElf32);
    }
    if header.e_machine != EM_RISCV {
        return Err(ElfError::NotRiscv);
    }
    if header.e_type != ET_EXEC {
        return Err(ElfError::NotExecutable);
    }
    Ok((header.e_entry % 0x1_0000_0000) as u32)
}

/// How staging the segments ends, if the bus accepts every write.
pub enum PlanEnd {
    /// All loadable segments are staged.
    Done,
    /// A loadable segment has different physical and virtual addresses.
    Mismatch { vaddr: u32, paddr: u32 },
    /// A loadable segment's data does not lie in the file.
    Unreadable,
}

/// Whether the loader stages the segment: it is loadable and has data.
pub open spec fn loadable(phdr: ProgramHeader) -> bool {
    phdr.p_type == 1 && phdr.p_filesz != 0
}

/// The writes that stage the first `n` segments, in order, up to the first
/// loadable one that cannot be staged, and how that ends.
pub open spec fn plan(image: Seq<u8>, segments: Seq<ProgramHeader>, n: int) -> (
    Seq<StoreReq>,
    PlanEnd,
)
    decreases n,
{
    if n <= 0 {
        (Seq::empty(), PlanEnd::Done)
    } else {
        let (reqs, end) = plan(image, segments, n - 1);
        let phdr = segments[n - 1];
        if end !is Done || !loadable(phdr) {
            (reqs, end)
        } else if phdr.p_paddr != phdr.p_vaddr {
            (
                reqs,
                PlanEnd::Mismatch {
                    vaddr: low_word(phdr.p_vaddr),
                    paddr: low_word(phdr.p_paddr),
                },
            )
        } else if !readable(image, phdr) {
            (reqs, PlanEnd::Unreadable)
        } else {
            (
                reqs + writes_from(low_word(phdr.p_paddr), file_data(image, phdr), 0),
                PlanEnd::Done,
            )
        }
    }
}

/// Whether staging as planned may answer `r` and leave the bus as `after`: a write
/// that the bus refuses ends it, else it ends as the plan does.
pub open spec fn staged_as<B: Bus>(
    before: B,
    planned: (Seq<StoreReq>, PlanEnd),
    r: Result<(), ElfError>,
    after: B,
) -> bool {
    match r {
        Ok(_) => planned.1 is Done && delivered(before, planned.0, after),
        Err(ElfError::Bus { addr, resp }) => refused(before, planned.0, addr, resp, after),
        Err(ElfError::SegmentPaddrMismatch { vaddr, paddr }) => planned.1 == (PlanEnd::Mismatch {
            vaddr,
            paddr,
        }) && delivered(before, planned.0, after),
        Err(ElfError::Parse(_)) => planned.1 is Unreadable && delivered(before, planned.0, after),
        Err(_) => false,
    }
}

/// Stage the loadable ones of `segments`, whose data lies in `image`, on the bus.
pub fn load_segments<B: Bus>(
    bus: &mut B,
    image: &[u8],
    segments: &Vec<ProgramHeader>,
) -> (r: Result<(), ElfError>)
    ensures
        staged_as(
            *old(bus),
            plan(image@, segments@, segments@.len() as int),
            r,
            *final(bus),
        ),
{
    let mut i: usize = 0;
    assert(accepted(*bus, Seq::empty(), seq![*bus]));
    while i < segments.len()
        invariant
            i <= segments@.len(),
            staged_as(*old(bus), plan(image@, segments@, i as int), Ok(()), *bus),
        decreases segments@.len() - i,
    {
        let phdr = segments[i];
        let ghost so_far = plan(image@, segments@, i as int);
        let ghost whole = plan(image@, segments@, segments@.len() as int);
        let ghost next = plan(image@, segments@, i + 1);
        i = i + 1;
        if phdr.p_type == PT_LOAD && phdr.p_filesz != 0 {
            if phdr.p_paddr != phdr.p_vaddr {
                proof {
                    lemma_plan_extends(image@, segments@, i as int, segments@.len() as int);
                }
                return Err(
                    ElfError::SegmentPaddrMismatch {
                        vaddr: (phdr.p_vaddr % 0x1_0000_0000) as u32,
                        paddr: (phdr.p_paddr % 0x1_0000_0000) as u32,
                    },
                );
            }
            let data = match segment_data(image, &phdr) {
                Ok(data) => data,
                Err(e) => {
                    proof {
                        lemma_plan_extends(image@, segments@, i as int, segments@.len() as int);
                    }
                    return Err(ElfError::Parse(e));
                },
            };
            let ghost before = *bus;
            let r = write_segment(bus, (phdr.p_paddr % 0x1_0000_0000) as u32, data);
            proof {
                let reqs = writes_from(low_word(phdr.p_paddr), data@, 0);
                assert(next.0 == so_far.0 + reqs);
                lemma_plan_extends(image@, segments@, i as int, segments@.len() as int);
                match r {
                    Ok(_) => lemma_delivered_chain(*old(bus), so_far.0, before, reqs, *bus),
                    Err(ElfError::Bus { addr, resp }) => {
                        lemma_refused_chain(
                            *old(bus),
                            so_far.0,
                            before,
                            reqs,
                            addr,
                            resp,
                            *bus,
                            whole.0,
                        );
                    },
                    Err(_) => {},
                }
            }
            match r {
                Ok(_) => {},
                Err(e) => return Err(e),
            }
        }
    }
    Ok(())
}

/// A longer plan starts with the writes of a shorter one, and is the same once the
/// shorter one has ended early.
proof fn lemma_plan_extends(image: Seq<u8>, segments: Seq<ProgramHeader>, n: int, m: int)
    requires
        0 <= n <= m,
    ensures
        plan(image, segments, n).0.is_prefix_of(plan(image, segments, m).0),
        plan(image, segments, n).1 !is Done ==> plan(image, segments, m) == plan(
            image,
            segments,
            n,
        ),
    decreases m - n,
{
    if n < m {
        lemma_plan_extends(image, segments, n, m - 1);
        let shorter = plan(image, segments, n).0;
        let longer = plan(image, segments, m - 1).0;
        assert(plan(image, segments, m).0.take(longer.len() as int) =~= longer);
        assert(plan(image, segments, m).0.subrange(0, shorter.len() as int) =~= shorter);
    }
}

/// Two deliveries, one after the other, are a delivery.
proof fn lemma_delivered_chain<B: Bus>(
    before: B,
    first: Seq<StoreReq>,
    middle: B,
    second: Seq<StoreReq>,
    after: B,
)
    requires
        delivered(before, first, middle),
        delivered(middle, second, after),
    ensures
        delivered(before, first + second, after),
{
    let b1 = choose|buses: Seq<B>| #[trigger]
        accepted(before, first, buses) && buses.last() == middle;
    let b2 = choose|buses: Seq<B>| #[trigger]
        accepted(middle, second, buses) && buses.last() == after;
    let reqs = first + second;
    let buses = b1 + b2.drop_first();
    assert forall|i: int| 0 <= i < reqs.len() implies accepts(
        buses[i],
        #[trigger] reqs[i],
        buses[i + 1],
    ) by {
        if i < first.len() {
            assert(reqs[i] == first[i]);
        } else {
            assert(reqs[i] == second[i - first.len()]);
            assert(buses[i] == b2[i - first.len()]);
            assert(buses[i + 1] == b2[i + 1 - first.len()]);
        }
    }
    assert(accepted(before, reqs, buses));
}

/// An accepted write and a delivery are a delivery.
pub(crate) proof fn lemma_delivered_cons<B: Bus>(
    before: B,
    req: StoreReq,
    middle: B,
    rest: Seq<StoreReq>,
    after: B,
)
    requires
        accepts(before, req, middle),
        delivered(middle, rest, after),
    ensures
        delivered(before, seq![req] + rest, after),
{
    let none: Seq<StoreReq> = Seq::empty();
    assert(accepted(before, none, seq![before]));
    lemma_delivers(before, none, before, req, middle);
    assert(none.push(req) =~= seq![req]);
    lemma_delivered_chain(before, seq![req], middle, rest, after);
}

/// A delivery followed by a refusal is a refusal, however the writes go on.
proof fn lemma_refused_chain<B: Bus>(
    before: B,
    first: Seq<StoreReq>,
    middle: B,
    second: Seq<StoreReq>,
    addr: u32,
    resp: AxiResp,
    after: B,
    whole: Seq<StoreReq>,
)
    requires
        delivered(before, first, middle),
        refused(middle, second, addr, resp, after),
        (first + second).is_prefix_of(whole),
    ensures
        refused(before, whole, addr, resp, after),
{
    let (n, mid) = choose|n: int, mid: B|
        0 <= n < second.len() && addr == second[n].addr && #[trigger] delivered(
            middle,
            second.take(n),
            mid,
        ) && mid.model().written_to(
            second[n].addr,
            second[n].width,
            second[n].data,
            second[n].strb,
            Err(resp),
            after.model(),
        );
    let k = first.len() + n;
    lemma_delivered_chain(before, first, middle, second.take(n), mid);
    assert((first + second)[k] == second[n]);
    assert(whole[k] == (first + second)[k]);
    assert(whole.take(k) =~= first + second.take(n));
    assert(delivered(before, whole.take(k), mid));
}

/// Whether loading `image` may answer `r` and leave the bus as `after`.
///
/// An image that is no proper ELF file is a parse error, and a header that is not
/// that of an ELF32 RISC-V executable its own error; either leaves the bus alone.
/// Otherwise the loadable segments are staged as planned, and the answer on success
/// is the entry point.
pub open spec fn loads<B: Bus>(
    before: B,
    image: Seq<u8>,
    r: Result<u32, ElfError>,
    after: B,
) -> bool {
    match elf_header(image) {
        None => r matches Err(ElfError::Parse(_)) && after == before,
        Some(header) => match header_verdict(header) {
            Err(e) => r == Err::<u32, ElfError>(e) && after == before,
            Ok(entry) => {
                &&& r matches Ok(v) ==> v == entry
                &&& staged_as(
                    before,
                    plan(image, elf_segments(image), elf_segments(image).len() as int),
                    match r {
                        Ok(_) => Ok(()),
                        Err(e) => Err(e),
                    },
                    after,
                )
            },
        },
    }
}

/// Parse an ELF image and write its loadable segments into `bus`.
///
/// On success returns the ELF entry point (`e_entry`). On failure `bus` may have
/// been partially written; callers should not rely on its contents.
pub fn load_elf_bytes<B: Bus>(bus: &mut B, image: &[u8]) -> (r: Result<u32, ElfError>)
    ensures
        loads(*old(bus), image@, r, *final(bus)),
{
    let header = match parse_header(image) {
        Ok(header) => header,
        Err(e) => return Err(ElfError::Parse(e)),
    };
    let entry: u32 = match check_header(&header) {
        Ok(entry) => entry,
        Err(e) => return Err(e),
    };
    let segments = match parse_segments(image) {
        Ok(segments) => segments,
        Err(e) => return Err(ElfError::Parse(e)),
    };
    match load_segments(bus, image, &segments) {
        Ok(_) => Ok(entry),
        Err(e) => Err(e),
    }
}

} // verus!

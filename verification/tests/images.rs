//! ELF images of many shapes: what the loader makes of each.

use iss_core::loader::{check_header, load_segments, write_segment, FileHeader, ProgramHeader};
use iss_core::{load_elf_bytes, AxiResp, Bus, ElfError, RamBus, Width};

const BASE: u32 = 0x8000_0000;

/// One program header of an image to build.
#[derive(Clone, Copy)]
struct Seg {
    p_type: u32,
    vaddr: u32,
    paddr: u32,
    offset: u32,
    filesz: u32,
    memsz: u32,
}

fn put(buf: &mut [u8], big: bool, off: usize, v: u32, len: usize) {
    for i in 0..len {
        let byte = (v >> (8 * i)) as u8;
        let at = if big { off + len - 1 - i } else { off + i };
        buf[at] = byte;
    }
}

/// An ELF32 RISC-V executable with the given program headers and, from offset 0x100
/// on, `payload`.
fn build(big: bool, entry: u32, segs: &[Seg], payload: &[u8]) -> Vec<u8> {
    let mut buf = vec![0u8; 0x100 + payload.len()];
    buf[0..4].copy_from_slice(&[0x7F, b'E', b'L', b'F']);
    buf[4] = 1;
    buf[5] = if big { 2 } else { 1 };
    buf[6] = 1;
    put(&mut buf, big, 16, 2, 2);
    put(&mut buf, big, 18, 243, 2);
    put(&mut buf, big, 20, 1, 4);
    put(&mut buf, big, 24, entry, 4);
    put(&mut buf, big, 28, 52, 4);
    put(&mut buf, big, 40, 52, 2);
    put(&mut buf, big, 42, 32, 2);
    put(&mut buf, big, 44, segs.len() as u32, 2);
    for (i, s) in segs.iter().enumerate() {
        let p = 52 + 32 * i;
        put(&mut buf, big, p, s.p_type, 4);
        put(&mut buf, big, p + 4, s.offset, 4);
        put(&mut buf, big, p + 8, s.vaddr, 4);
        put(&mut buf, big, p + 12, s.paddr, 4);
        put(&mut buf, big, p + 16, s.filesz, 4);
        put(&mut buf, big, p + 20, s.memsz, 4);
    }
    buf[0x100..].copy_from_slice(payload);
    buf
}

fn load_seg(addr: u32, offset: u32, filesz: u32) -> Seg {
    Seg {
        p_type: 1,
        vaddr: addr,
        paddr: addr,
        offset,
        filesz,
        memsz: filesz,
    }
}

fn byte_at(bus: &mut RamBus, addr: u32) -> u32 {
    bus.read(addr, Width::Byte).unwrap()
}

#[test]
fn segments_land_in_order_and_later_ones_win() {
    let payload: Vec<u8> = (1..=12).collect();
    let segs = [load_seg(BASE, 0x100, 8), load_seg(BASE + 6, 0x108, 4)];
    let image = build(false, BASE + 4, &segs, &payload);
    let mut bus = RamBus::new(BASE, 0x20);
    assert_eq!(load_elf_bytes(&mut bus, &image).unwrap(), BASE + 4);
    let expected = [1, 2, 3, 4, 5, 6, 9, 10, 11, 12, 0, 0];
    for (i, e) in expected.iter().enumerate() {
        assert_eq!(byte_at(&mut bus, BASE + i as u32), *e);
    }
}

#[test]
fn other_segment_types_and_empty_ones_are_skipped() {
    let payload = [0xAA, 0xBB, 0xCC, 0xDD];
    let note = Seg {
        p_type: 4,
        ..load_seg(0x10, 0x100, 4)
    };
    // An empty segment is not even checked for equal addresses.
    let empty = Seg {
        vaddr: 0x10,
        ..load_seg(0x20, 0x100, 0)
    };
    let segs = [note, empty, load_seg(BASE, 0x102, 2)];
    let image = build(false, 0, &segs, &payload);
    let mut bus = RamBus::new(BASE, 0x10);
    assert_eq!(load_elf_bytes(&mut bus, &image).unwrap(), 0);
    assert_eq!(bus.read(BASE, Width::Word), Ok(0x0000_DDCC));
}

#[test]
fn the_tail_of_a_segment_is_not_zeroed() {
    let seg = Seg {
        memsz: 8,
        ..load_seg(BASE, 0x100, 4)
    };
    let image = build(false, BASE, &[seg], &[1, 2, 3, 4]);
    let mut bus = RamBus::from_bytes(BASE, vec![0xEE; 16]);
    load_elf_bytes(&mut bus, &image).unwrap();
    assert_eq!(bus.read(BASE, Width::Word), Ok(0x0403_0201));
    assert_eq!(bus.read(BASE + 4, Width::Word), Ok(0xEEEE_EEEE));
}

#[test]
fn big_endian_headers_are_read_as_such() {
    let image = build(true, 0x8000_0010, &[load_seg(BASE, 0x100, 3)], &[7, 8, 9]);
    let mut bus = RamBus::new(BASE, 0x10);
    assert_eq!(load_elf_bytes(&mut bus, &image).unwrap(), 0x8000_0010);
    assert_eq!(bus.read(BASE, Width::Word), Ok(0x0009_0807));
}

#[test]
fn an_image_without_program_headers_has_only_an_entry() {
    let mut image = build(false, 0x1234, &[], &[]);
    image[28..32].copy_from_slice(&[0, 0, 0, 0]); // e_phoff
    let mut bus = RamBus::new(0, 4);
    assert_eq!(load_elf_bytes(&mut bus, &image).unwrap(), 0x1234);
}

#[test]
fn different_addresses_are_rejected_after_earlier_segments() {
    let bad = Seg {
        vaddr: 0x1000_0000,
        ..load_seg(BASE + 8, 0x100, 4)
    };
    let image = build(false, BASE, &[load_seg(BASE, 0x100, 4), bad], &[1, 2, 3, 4]);
    let mut bus = RamBus::new(BASE, 0x10);
    let err = load_elf_bytes(&mut bus, &image).unwrap_err();
    assert!(matches!(
        err,
        ElfError::SegmentPaddrMismatch {
            vaddr: 0x1000_0000,
            paddr: 0x8000_0008
        }
    ));
    assert_eq!(
        err.message(),
        "segment p_paddr 0x80000008 != p_vaddr 0x10000000"
    );
    // The segment before it is in memory.
    assert_eq!(bus.read(BASE, Width::Word), Ok(0x0403_0201));
}

#[test]
fn segment_data_outside_the_file_is_a_parse_error() {
    let image = build(false, BASE, &[load_seg(BASE, 0x102, 3)], &[1, 2, 3, 4]);
    let mut bus = RamBus::new(BASE, 0x10);
    let err = load_elf_bytes(&mut bus, &image).unwrap_err();
    assert!(matches!(err, ElfError::Parse(_)));
    assert_eq!(
        err.message(),
        "ELF parse error: Could not read bytes in range [0x102, 0x105)"
    );
    assert_eq!(bus.read(BASE, Width::Word), Ok(0));
}

#[test]
fn header_table_outside_the_file_is_a_parse_error() {
    let mut image = build(false, BASE, &[load_seg(BASE, 0x100, 1)], &[1]);
    image[44] = 200; // e_phnum
    let mut bus = RamBus::new(BASE, 0x10);
    assert!(matches!(
        load_elf_bytes(&mut bus, &image),
        Err(ElfError::Parse(_))
    ));
}

#[test]
fn bad_magic_message_shows_the_bytes() {
    let mut image = build(false, BASE, &[], &[]);
    image[0] = 0;
    let mut bus = RamBus::new(BASE, 4);
    assert_eq!(
        load_elf_bytes(&mut bus, &image).unwrap_err().message(),
        "ELF parse error: Invalid Magic Bytes: [0, 45, 4C, 46]"
    );
}

#[test]
fn each_header_check_has_its_error() {
    let plain = build(false, BASE, &[], &[]);
    let mut bus = RamBus::new(BASE, 4);

    let mut image = vec![0u8; 0x100];
    image[..52].copy_from_slice(&plain[..52]);
    image[4] = 2; // ELFCLASS64
    image[32..64].copy_from_slice(&[0; 32]); // no header tables
    let err = load_elf_bytes(&mut bus, &image).unwrap_err();
    assert!(matches!(err, ElfError::NotElf32));
    assert_eq!(err.message(), "not an ELFCLASS32 object");

    let mut image = plain.clone();
    image[18] = 62; // EM_X86_64
    let err = load_elf_bytes(&mut bus, &image).unwrap_err();
    assert!(matches!(err, ElfError::NotRiscv));
    assert_eq!(err.message(), "e_machine is not EM_RISCV");

    let mut image = plain.clone();
    image[16] = 3; // ET_DYN
    let err = load_elf_bytes(&mut bus, &image).unwrap_err();
    assert!(matches!(err, ElfError::NotExecutable));
    assert_eq!(err.message(), "e_type is not ET_EXEC");

    // Byte order and version are checked by the parser.
    let mut image = plain.clone();
    image[5] = 3;
    assert!(matches!(
        load_elf_bytes(&mut bus, &image),
        Err(ElfError::Parse(_))
    ));
    let mut image = plain;
    image[6] = 2;
    assert!(matches!(
        load_elf_bytes(&mut bus, &image),
        Err(ElfError::Parse(_))
    ));
    assert!(matches!(
        load_elf_bytes(&mut bus, &[]),
        Err(ElfError::Parse(_))
    ));
}

#[test]
fn header_checks_come_in_order() {
    let header = FileHeader {
        elf32: false,
        e_type: 0,
        e_machine: 0,
        e_entry: 0,
    };
    assert!(matches!(check_header(&header), Err(ElfError::NotElf32)));
    let header = FileHeader {
        elf32: true,
        ..header
    };
    assert!(matches!(check_header(&header), Err(ElfError::NotRiscv)));
    let header = FileHeader {
        e_machine: 243,
        ..header
    };
    assert!(matches!(
        check_header(&header),
        Err(ElfError::NotExecutable)
    ));
    let header = FileHeader {
        e_type: 2,
        e_entry: 0x8000_0004,
        ..header
    };
    assert_eq!(check_header(&header).unwrap(), 0x8000_0004);
}

/// A bus that takes down every write, and refuses from the `limit`-th on.
struct Log {
    writes: Vec<(u32, Width, u32, u8)>,
    limit: usize,
}

impl Bus for Log {
    fn read(&mut self, _addr: u32, _width: Width) -> Result<u32, AxiResp> {
        Err(AxiResp::SlvErr)
    }
    fn write(&mut self, addr: u32, width: Width, value: u32, strb: u8) -> Result<(), AxiResp> {
        if self.writes.len() == self.limit {
            return Err(AxiResp::SlvErr);
        }
        self.writes.push((addr, width, value, strb));
        Ok(())
    }
}

#[test]
fn a_segment_is_written_as_bytes_words_and_bytes() {
    let data: Vec<u8> = (0x10..0x1B).collect(); // 11 bytes
    let mut bus = Log {
        writes: Vec::new(),
        limit: usize::MAX,
    };
    write_segment(&mut bus, 0x8000_0002, &data).unwrap();
    assert_eq!(
        bus.writes,
        vec![
            (0x8000_0002, Width::Byte, 0x10, 0x1),
            (0x8000_0003, Width::Byte, 0x11, 0x1),
            (0x8000_0004, Width::Word, 0x1514_1312, 0xF),
            (0x8000_0008, Width::Word, 0x1918_1716, 0xF),
            (0x8000_000C, Width::Byte, 0x1A, 0x1),
        ]
    );
}

#[test]
fn a_refused_write_ends_the_segment() {
    let mut bus = Log {
        writes: Vec::new(),
        limit: 1,
    };
    let err = write_segment(&mut bus, 0x100, &[1, 2, 3, 4, 5]).unwrap_err();
    assert!(matches!(
        err,
        ElfError::Bus {
            addr: 0x104,
            resp: AxiResp::SlvErr
        }
    ));
    assert_eq!(
        err.message(),
        "bus rejected segment write at 0x00000104: SlvErr"
    );
    assert_eq!(bus.writes, vec![(0x100, Width::Word, 0x0403_0201, 0xF)]);
}

#[test]
fn addresses_wrap_at_the_top_of_memory() {
    let mut bus = Log {
        writes: Vec::new(),
        limit: usize::MAX,
    };
    write_segment(&mut bus, 0xFFFF_FFFF, &[1, 2, 3, 4, 5]).unwrap();
    assert_eq!(
        bus.writes,
        vec![
            (0xFFFF_FFFF, Width::Byte, 1, 0x1),
            (0, Width::Word, 0x0504_0302, 0xF),
        ]
    );
}

#[test]
fn segments_of_a_parsed_image_are_staged_from_its_bytes() {
    let image = build(false, BASE, &[], &[5, 6, 7, 8]);
    let header = ProgramHeader {
        p_type: 1,
        p_offset: 0x101,
        p_vaddr: BASE as u64,
        p_paddr: BASE as u64,
        p_filesz: 2,
        p_memsz: 2,
        p_flags: 0,
        p_align: 1,
    };
    let mut bus = RamBus::new(BASE, 8);
    load_segments(&mut bus, &image, &vec![header]).unwrap();
    assert_eq!(bus.read(BASE, Width::Word), Ok(0x0000_0706));
}

/// Append a section header table of `n` entries of `entsize` bytes each.
fn with_sections(mut image: Vec<u8>, n: u16, entsize: u16) -> Vec<u8> {
    let shoff = image.len() as u32;
    put(&mut image, false, 32, shoff, 4);
    put(&mut image, false, 46, entsize as u32, 2);
    put(&mut image, false, 48, n as u32, 2);
    image.resize(image.len() + n as usize * entsize as usize, 0);
    image
}

#[test]
fn a_section_header_table_in_the_file_is_no_obstacle() {
    let plain = build(false, BASE, &[load_seg(BASE, 0x100, 4)], &[1, 2, 3, 4]);
    let image = with_sections(plain.clone(), 3, 40);
    let mut bus = RamBus::new(BASE, 0x10);
    assert_eq!(load_elf_bytes(&mut bus, &image).unwrap(), BASE);
    assert_eq!(bus.read(BASE, Width::Word), Ok(0x0403_0201));

    // Entries of another size, and a table that runs out of the file.
    let odd = with_sections(plain.clone(), 3, 64);
    assert!(matches!(
        load_elf_bytes(&mut bus, &odd),
        Err(ElfError::Parse(_))
    ));
    let mut cut = with_sections(plain, 3, 40);
    cut.pop();
    assert!(matches!(
        load_elf_bytes(&mut bus, &cut),
        Err(ElfError::Parse(_))
    ));
}

#[test]
fn the_first_missing_address_is_reported() {
    let payload: Vec<u8> = (0..16).collect();
    let image = build(false, BASE, &[load_seg(BASE, 0x100, 16)], &payload);
    let mut bus = RamBus::new(BASE, 8);
    assert!(matches!(
        load_elf_bytes(&mut bus, &image),
        Err(ElfError::Bus {
            addr: 0x8000_0008,
            resp: AxiResp::DecErr
        })
    ));
    // What came before it is in memory.
    assert_eq!(bus.read(BASE + 4, Width::Word), Ok(0x0706_0504));
}

#[test]
fn refused_images_leave_the_bus_alone() {
    let good = build(false, BASE, &[load_seg(BASE, 0x100, 4)], &[1, 2, 3, 4]);
    for (at, value) in [(0, 0), (4, 3), (5, 0), (6, 0), (18, 3), (16, 1)] {
        let mut image = good.clone();
        image[at] = value;
        let mut bus = RamBus::new(BASE, 4);
        assert!(load_elf_bytes(&mut bus, &image).is_err());
        assert_eq!(bus.read(BASE, Width::Word), Ok(0));
    }
}

fn parse_error(image: &[u8]) -> bool {
    let mut bus = RamBus::new(BASE, 0x10);
    let refused = matches!(load_elf_bytes(&mut bus, image), Err(ElfError::Parse(_)));
    assert_eq!(bus.read(BASE, Width::Word), Ok(0));
    refused
}

#[test]
fn program_headers_have_one_size() {
    let image = build(false, BASE, &[load_seg(BASE, 0x100, 4)], &[0, 0, 0, 0]);
    assert!(!parse_error(&image));
    for size in [0, 31, 33, 56] {
        let mut odd = image.clone();
        put(&mut odd, false, 42, size, 2);
        assert!(parse_error(&odd));
        // Without a table nobody asks for the size of its entries.
        put(&mut odd, false, 28, 0, 4);
        assert!(!parse_error(&odd));
    }
}

#[test]
fn an_empty_table_still_starts_in_the_file() {
    let mut image = build(false, BASE, &[], &[]);
    let end = image.len() as u32;
    put(&mut image, false, 28, end, 4);
    assert!(!parse_error(&image));
    put(&mut image, false, 28, end + 1, 4);
    assert!(parse_error(&image));
}

#[test]
fn the_first_section_header_may_hold_the_number_of_sections() {
    let plain = build(false, BASE, &[load_seg(BASE, 0x100, 4)], &[0, 0, 0, 0]);
    let shoff = plain.len();
    let mut image = with_sections(plain, 2, 40);
    put(&mut image, false, 48, 0, 2); // e_shnum
    for (count, fits) in [(0, true), (2, true), (3, false), (0xFFFF_FFFF, false)] {
        put(&mut image, false, shoff + 20, count, 4); // sh_size
        assert_eq!(parse_error(&image), !fits);
    }
    // That header itself has to be there.
    put(&mut image, false, shoff + 20, 0, 4);
    image.truncate(shoff + 39);
    assert!(parse_error(&image));
}

#[test]
fn the_first_section_header_may_hold_the_number_of_segments() {
    let segs = [load_seg(BASE, 0x100, 4), load_seg(BASE + 4, 0x104, 4)];
    let plain = build(false, BASE, &segs, &[1, 2, 3, 4, 5, 6, 7, 8]);
    let shoff = plain.len();
    let mut image = with_sections(plain, 1, 40);
    put(&mut image, false, 44, 0xFFFF, 2); // e_phnum
    for (count, second) in [(1, 0), (2, 0x0807_0605)] {
        put(&mut image, false, shoff + 28, count, 4); // sh_info
        let mut bus = RamBus::new(BASE, 0x10);
        assert_eq!(load_elf_bytes(&mut bus, &image).unwrap(), BASE);
        assert_eq!(bus.read(BASE, Width::Word), Ok(0x0403_0201));
        assert_eq!(bus.read(BASE + 4, Width::Word), Ok(second));
    }
    put(&mut image, false, shoff + 28, 1000, 4);
    assert!(parse_error(&image));
    // No section header at the end of the file to take the number from.
    put(&mut image, false, shoff + 28, 1, 4);
    put(&mut image, false, 32, shoff as u32 + 1, 4);
    assert!(parse_error(&image));
}

/// An ELF64 file with one empty program header and one empty section header.
fn wide() -> Vec<u8> {
    let mut buf = vec![0u8; 64 + 56 + 64];
    buf[0..7].copy_from_slice(&[0x7F, b'E', b'L', b'F', 2, 1, 1]);
    put(&mut buf, false, 16, 2, 2);
    put(&mut buf, false, 18, 243, 2);
    put(&mut buf, false, 32, 64, 4); // e_phoff
    put(&mut buf, false, 40, 64 + 56, 4); // e_shoff
    put(&mut buf, false, 54, 56, 2);
    put(&mut buf, false, 56, 1, 2);
    put(&mut buf, false, 58, 64, 2);
    put(&mut buf, false, 60, 1, 2);
    buf
}

#[test]
fn wide_files_are_checked_before_they_are_rejected() {
    let mut bus = RamBus::new(BASE, 4);
    assert!(matches!(
        load_elf_bytes(&mut bus, &wide()),
        Err(ElfError::NotElf32)
    ));
    // The sizes of the entries, the numbers of entries, and the upper halves of the
    // offsets.
    for (at, value, len) in [
        (54, 32, 2),
        (58, 40, 2),
        (56, 3, 2),
        (60, 2, 2),
        (36, 1, 4),
        (44, 1, 4),
    ] {
        let mut image = wide();
        put(&mut image, false, at, value, len);
        assert!(parse_error(&image));
    }
    // The numbers of entries in the first section header.
    let mut image = wide();
    put(&mut image, false, 56, 0xFFFF, 2);
    put(&mut image, false, 60, 0, 2);
    put(&mut image, false, 120 + 32, 1, 4);
    put(&mut image, false, 120 + 44, 2, 4);
    assert!(!parse_error(&image));
    put(&mut image, false, 120 + 36, 1, 4);
    assert!(parse_error(&image));
    put(&mut image, false, 120 + 36, 0, 4);
    put(&mut image, false, 120 + 44, 3, 4);
    assert!(parse_error(&image));
}

#[test]
fn the_file_header_has_to_be_there() {
    let mut narrow = build(false, 0x44, &[], &[]);
    put(&mut narrow, false, 28, 0, 4);
    narrow.truncate(52);
    let mut bus = RamBus::new(BASE, 4);
    assert_eq!(load_elf_bytes(&mut bus, &narrow).unwrap(), 0x44);
    narrow.pop();
    assert!(parse_error(&narrow));

    let mut image = wide();
    put(&mut image, false, 32, 0, 4);
    put(&mut image, false, 40, 0, 4);
    image.truncate(64);
    assert!(matches!(
        load_elf_bytes(&mut bus, &image),
        Err(ElfError::NotElf32)
    ));
    image.pop();
    assert!(parse_error(&image));
}

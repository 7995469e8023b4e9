//! Loading ELF images.

use iss_core::{load_elf_bytes, Bus, ElfError, RamBus, Width};

const BASE: u32 = 0x8000_0000;

/// The 4-instruction payload used by the synthetic ELF (contents arbitrary).
const PROG: [u32; 4] = [
    0x0050_0513, // addi x10, x0, 5
    0xFFF5_0513, // addi x10, x10, -1
    0xFE05_1EE3, // bne  x10, x0, -4
    0x0000_006F, // jal  x0, 0
];

/// Build a minimal single-`PT_LOAD` ELF32 image: ehdr (52B) + phdr (32B) +
/// `payload`, with entry and segment vaddr/paddr at `entry`.
fn synth_elf(entry: u32, payload: &[u8]) -> Vec<u8> {
    const EHSZ: usize = 52;
    const PHSZ: usize = 32;
    let off_payload = EHSZ + PHSZ;
    let mut buf = vec![0u8; off_payload + payload.len()];

    // --- Elf32_Ehdr ---
    buf[0..4].copy_from_slice(&[0x7F, b'E', b'L', b'F']);
    buf[4] = 1; // EI_CLASS = ELFCLASS32
    buf[5] = 1; // EI_DATA  = ELFDATA2LSB
    buf[6] = 1; // EI_VERSION = EV_CURRENT
    let w16 =
        |buf: &mut [u8], o: usize, v: u16| buf[o..o + 2].copy_from_slice(&v.to_le_bytes());
    let w32 =
        |buf: &mut [u8], o: usize, v: u32| buf[o..o + 4].copy_from_slice(&v.to_le_bytes());
    w16(&mut buf, 16, 2); // e_type = ET_EXEC
    w16(&mut buf, 18, 243); // e_machine = EM_RISCV
    w32(&mut buf, 20, 1); // e_version
    w32(&mut buf, 24, entry); // e_entry
    w32(&mut buf, 28, EHSZ as u32); // e_phoff
    w16(&mut buf, 40, EHSZ as u16); // e_ehsize
    w16(&mut buf, 42, PHSZ as u16); // e_phentsize
    w16(&mut buf, 44, 1); // e_phnum

    // --- Elf32_Phdr at EHSZ ---
    let p = EHSZ;
    w32(&mut buf, p, 1); // p_type = PT_LOAD
    w32(&mut buf, p + 4, off_payload as u32); // p_offset
    w32(&mut buf, p + 8, entry); // p_vaddr
    w32(&mut buf, p + 12, entry); // p_paddr
    w32(&mut buf, p + 16, payload.len() as u32); // p_filesz
    w32(&mut buf, p + 20, payload.len() as u32); // p_memsz
    w32(&mut buf, p + 24, 0x5); // p_flags = R|X
    w32(&mut buf, p + 28, 4); // p_align

    buf[off_payload..].copy_from_slice(payload);
    buf
}

fn prog_bytes() -> Vec<u8> {
    PROG.iter().flat_map(|w| w.to_le_bytes()).collect()
}

#[test]
fn loads_minimal_elf_into_rambus() {
    let elf = synth_elf(BASE, &prog_bytes());
    let mut bus = RamBus::new(BASE, 0x1000);

    let entry = load_elf_bytes(&mut bus, &elf).unwrap();

    assert_eq!(entry, BASE);
    assert_eq!(bus.read(BASE, Width::Word), Ok(PROG[0]));
    assert_eq!(bus.read(BASE + 12, Width::Word), Ok(PROG[3]));
}

#[test]
fn bad_magic_is_rejected() {
    let mut elf = synth_elf(BASE, &prog_bytes());
    elf[0] = 0x00; // corrupt the magic
    let mut bus = RamBus::new(BASE, 0x1000);
    assert!(matches!(
        load_elf_bytes(&mut bus, &elf),
        Err(ElfError::Parse(_))
    ));
}

#[test]
fn wrong_machine_is_rejected() {
    let mut elf = synth_elf(BASE, &prog_bytes());
    // e_machine at offset 18 -> something other than EM_RISCV (243).
    elf[18..20].copy_from_slice(&3u16.to_le_bytes()); // EM_386
    let mut bus = RamBus::new(BASE, 0x1000);
    assert!(matches!(
        load_elf_bytes(&mut bus, &elf),
        Err(ElfError::NotRiscv)
    ));
}

#[test]
fn unaligned_start_and_odd_length_round_trip() {
    // Segment starts 1 byte into the word and is 6 bytes long: exercises
    // the leading-byte, single-word, and trailing-byte phases together.
    let payload: [u8; 6] = [0x11, 0x22, 0x33, 0x44, 0x55, 0x66];
    let start = BASE + 1;
    let elf = synth_elf(start, &payload);
    let mut bus = RamBus::new(BASE, 0x1000);

    let entry = load_elf_bytes(&mut bus, &elf).unwrap();
    assert_eq!(entry, start);
    for (i, &b) in payload.iter().enumerate() {
        assert_eq!(bus.read(start + i as u32, Width::Byte), Ok(b as u32));
    }
    // Bytes outside the segment stay zero.
    assert_eq!(bus.read(BASE, Width::Byte), Ok(0));
    assert_eq!(bus.read(start + 6, Width::Byte), Ok(0));
}

#[test]
fn segment_outside_bus_is_bus_error() {
    // Bus covers only [BASE, BASE+8); a 16-byte segment overruns it.
    let elf = synth_elf(BASE, &prog_bytes());
    let mut bus = RamBus::new(BASE, 8);
    assert!(matches!(
        load_elf_bytes(&mut bus, &elf),
        Err(ElfError::Bus { .. })
    ));
}

//! A `Core` driven over the device fabric: an address map of devices, with a
//! handle on the memory behind it for inspection after the run.

use std::cell::RefCell;
use std::rc::Rc;

use iss_core::{load_elf_bytes, AxiResp, Bus, Core, DeviceBus, MmioDevice, Ram, RamBus, Width};

const BASE: u32 = 0x8000_0000;
const DRAM_SIZE: u32 = 0x1000;
const DATA_OFF: u32 = 0x100;

/// A memory that the fabric and the test share.
#[derive(Clone)]
struct Shared(Rc<RefCell<Ram>>);

impl MmioDevice for Shared {
    fn read(&mut self, offset: u32, width: Width) -> Result<u32, AxiResp> {
        self.0.borrow_mut().read(offset, width)
    }
    fn write(&mut self, offset: u32, width: Width, value: u32, strb: u8) -> Result<(), AxiResp> {
        self.0.borrow_mut().write(offset, width, value, strb)
    }
}

fn bytes_of(words: &[u32]) -> Vec<u8> {
    words.iter().flat_map(|w| w.to_le_bytes()).collect()
}

/// A fabric whose only device is a memory at `base` that starts with `program`.
fn map_with_program(base: u32, program: &[u32]) -> (DeviceBus, Shared) {
    let mut bytes = bytes_of(program);
    bytes.resize(DRAM_SIZE as usize, 0);
    let dram = Shared(Rc::new(RefCell::new(Ram::from_bytes(bytes))));
    let mut map = DeviceBus::new();
    map.add(base, DRAM_SIZE, Box::new(dram.clone())).unwrap();
    (map, dram)
}

/// A single-`PT_LOAD` ELF32 image with entry and segment addresses at `entry`.
fn synth_elf(entry: u32, payload: &[u8]) -> Vec<u8> {
    let mut buf = vec![0u8; 84 + payload.len()];
    buf[0..4].copy_from_slice(&[0x7F, b'E', b'L', b'F']);
    buf[4] = 1; // ELFCLASS32
    buf[5] = 1; // ELFDATA2LSB
    buf[6] = 1; // EV_CURRENT
    let w16 = |buf: &mut [u8], o: usize, v: u16| buf[o..o + 2].copy_from_slice(&v.to_le_bytes());
    let w32 = |buf: &mut [u8], o: usize, v: u32| buf[o..o + 4].copy_from_slice(&v.to_le_bytes());
    w16(&mut buf, 16, 2); // ET_EXEC
    w16(&mut buf, 18, 243); // EM_RISCV
    w32(&mut buf, 20, 1); // e_version
    w32(&mut buf, 24, entry); // e_entry
    w32(&mut buf, 28, 52); // e_phoff
    w16(&mut buf, 40, 52); // e_ehsize
    w16(&mut buf, 42, 32); // e_phentsize
    w16(&mut buf, 44, 1); // e_phnum
    w32(&mut buf, 52, 1); // PT_LOAD
    w32(&mut buf, 56, 84); // p_offset
    w32(&mut buf, 60, entry); // p_vaddr
    w32(&mut buf, 64, entry); // p_paddr
    w32(&mut buf, 68, payload.len() as u32); // p_filesz
    w32(&mut buf, 72, payload.len() as u32); // p_memsz
    w32(&mut buf, 76, 0x5); // R|X
    w32(&mut buf, 80, 4); // p_align
    buf[84..].copy_from_slice(payload);
    buf
}

#[test]
fn loads_into_dram_fabric_and_executes() {
    // addi a0, x0, 0x2A ; ebreak
    let program = [0x02A0_0513, 0x0010_0073];
    let elf = synth_elf(BASE, &bytes_of(&program));
    let (mut map, mut dram) = map_with_program(BASE, &[]);

    let entry = load_elf_bytes(&mut map, &elf).unwrap();
    assert_eq!(entry, BASE);

    // The segment bytes landed in memory, observed through the device handle.
    assert_eq!(dram.read(0, Width::Word), Ok(program[0]));
    assert_eq!(dram.read(4, Width::Word), Ok(program[1]));

    // Seed PC with the entry point and run the loaded program to its EBREAK.
    let mut core = Core::new(map);
    core.state_mut().pc = entry;
    let halt = core.run_until_halt(|_pkt| {});
    assert_eq!(halt.exit_code, 42); // a0 & 0xFF
}

#[test]
fn core_runs_a_program_on_the_device_fabric() {
    let (map, mut dram) = map_with_program(
        0,
        &[
            0x1000_0593, // addi a1, x0, 0x100
            0x02A0_0513, // addi a0, x0, 0x2A
            0x00A5_A023, // sw   a0, 0(a1)
            0x0005_A603, // lw   a2, 0(a1)
            0x0010_0073, // ebreak
        ],
    );
    let mut core = Core::new(map);
    let halt = core.run_until_halt(|_pkt| {});

    // EBREAK exit code is the low byte of a0 (= 42).
    assert_eq!(halt.exit_code, 42);
    // The load wrote a2 (x12) back from the fabric.
    assert_eq!(core.state().gpr[12], 42);
    // And the store really landed in memory, observed through the device handle.
    assert_eq!(dram.read(DATA_OFF, Width::Word), Ok(42));
}

#[test]
fn unmapped_fetch_through_the_fabric_halts() {
    // Memory only at a high base leaves the reset PC (0) unmapped, so the first
    // fetch is a fabric decode error.
    let (map, _dram) = map_with_program(0x8000_0000, &[0x0010_0073]);
    let mut core = Core::new(map);
    let halt = core.run_until_halt(|_pkt| {});
    assert_eq!(halt.exit_code, 131);
}

#[test]
fn core_runs_over_a_borrowed_and_a_dynamic_bus() {
    let mut ram = RamBus::new(0, 0x100);
    // addi a0, x0, 7 ; sw a0, 0x40(x0) ; ebreak
    ram.load_program(0, &[0x0070_0513, 0x04A0_2023, 0x0010_0073]);
    let mut other = ram.clone();

    {
        let mut core = Core::new(&mut ram);
        assert_eq!(core.run_until_halt(|_| {}).exit_code, 7);
    }
    assert_eq!(ram.read(0x40, Width::Word), Ok(7));

    {
        let dynamic: &mut dyn Bus = &mut other;
        let mut core = Core::new(dynamic);
        assert_eq!(core.run_until_halt(|_| {}).exit_code, 7);
    }
    assert_eq!(other.read(0x40, Width::Word), Ok(7));
}

/// A bus written outside the library: every read is a `nop`, every write refused.
struct Nops;

impl Bus for Nops {
    fn read(&mut self, _addr: u32, _width: Width) -> Result<u32, AxiResp> {
        Ok(0x0000_0013)
    }
    fn write(&mut self, _a: u32, _w: Width, _v: u32, _s: u8) -> Result<(), AxiResp> {
        Err(AxiResp::SlvErr)
    }
}

#[test]
fn core_runs_over_a_bus_of_its_user() {
    let mut core = Core::new(Nops);
    assert_eq!(core.run_until_halt_max(10, |_| {}), Err(10));
    assert_eq!(core.state().pc, 40);
}

#[test]
fn order_of_registration_does_not_affect_dispatch() {
    let build = |swap: bool| {
        let mut bus = DeviceBus::default();
        let low: (u32, u8) = (0x1000, 0x11);
        let high: (u32, u8) = (0x2000, 0x22);
        let order = if swap { [high, low] } else { [low, high] };
        for (base, fill) in order {
            bus.add(base, 0x10, Box::new(Ram::from_bytes(vec![fill; 0x10])))
                .unwrap();
        }
        bus
    };
    for swap in [false, true] {
        let mut bus = build(swap);
        assert_eq!(bus.read(0x1004, Width::Byte), Ok(0x11));
        assert_eq!(bus.read(0x2004, Width::Half), Ok(0x2222));
        assert_eq!(bus.read(0x1800, Width::Byte), Err(AxiResp::DecErr));
    }
}

#[test]
fn ram_smaller_than_its_range_refuses_what_it_lacks() {
    let mut bus = DeviceBus::new();
    bus.add(0x100, 0x100, Box::new(Ram::new(8))).unwrap();
    assert_eq!(bus.write(0x104, Width::Word, 0xA1B2_C3D4, 0xF), Ok(()));
    assert_eq!(bus.read(0x104, Width::Word), Ok(0xA1B2_C3D4));
    assert_eq!(bus.read(0x106, Width::Half), Ok(0xA1B2));
    assert_eq!(bus.read(0x108, Width::Word), Err(AxiResp::SlvErr));
    assert_eq!(bus.write(0x106, Width::Word, 0, 0xF), Err(AxiResp::SlvErr));
    // A refused write changed nothing.
    assert_eq!(bus.read(0x104, Width::Word), Ok(0xA1B2_C3D4));
}

#[test]
fn registration_at_the_edges_of_the_address_space() {
    let mut bus = DeviceBus::new();
    assert_eq!(
        bus.add(0xFFFF_FFF0, 0x10, Box::new(Ram::new(0x10))),
        Err(iss_core::AddError::BadRange)
    );
    assert_eq!(bus.add(0xFFFF_FFF0, 0xF, Box::new(Ram::new(0x10))), Ok(()));
    // The end of this access is past the last address.
    assert_eq!(bus.read(0xFFFF_FFFE, Width::Word), Err(AxiResp::DecErr));
    assert_eq!(bus.read(0xFFFF_FFFE, Width::Byte), Ok(0));
    // The last address of a unit is taken.
    assert_eq!(
        bus.add(0xFFFF_FFE0, 0x11, Box::new(Ram::new(0x11))),
        Err(iss_core::AddError::Overlap)
    );
}

#[test]
fn every_packet_is_observed_once_and_in_order() {
    let mut ram = RamBus::new(0, 0x100);
    ram.load_program(0, &[0x0000_0013, 0x0000_0013, 0x0000_0013, 0x0010_0073]);
    let mut seen = Vec::new();
    let halt = Core::new(ram.clone()).run_until_halt(|p| seen.push((p.pc, p.halt)));
    assert_eq!(
        seen,
        vec![(0, None), (4, None), (8, None), (12, Some(halt))]
    );
    let mut seen = Vec::new();
    let mut core = Core::new(ram);
    assert_eq!(core.run_until_halt_max(3, |p| seen.push(p.pc)), Err(3));
    assert_eq!(seen, vec![0, 4, 8]);
    assert_eq!(core.state().pc, 12);
    assert_eq!(core.run_until_halt_max(9, |p| seen.push(p.pc)), Ok(halt));
    assert_eq!(seen, vec![0, 4, 8, 12]);
}

# iss-core: a verified RV32I_Zicsr hart

A functional model of one RISC-V **RV32I_Zicsr Machine-mode hart**, written in
Rust and verified with Verus. One `Core::step()` runs

```text
Fetch -> Decode -> Execute -> [barrier] -> Commit
```

and returns a `CommitPacket`, the architectural footprint of that step: a normal
retirement (GPR write and/or store), a trap entry (`ECALL` or an interrupt), or a
halt event (voluntary `EBREAK` or an involuntary fault). The barrier between
Execute and Commit is the single trap insertion point; a trap bypasses Commit.

```rust
use iss_core::{Bus, Core, RamBus, Width};

let mut bus = RamBus::new(0, 0x1000);
bus.write(0, Width::Word, 0x0010_0073, 0xF).unwrap(); // ebreak

let mut core = Core::new(bus);
core.state_mut().gpr[10] = 0x2A;                       // a0 = 42

let halt = core.run_until_halt(|_pkt| {});
assert_eq!(halt.exit_code, 42);                        // EBREAK exit = a0 & 0xFF
```

## Layout

```
src/
  word.rs      two's complement, wrap-around, bits and bytes of a word
  bus.rs       Bus trait, AxiResp, Width, RamBus (flat memory)
  device.rs    MmioDevice trait, DeviceBus (devices by address range), Ram
  csr/         CsrFile: seven storage CSRs and the mip wires
  arch.rs      ArchState: PC, 32 GPRs, CSR file
  alu.rs       ALU operations and branch conditions
  decode/      bit-field extraction, control signals, decode()
  execute.rs   Action / Staging: Execute produces, never commits
  hart.rs      Core<B: Bus>: step, barrier, commit, trap, run loops
  packet.rs    CommitPacket, HaltKind, TrapEvent
  laws.rs      what holds of every step and every run
  loader/      staging the PT_LOAD segments of an ELF32 executable on a bus
  runner.rs    pacing of an interactive run
tests/         tests of the compiled library
app/           run-eos: an interactive run on a SoC, with terminal and clock
```

## How contracts are stated

Every type has a model: `CsrFile@` is a `CsrModel`, `ArchState@` an `ArchModel`,
`RamBus@` a `RamModel`, `DeviceBus@` a sequence of units. Pure steps are
functions over those models (`decoded`, `staged`, `settled`, `CsrModel::write`).

A bus or a device is a state and two relations, which say what an access may answer
and which state it may leave. `Core::step` is therefore a relation too, `steps`: some
sequence of bus answers leads from the core before to the packet and the core after.
Over a `RamBus` it is a function, `laws::ram_step`.

## What is taken on trust

The `elf` crate parses ELF images. `loader` calls it behind three functions whose
contracts are not proved: `parse_header`, `parse_segments` and `segment_data`. The
doc comment of each says what it claims.

## Halt exit codes

| Kind | Exit |
|---|---|
| `Voluntary` (`EBREAK`) | `a0 & 0xFF` |
| `Illegal` | 130 |
| `BusErrorIf` / `Ld` / `St` | 131 / 132 / 133 |
| `MisalignPc` / `Ld` / `St` | 134 |
| `DoubleTrap` | 135 |

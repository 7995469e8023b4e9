//! The flat-memory bus and the access widths.

use iss_core::{AxiResp, Bus, RamBus, Width};

#[test]
fn width_helpers() {
    assert_eq!(Width::Word.bytes(), 4);
    assert_eq!(Width::Half.full_strb(), 0x3);
    assert!(Width::Word.is_aligned(0x40));
    assert!(!Width::Word.is_aligned(0x42));
    assert!(Width::Byte.is_aligned(0x3));
}

#[test]
fn rambus_roundtrip_little_endian() {
    let mut bus = RamBus::new(0x8000_0000, 0x100);
    bus.write(0x8000_0000, Width::Word, 0xDEAD_BEEF, 0xF)
        .unwrap();
    assert_eq!(bus.read(0x8000_0000, Width::Word), Ok(0xDEAD_BEEF));
    // Byte 0 is the least-significant byte.
    assert_eq!(bus.read(0x8000_0000, Width::Byte), Ok(0xEF));
    assert_eq!(bus.read(0x8000_0001, Width::Byte), Ok(0xBE));
}

#[test]
fn rambus_partial_strobe() {
    let mut bus = RamBus::new(0, 0x10);
    bus.write(0, Width::Word, 0xFFFF_FFFF, 0xF).unwrap();
    // Only byte 0 enabled.
    bus.write(0, Width::Byte, 0x00, 0x1).unwrap();
    assert_eq!(bus.read(0, Width::Word), Ok(0xFFFF_FF00));
}

#[test]
fn rambus_out_of_range_is_decerr() {
    let mut bus = RamBus::new(0x1000, 0x10);
    assert_eq!(bus.read(0x0, Width::Word), Err(AxiResp::DecErr));
    assert_eq!(bus.read(0x100C, Width::Word), Ok(0)); // last fully in-range word
    assert_eq!(bus.read(0x100D, Width::Word), Err(AxiResp::DecErr)); // straddles end
    assert_eq!(bus.read(0x100F, Width::Byte), Ok(0)); // last in-range byte
}

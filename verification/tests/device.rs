//! The device-dispatch bus.

use iss_core::{AddError, AxiResp, Bus, DeviceBus, MmioDevice, Ram, Width};

/// A write-only register that returns SLVERR on read: exercises device
/// response passthrough.
struct WriteOnly;
impl MmioDevice for WriteOnly {
    fn read(&mut self, _o: u32, _w: Width) -> Result<u32, AxiResp> {
        Err(AxiResp::SlvErr)
    }
    fn write(&mut self, _o: u32, _w: Width, _v: u32, _s: u8) -> Result<(), AxiResp> {
        Ok(())
    }
}

#[test]
fn dispatch_forwards_relative_offset() {
    let mut bus = DeviceBus::new();
    bus.add(0x4000_0000, 0x1000, Box::new(Ram::new(0x1000)))
        .unwrap();
    bus.write(0x4000_0010, Width::Word, 0x1234_5678, 0xF)
        .unwrap();
    // Same word read back through the device.
    assert_eq!(bus.read(0x4000_0010, Width::Word), Ok(0x1234_5678));
}

#[test]
fn unmapped_is_decerr() {
    let mut bus = DeviceBus::new();
    bus.add(0x4000_0000, 0x10, Box::new(Ram::new(0x10)))
        .unwrap();
    assert_eq!(bus.read(0x5000_0000, Width::Word), Err(AxiResp::DecErr));
    // Starts in-range but straddles the end is unmapped.
    assert_eq!(bus.read(0x4000_000E, Width::Word), Err(AxiResp::DecErr));
}

#[test]
fn overlap_rejected_at_registration() {
    let mut bus = DeviceBus::new();
    bus.add(0x1000, 0x100, Box::new(Ram::new(0x100))).unwrap();
    assert_eq!(
        bus.add(0x1080, 0x100, Box::new(Ram::new(0x100))),
        Err(AddError::Overlap)
    );
    assert_eq!(
        bus.add(0x2000, 0, Box::new(Ram::new(0))),
        Err(AddError::BadRange)
    );
    // Adjacent (non-overlapping) is fine.
    assert!(bus.add(0x1100, 0x100, Box::new(Ram::new(0x100))).is_ok());
}

#[test]
fn device_slverr_passes_through() {
    let mut bus = DeviceBus::new();
    bus.add(0x0, 0x10, Box::new(WriteOnly)).unwrap();
    assert_eq!(bus.read(0x0, Width::Word), Err(AxiResp::SlvErr));
    assert_eq!(bus.write(0x0, Width::Word, 0, 0xF), Ok(()));
}

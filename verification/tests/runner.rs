//! Pacing of an interactive run.

use iss_core::runner::{expand_newlines, mtime_writes, Pace, Pacer, UART_TX};
use iss_core::{CommitPacket, HaltEvent, HaltKind, StoreObserved, Width};

fn store_to(addr: u32) -> CommitPacket {
    CommitPacket {
        store: Some(StoreObserved {
            addr,
            data: b'x' as u32,
            strb: 0x1,
        }),
        ..CommitPacket::default()
    }
}

#[test]
fn newlines_get_a_carriage_return() {
    assert_eq!(expand_newlines(b"a\nb\n\nc"), b"a\r\nb\r\n\r\nc".to_vec());
    assert_eq!(expand_newlines(b"plain"), b"plain".to_vec());
    assert_eq!(expand_newlines(b""), Vec::<u8>::new());
    // A line feed that has its carriage return gets another one.
    assert_eq!(expand_newlines(b"\r\n"), b"\r\r\n".to_vec());
}

#[test]
fn mtime_is_split_into_two_words() {
    let (lo, hi) = mtime_writes(0x0123_4567_89AB_CDEF);
    assert_eq!((lo.addr, lo.data), (0x0200_BFF8, 0x89AB_CDEF));
    assert_eq!((hi.addr, hi.data), (0x0200_BFFC, 0x0123_4567));
    assert_eq!((lo.strb, lo.width), (0xF, Width::Word));
    assert_eq!((hi.strb, hi.width), (0xF, Width::Word));
}

#[test]
fn mtime_is_synced_every_1024_steps() {
    let mut pacer = Pacer::new();
    let mut synced = Vec::new();
    for n in 1..=4096u32 {
        assert!(pacer.may_step());
        match pacer.after_step(&store_to(UART_TX)) {
            Pace::Go { sync_mtime, sleep } => {
                assert!(!sleep);
                if sync_mtime {
                    synced.push(n);
                }
            }
            Pace::Halt { .. } => panic!("no halt was reported"),
        }
    }
    assert_eq!(synced, vec![1024, 2048, 3072, 4096]);
}

#[test]
fn idle_guests_sleep_and_output_keeps_them_awake() {
    let mut pacer = Pacer::default();
    let mut slept = Vec::new();
    for n in 1..=12_000u32 {
        // One byte of output on step 2000; stores elsewhere do not count.
        let packet = if n == 2_000 {
            store_to(UART_TX)
        } else {
            store_to(UART_TX + 4)
        };
        if let Pace::Go { sleep: true, .. } = pacer.after_step(&packet) {
            slept.push(n);
        }
    }
    assert_eq!(slept, vec![7_000, 12_000]);
}

#[test]
fn a_halt_ends_the_run_with_its_code() {
    let mut pacer = Pacer::new();
    let packet = CommitPacket {
        halt: Some(HaltEvent::new(HaltKind::Voluntary { a0: 9 })),
        ..CommitPacket::default()
    };
    assert_eq!(pacer.after_step(&packet), Pace::Halt { exit_code: 9 });
}

use proc_watch::collector::Collector;
use proc_watch::control::{HandleRegistry, InvalidHandle, KernelTracerHandle};
use proc_watch::event::{EventData, Metric, StaticCommandName, Threshold, COMMAND_LENGTH};
use proc_watch::framing::FrameAssembler;
use proc_watch::meter::_Atomic;
use proc_watch::ring::Channel;

#[test]
fn ring_writes_arrive_whole_and_in_order() {
    let mut ring: Channel<16> = Channel::new();
    ring.write(&[1, 2, 3]).unwrap();
    ring.write(&[4, 5]).unwrap();
    let mut out = [0u8; 8];
    assert_eq!(ring.read(&mut out), 5);
    assert_eq!(&out[..5], &[1, 2, 3, 4, 5]);
    assert_eq!(&out[5..], &[0, 0, 0]);
    // wrap round the end of the buffer
    ring.write(&[6, 7, 8, 9, 10, 11, 12, 13, 14, 15]).unwrap();
    ring.write(&[16, 17]).unwrap();
    let mut all = [0u8; 16];
    assert_eq!(ring.read(&mut all), 12);
    assert_eq!(&all[..12], &[6, 7, 8, 9, 10, 11, 12, 13, 14, 15, 16, 17]);
}

#[test]
fn ring_keeps_one_byte_free() {
    let mut ring: Channel<8> = Channel::new();
    assert_eq!(ring.available(), 7);
    assert_eq!(ring.write(&[9; 8]), Err(7));
    assert_eq!(ring.write(&[9; 7]), Ok(()));
    assert_eq!(ring.available(), 0);
    assert_eq!(ring.write(&[1]), Err(0));
    let mut out = [0u8; 3];
    assert_eq!(ring.read(&mut out), 3);
    assert_eq!(ring.write(&[1, 2, 3, 4]), Err(3));
    assert_eq!(ring.write(&[1, 2, 3]), Ok(()));
}

#[test]
fn ring_read_of_empty_ring_moves_nothing() {
    let mut ring: Channel<8> = Channel::new();
    let mut out = [5u8; 4];
    assert_eq!(ring.read(&mut out), 0);
    assert_eq!(out, [5, 5, 5, 5]);
}

#[test]
fn rate_formula_exact() {
    // 3000 bytes over 1500 ms is 2000 bytes per second
    let mut cell = _Atomic::open(10_000, 1000);
    assert_eq!(cell.meter(10_500, 2000, 1), None);
    assert_eq!(cell.meter(11_500, 0, 2000), Some(2000));
    // rounded down: 1000 bytes over 3000 ms
    let mut cell = _Atomic::open(0, 1000);
    assert_eq!(cell.meter(3000, 0, 1), Some(333));
    // below the limit: nothing
    let mut cell = _Atomic::open(0, 1000);
    assert_eq!(cell.meter(3000, 0, 334), None);
}

#[test]
fn one_report_per_window() {
    let mut c = Collector::new();
    let dd = StaticCommandName::from_name("dd");
    c.set_monitor(dd, Threshold { thresholds: [0, 0, 10, 0] }).unwrap();
    assert!(c.on_io(5, dd, 100_000, Metric::Disk, 0).is_none());
    assert!(c.on_io(5, dd, 100_000, Metric::Disk, 1000).is_some());
    for t in [1001u64, 1200, 1500, 1999] {
        assert!(c.on_io(5, dd, 100_000, Metric::Disk, t).is_none());
    }
    assert!(c.on_io(5, dd, 0, Metric::Disk, 2000).is_some());
}

#[test]
fn zero_threshold_never_reports() {
    let mut c = Collector::new();
    let cp = StaticCommandName::from_name("cp");
    c.set_monitor(cp, Threshold { thresholds: [0, 0, 0, 0] }).unwrap();
    for t in 0..10u64 {
        assert!(c.on_io(9, cp, u32::MAX as u64, Metric::Disk, t * 1000).is_none());
        assert!(c.on_io(9, cp, u32::MAX as u64, Metric::Network, t * 1000).is_none());
    }
}

#[test]
fn watchlist_set_twice_keeps_last() {
    let mut c = Collector::new();
    let n = StaticCommandName::from_name("wget");
    c.set_monitor(n, Threshold { thresholds: [1, 2, 3, 4] }).unwrap();
    c.set_monitor(n, Threshold { thresholds: [5, 6, 7, 8] }).unwrap();
    assert_eq!(c.threshold_of(&n).unwrap().thresholds, [5, 6, 7, 8]);
    c.clear_monitor();
    c.clear_monitor();
    assert!(c.threshold_of(&n).is_none());
}

#[test]
fn handle_refuses_null_and_freed() {
    let mut reg = HandleRegistry::new();
    assert_eq!(reg.accepts(0), Err(InvalidHandle));
    reg.register(0x1000);
    assert_eq!(reg.accepts(0x1000), Ok(()));
    assert!(reg.release(0x1000));
    assert_eq!(reg.accepts(0x1000), Err(InvalidHandle));
    assert!(!reg.release(0x1000));

    let mut h = KernelTracerHandle::new();
    let threshold = Threshold { thresholds: [0; 4] };
    assert!(h.set_monitor("x", threshold).is_err());
    h.attach().unwrap();
    assert!(h.set_monitor("x", threshold).is_ok());
    h.begin_close().unwrap();
    assert!(h.clear_monitor().is_err());
    h.finish_close().unwrap();
    assert!(h.set_monitor("x", threshold).is_err());
}

#[test]
fn long_names_are_cut_alike() {
    let a = "abcdefghijklmnopqrstuvwxyz";
    let b = "abcdefghijklmnoZZZZ";
    let na = StaticCommandName::from_name(a);
    let nb = StaticCommandName::from_name(b);
    assert!(na.same(&nb));
    assert_eq!(na.0[COMMAND_LENGTH - 1], 0);
    assert_eq!(na.text_bytes(), b"abcdefghijklmno".to_vec());

    let mut c = Collector::new();
    c.set_monitor(na, Threshold { thresholds: [0, 0, 0, 1] }).unwrap();
    c.on_io(3, nb, 10, Metric::Network, 0);
    let ev = c.on_io(3, StaticCommandName::from_name(b), 10, Metric::Network, 1000);
    assert!(matches!(ev.map(|e| e.data), Some(EventData::Violation(_))));
}

#[test]
fn garbage_before_terminator_is_skipped() {
    let mut a = FrameAssembler::new();
    a.push(&[7, 7, 0xFF, 3]);
    a.push(&[0, 4, 5]);
    a.push(&[6, 0]);
    assert_eq!(a.next_frame(), Some(vec![7, 7, 0xFF, 3, 0]));
    assert_eq!(a.next_frame(), Some(vec![4, 5, 6, 0]));
    assert_eq!(a.next_frame(), None);
}

#[test]
fn garbage_with_terminators_before_frame() {
    let mut a = FrameAssembler::new();
    a.push(&[0, 0, 9, 0, 1, 2, 0, 8]);
    let mut frames = Vec::new();
    while let Some(f) = a.next_frame() {
        frames.push(f);
    }
    assert_eq!(frames.last(), Some(&vec![1, 2, 0]));
    assert_eq!(frames.len(), 4);
    a.push(&[0]);
    assert_eq!(a.next_frame(), Some(vec![8, 0]));
}

#[test]
fn interleaved_reservations_commit_in_order() {
    let mut ring: Channel<16> = Channel::new();
    let a = ring.reserve(3).unwrap();
    let b = ring.reserve(2).unwrap();
    assert_eq!(ring.available(), 10);
    assert_eq!(ring.reserve(11).err(), Some(10));
    ring.fill(&b, &[20, 21]);
    assert!(!ring.try_commit(&b));
    let mut out = [0u8; 8];
    assert_eq!(ring.read(&mut out), 0);
    ring.fill(&a, &[10, 11, 12]);
    assert!(ring.try_commit(&a));
    assert!(ring.try_commit(&b));
    assert_eq!(ring.read(&mut out), 5);
    assert_eq!(&out[..5], &[10, 11, 12, 20, 21]);
    assert_eq!(ring.available(), 15);
    let empty = ring.reserve(0).unwrap();
    assert_eq!(empty.size(), 0);
    assert!(ring.try_commit(&empty));
}

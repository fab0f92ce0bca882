use proc_watch::collector::{
    network_bytes, process_notify, wide_name, Collector, ControlError, IRP_MJ_READ, IRP_MJ_WRITE,
};
use proc_watch::control::{
    _ctl_code, level_from_code, status_code, Arguments, KernelTracerHandle, Lifetime, LogLevel,
    PumpStep, SetMonitor, TracerState, FILE_ANY_ACCESS, FILE_DEVICE_UNKNOWN,
    IOCTL_CLEAR_MONITOR, IOCTL_MEMORY_INITIALIZE, IOCTL_SET_MONITOR, METHOD_BUFFERED,
};
use proc_watch::event::{
    Event, EventData, EventType, Metric, NewProcess, StaticCommandName, Threshold, Violation,
    WindowsEvent, WindowsEventData, MAX_PROCESS_COUNT,
};
use proc_watch::meter::_Atomic;
use proc_watch::ring::{DefaultChannel, DEFAULT_CHANNEL_SIZE};
use proc_watch::store::MeterStore;
use proc_watch::watchlist::{Watchlist, WatchlistFull};

#[test]
fn control_codes() {
    assert_eq!(
        _ctl_code(FILE_DEVICE_UNKNOWN, 0x800, METHOD_BUFFERED, FILE_ANY_ACCESS),
        IOCTL_MEMORY_INITIALIZE
    );
    assert_eq!(
        _ctl_code(FILE_DEVICE_UNKNOWN, 0x801, METHOD_BUFFERED, FILE_ANY_ACCESS),
        IOCTL_CLEAR_MONITOR
    );
    assert_eq!(
        _ctl_code(FILE_DEVICE_UNKNOWN, 0x802, METHOD_BUFFERED, FILE_ANY_ACCESS),
        IOCTL_SET_MONITOR
    );
    assert_eq!(_ctl_code(1, 2, 3, 1), 0x0001_400B);
}

#[test]
fn log_levels_by_number() {
    assert_eq!(level_from_code(0), Some(LogLevel::Off));
    assert_eq!(level_from_code(1), Some(LogLevel::Error));
    assert_eq!(level_from_code(2), Some(LogLevel::Warn));
    assert_eq!(level_from_code(3), Some(LogLevel::Info));
    assert_eq!(level_from_code(4), Some(LogLevel::Debug));
    assert_eq!(level_from_code(5), Some(LogLevel::Trace));
    assert_eq!(level_from_code(6), None);
    assert_eq!(level_from_code(-1), None);
}

#[test]
fn status_codes() {
    assert_eq!(status_code::<(), ()>(&Ok(())), 0);
    assert_eq!(status_code::<(), ()>(&Err(())), 1);
}

#[test]
fn watchlist_full() {
    let mut w = Watchlist::new();
    let t = Threshold { thresholds: [1; 4] };
    for i in 0..MAX_PROCESS_COUNT {
        let name = format!("p{i}");
        assert!(w.insert(StaticCommandName::from_name(&name), t).is_ok());
    }
    assert_eq!(w.len(), MAX_PROCESS_COUNT);
    let extra = StaticCommandName::from_name("one-more");
    assert_eq!(w.insert(extra, t), Err(WatchlistFull));
    assert!(w.get(&extra).is_none());
    // a name already there is replaced even when full
    let again = Threshold { thresholds: [9; 4] };
    assert!(w.insert(StaticCommandName::from_name("p7"), again).is_ok());
    assert_eq!(w.get(&StaticCommandName::from_name("p7")).unwrap().thresholds, [9; 4]);
    w.remove(&StaticCommandName::from_name("p7"));
    assert!(w.get(&StaticCommandName::from_name("p7")).is_none());
    assert_eq!(w.len(), MAX_PROCESS_COUNT - 1);
    assert!(w.insert(extra, t).is_ok());
    w.remove(&StaticCommandName::from_name("absent"));
    assert_eq!(w.len(), MAX_PROCESS_COUNT);
}

#[test]
fn meter_store_evicts_least_recent() {
    let mut s = MeterStore::new();
    let key = |i: u32| (StaticCommandName::from_name("x").0, i);
    for i in 0..MAX_PROCESS_COUNT as u32 {
        s.put(key(i), i as u64);
    }
    assert_eq!(s.get(&key(0)), Some(0));
    s.put(key(10_000), 7);
    assert_eq!(s.get(&key(10_000)), Some(7));
    assert_eq!(s.get(&key(0)), Some(0));
    assert_eq!(s.get(&key(1)), None);
    s.put(key(0), 99);
    assert_eq!(s.get(&key(0)), Some(99));
}

#[test]
fn command_name_text() {
    let ev = Event::new_process(3, StaticCommandName::from_name("systemd"));
    assert_eq!(ev.command_name(), "systemd");
    let ev = Event::new_process(3, StaticCommandName::from_bytes(&[b'a', 0xFF, b'b']));
    assert_eq!(ev.command_name(), "a\u{FFFD}b");
    let ev = Event::new_process(3, StaticCommandName::from_bytes(&[]));
    assert_eq!(ev.command_name(), "");
}

#[test]
fn windows_event_to_record() {
    let w = WindowsEvent {
        pid: 12,
        name: "a-very-long-process-name.exe".to_string(),
        data: WindowsEventData::Violation(Violation { metric: Metric::Disk, value: 5, threshold: 4 }),
    };
    let ev = w.to_event();
    assert_eq!(ev.pid, 12);
    assert_eq!(ev.variant, EventType::Violation);
    assert_eq!(ev.command_name(), "a-very-long-pro");
    match ev.data {
        EventData::Violation(v) => assert_eq!((v.metric, v.value, v.threshold), (Metric::Disk, 5, 4)),
        EventData::NewProcess(_) => panic!("expected a violation"),
    }
    let w = WindowsEvent { pid: 1, name: "sh".to_string(), data: WindowsEventData::NewProcess(NewProcess) };
    let ev = w.to_event();
    assert_eq!(ev.variant, EventType::NewProcess);
    assert_eq!(ev.command_name(), "sh");
}

#[test]
fn packed_cell_halves() {
    let mut cell = _Atomic::new(0);
    assert_eq!(cell.load(), 0);
    assert_eq!(cell.fetch_add(5), 0);
    assert_eq!(cell.load(), 5);
    assert_eq!(cell.swap(7 << 32), 5);
    let opened = _Atomic::open(0x1_0000_0005, 0x1_0000_0003);
    assert_eq!(opened.load(), (5 << 32) | 3);
    // the byte count wraps within its 32 bits and leaves the start alone
    let mut full = _Atomic::new((9 << 32) | 0xFFFF_FFFF);
    full.fetch_add(2);
    assert_eq!(full.load(), (9 << 32) | 1);
}

#[test]
fn probe_adapters() {
    assert_eq!(network_bytes(-5), 0);
    assert_eq!(network_bytes(1234), 1234);
    let mut c = Collector::new();
    let n = StaticCommandName::from_name("fio");
    c.set_monitor(n, Threshold { thresholds: [0, 0, 512, 1] }).unwrap();
    assert!(c.tracepoint_disk_hook(0, 1, n, 0).is_none());
    assert!(c.tracepoint_disk_hook(1, 1, n, 0).is_none());
    let ev = c.tracepoint_disk_hook(0, 1, n, 2000);
    assert!(ev.is_none());
    let ev = c.tracepoint_disk_hook(1, 1, n, 2000).unwrap();
    match ev.data {
        // two sectors of 512 bytes over 2000 ms
        EventData::Violation(v) => assert_eq!(v.value, 512),
        EventData::NewProcess(_) => panic!("expected a violation"),
    }
    assert!(c.kretprobe_network_hook(-1, 1, n, 0).is_none());
    assert!(c.kretprobe_network_hook(100, 1, n, 0).is_none());
    assert!(c.kretprobe_network_hook(100, 1, n, 1000).is_some());
    let wide: Vec<u16> = "fio".encode_utf16().chain([0u16, 0x61]).collect();
    assert!(c.wfp_callback(1 << 40, &wide, 100, 5000).is_none());
    assert!(c.wfp_callback(2, &wide, 100, 0).is_none());
    assert!(c.wfp_callback(2, &wide, 100, 1000).is_some());
    let broken = [0xD800u16, 0x66, 0];
    assert!(c.wfp_callback(2, &broken, 100, 9000).is_none());
    assert!(c.minifilter_postop(6, n, IRP_MJ_WRITE, 2048, 0).is_none());
    let ev = c.minifilter_postop(6, n, IRP_MJ_READ, 2048, 2000).unwrap();
    match ev.data {
        // 4096 bytes over 2000 ms
        EventData::Violation(v) => assert_eq!((v.metric, v.value), (Metric::Disk, 2048)),
        EventData::NewProcess(_) => panic!("expected a violation"),
    }
    // any other request counts no bytes
    assert!(c.minifilter_postop(6, n, 0, 1 << 20, 2500).is_none());
    assert!(c.minifilter_postop(6, n, 0, 1 << 20, 4000).is_none());
    assert!(process_notify(4, n, false).is_none());
    let ev = process_notify(4, StaticCommandName::from_name("any"), true).unwrap();
    assert_eq!((ev.pid, ev.variant), (4, EventType::NewProcess));
}

#[test]
fn pump_hands_out_frames() {
    let mut h = KernelTracerHandle::new();
    let mut ring = DefaultChannel::new();
    assert!(h.next_event(true, &mut ring, 16).is_err());
    h.attach().unwrap();
    assert_eq!(h.current_state(), TracerState::Attached);
    ring.write(&[1, 2, 3]).unwrap();
    assert!(matches!(h.next_event(true, &mut ring, 16).unwrap(), PumpStep::WaitAgain));
    ring.write(&[4, 0, 5, 0]).unwrap();
    match h.next_event(true, &mut ring, 16).unwrap() {
        PumpStep::Frame(f) => assert_eq!(f, vec![1, 2, 3, 4, 0]),
        other => panic!("unexpected {other:?}"),
    }
    match h.next_event(true, &mut ring, 16).unwrap() {
        PumpStep::Frame(f) => assert_eq!(f, vec![5, 0]),
        other => panic!("unexpected {other:?}"),
    }
    assert_eq!(ring.available(), DEFAULT_CHANNEL_SIZE - 1);
}

#[test]
fn small_values() {
    let l = Lifetime::new(41u32);
    assert_eq!(*l.get(), 41);
    assert_eq!(l.into_inner(), 41);
    let a = Arguments { pid: 7, log_level: LogLevel::Info };
    assert_eq!((a.pid, a.log_level), (7, LogLevel::Info));
    let m = SetMonitor::new("curl", Threshold { thresholds: [0, 0, 0, 1000] });
    assert_eq!(&m.name.0[..5], b"curl\0");
    assert_eq!(m.threshold.thresholds[3], 1000);
    assert_eq!(Metric::Network.index(), 3);
    assert_eq!(Threshold { thresholds: [1, 2, 3, 4] }.limit(Metric::Disk), 3);
}

#[test]
fn wide_names() {
    let buf: Vec<u16> = "notepad.exe".encode_utf16().chain([0u16, 0x41, 0x42]).collect();
    let n = wide_name(&buf).unwrap();
    assert_eq!(n.text_bytes(), b"notepad.exe".to_vec());
    let full: Vec<u16> = "abc".encode_utf16().collect();
    assert_eq!(wide_name(&full).unwrap().text_bytes(), b"abc".to_vec());
    let long: Vec<u16> = "a-rather-long-image-name.exe".encode_utf16().collect();
    assert_eq!(wide_name(&long).unwrap().text_bytes(), b"a-rather-long-i".to_vec());
    assert!(wide_name(&[0xDC00, 0]).is_none());
    assert_eq!(wide_name(&[0, 0xDC00]).unwrap().text_bytes(), Vec::<u8>::new());
}

#[test]
fn control_requests_to_collector() {
    let mut c = Collector::new();
    let t = Threshold { thresholds: [0, 0, 5, 6] };
    let m = SetMonitor::new("rsync", t);
    assert_eq!(c.device_control(IOCTL_SET_MONITOR, None), Err(ControlError::InvalidParameter));
    assert_eq!(c.device_control(IOCTL_SET_MONITOR, Some(m)), Ok(()));
    assert_eq!(c.threshold_of(&m.name).unwrap().thresholds, [0, 0, 5, 6]);
    assert_eq!(c.device_control(IOCTL_MEMORY_INITIALIZE, None), Err(ControlError::Unhandled));
    assert_eq!(c.device_control(IOCTL_CLEAR_MONITOR, None), Ok(()));
    assert!(c.threshold_of(&m.name).is_none());
    for i in 0..MAX_PROCESS_COUNT {
        let name = format!("n{i}");
        assert_eq!(c.device_control(IOCTL_SET_MONITOR, Some(SetMonitor::new(&name, t))), Ok(()));
    }
    assert_eq!(
        c.device_control(IOCTL_SET_MONITOR, Some(m)),
        Err(ControlError::WatchlistFull)
    );
}

#[test]
fn pending_frame_is_handed_out_without_new_data() {
    let mut h = KernelTracerHandle::new();
    let mut ring = DefaultChannel::new();
    assert!(h.pending_frame().is_err());
    h.attach().unwrap();
    assert_eq!(h.pending_frame(), Ok(None));
    // one read brings two complete frames
    ring.write(&[1, 2, 0, 3, 4, 0]).unwrap();
    match h.next_event(true, &mut ring, 64).unwrap() {
        PumpStep::Frame(f) => assert_eq!(f, vec![1, 2, 0]),
        other => panic!("unexpected {other:?}"),
    }
    // the wait runs out, yet the second frame is already here
    match h.next_event(false, &mut ring, 64).unwrap() {
        PumpStep::Frame(f) => assert_eq!(f, vec![3, 4, 0]),
        other => panic!("unexpected {other:?}"),
    }
    assert!(matches!(h.next_event(false, &mut ring, 64).unwrap(), PumpStep::Timeout));
    ring.write(&[5, 0, 6, 0]).unwrap();
    assert!(matches!(h.next_event(true, &mut ring, 64).unwrap(), PumpStep::Frame(_)));
    assert_eq!(h.pending_frame(), Ok(Some(vec![6, 0])));
    assert_eq!(h.pending_frame(), Ok(None));
}

#[test]
fn collector_evicts_least_recently_used_cell() {
    let mut c = Collector::new();
    let n = StaticCommandName::from_name("nginx");
    c.set_monitor(n, Threshold { thresholds: [0, 0, 0, 1] }).unwrap();
    for pid in 0..MAX_PROCESS_COUNT as u32 {
        assert!(c.on_io(pid, n, 10, Metric::Network, 0).is_none());
    }
    // pid 0 is used again, so pid 1 is now the least recently used
    assert!(c.on_io(0, n, 10, Metric::Network, 0).is_none());
    assert!(c.on_io(10_000, n, 10, Metric::Network, 0).is_none());
    assert!(c.on_io(0, n, 10, Metric::Network, 1000).is_some());
    // pid 1 lost its cell: this sample opens a fresh one
    assert!(c.on_io(1, n, 10, Metric::Network, 1000).is_none());
    assert!(c.on_io(2, n, 10, Metric::Network, 1000).is_none());
}

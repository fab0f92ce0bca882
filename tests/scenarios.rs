use proc_watch::collector::Collector;
use proc_watch::control::{KernelTracerHandle, PumpStep};
use proc_watch::event::{EventData, EventType, Metric, StaticCommandName, Threshold};
use proc_watch::framing::FrameAssembler;
use proc_watch::ring::{Channel, DefaultChannel};

fn watching(name: &str, thresholds: [u32; 4]) -> Collector {
    let mut c = Collector::new();
    c.set_monitor(StaticCommandName::from_name(name), Threshold { thresholds })
        .unwrap();
    c
}

#[test]
fn basic_violation() {
    let mut c = watching("curl", [0, 0, 0, 1000]);
    let curl = StaticCommandName::from_name("curl");
    assert!(c.on_io(42, curl, 2000, Metric::Network, 0).is_none());
    let ev = c.on_io(42, curl, 0, Metric::Network, 1001).expect("one violation");
    assert_eq!(ev.pid, 42);
    assert_eq!(ev.command_name(), "curl");
    assert_eq!(ev.variant, EventType::Violation);
    match ev.data {
        EventData::Violation(v) => {
            assert_eq!(v.metric, Metric::Network);
            assert!(1998 <= v.value && v.value <= 2000);
            assert_eq!(v.value, 1998);
            assert_eq!(v.threshold, 1000);
        }
        EventData::NewProcess(_) => panic!("expected a violation"),
    }
}

#[test]
fn no_violation_under_threshold() {
    let mut c = watching("curl", [0, 0, 0, 1000]);
    let curl = StaticCommandName::from_name("curl");
    assert!(c.on_io(42, curl, 500, Metric::Network, 0).is_none());
    assert!(c.on_io(42, curl, 500, Metric::Network, 1500).is_none());
}

#[test]
fn name_not_in_watchlist() {
    let mut c = Collector::new();
    let curl = StaticCommandName::from_name("curl");
    assert!(c.on_io(1, curl, 1 << 30, Metric::Network, 0).is_none());
    assert!(c.on_io(1, curl, 1 << 30, Metric::Network, 5000).is_none());
}

#[test]
fn new_process_emission() {
    let c = watching("make", [0, 0, 1, 1]);
    let ev = c
        .kretprobe_process_creation(77, StaticCommandName::from_name("make"))
        .expect("one new-process record");
    assert_eq!(ev.pid, 77);
    assert_eq!(ev.command_name(), "make");
    assert_eq!(ev.variant, EventType::NewProcess);
    assert!(matches!(ev.data, EventData::NewProcess(_)));
    assert!(c
        .kretprobe_process_creation(78, StaticCommandName::from_name("bash"))
        .is_none());
}

#[test]
fn timeout_gives_no_event() {
    let mut handle = KernelTracerHandle::new();
    handle.attach().unwrap();
    let mut ring = DefaultChannel::new();
    let step = handle.next_event(false, &mut ring, 1024).unwrap();
    assert!(matches!(step, PumpStep::Timeout));
}

fn record(producer: u8, seq: u8) -> Vec<u8> {
    let mut r = vec![producer + 1; 63];
    r[1] = seq + 1;
    r.push(0);
    r
}

fn drain(ring: &mut Channel<4096>, consumer: &mut FrameAssembler, received: &mut Vec<Vec<u8>>) {
    while let Some(f) = consumer.receive(ring, 1024) {
        received.push(f);
    }
    while let Some(f) = consumer.next_frame() {
        received.push(f);
    }
}

#[test]
fn multi_producer_ordering() {
    let mut ring: Channel<4096> = Channel::new();
    let mut consumer = FrameAssembler::new();
    let mut received: Vec<Vec<u8>> = Vec::new();
    for round in 0..100u8 {
        if ring.available() < 128 {
            drain(&mut ring, &mut consumer, &mut received);
        }
        // both producers claim space before either has copied its record
        let a = ring.reserve(64).unwrap();
        let b = ring.reserve(64).unwrap();
        // the second finishes copying first, and waits for the first to commit
        ring.fill(&b, &record(1, round));
        assert!(!ring.try_commit(&b));
        ring.fill(&a, &record(0, round));
        assert!(ring.try_commit(&a));
        assert!(ring.try_commit(&b));
    }
    drain(&mut ring, &mut consumer, &mut received);
    assert_eq!(received.len(), 200);
    let mut seen = [0u8; 2];
    for f in &received {
        assert_eq!(f.len(), 64);
        assert_eq!(*f.last().unwrap(), 0);
        let p = (f[0] - 1) as usize;
        assert!(p < 2);
        assert_eq!(f[1] - 1, seen[p]);
        seen[p] += 1;
    }
    assert_eq!(seen, [100, 100]);
}

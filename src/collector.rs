//! The collector: turns probe samples `(pid, name, bytes, metric)` into violation
//! records, and process creations into new-process records.
use vstd::prelude::*;
use vstd::utf8::encode_utf8;
use crate::event::{
    stored_name, Event, EventData, EventType, Metric, NewProcess, StaticCommandName, Threshold,
    Violation, MAX_PROCESS_COUNT,
};
use crate::meter::{_Atomic, clock32, metered_cell, pack, reported_rate, LOW_MASK};
use crate::store::{touched, CellMap, MeterStore};
use crate::control::{SetMonitor, IOCTL_CLEAR_MONITOR, IOCTL_SET_MONITOR};
use crate::watchlist::{cleared, insert_result, Watchlist, WatchlistFull};

verus! {

/// Major function code of a read request.
pub const IRP_MJ_READ: u8 = 3;

/// Major function code of a write request.
pub const IRP_MJ_WRITE: u8 = 4;

/// The UTF-16 units of `buf` before its first NUL.
pub open spec fn units_before_nul(buf: Seq<u16>) -> Seq<u16>
    decreases buf.len(),
{
    if buf.len() == 0 || buf[0] == 0 {
        Seq::empty()
    } else {
        seq![buf[0]] + units_before_nul(buf.drop_first())
    }
}

/// The text that `String::from_utf16` decodes from `units`; none when they are not
/// valid UTF-16.
pub uninterp spec fn utf16_decoded(units: Seq<u16>) -> Option<Seq<char>>;

/// Relies on `String::from_utf16`: the text depends on the units alone, and the
/// call fails exactly when they are not valid UTF-16.
#[verifier::external_body]
fn decode_utf16(units: &[u16]) -> (r: Option<String>)
    ensures
        r is Some <==> utf16_decoded(units@) is Some,
        r is Some ==> r->0@ == utf16_decoded(units@)->0,
{
    String::from_utf16(units).ok()
}

/// The stored name for a NUL-terminated UTF-16 image name; none when it is not valid
/// UTF-16.
pub fn wide_name(buffer: &[u16]) -> (r: Option<StaticCommandName>)
    ensures
        r is Some <==> utf16_decoded(units_before_nul(buffer@)) is Some,
        r is Some ==> r->0@ == stored_name(encode_utf8(utf16_decoded(units_before_nul(buffer@))->0)),
{
    let mut units: Vec<u16> = Vec::new();
    let mut i: usize = 0;
    proof {
        assert(buffer@.subrange(0, buffer@.len() as int) =~= buffer@);
        assert(units@ + units_before_nul(buffer@) =~= units_before_nul(buffer@));
    }
    while i < buffer.len() && buffer[i] != 0
        invariant
            i <= buffer@.len(),
            units_before_nul(buffer@) == units@ + units_before_nul(buffer@.subrange(i as int, buffer@.len() as int)),
        decreases buffer@.len() - i,
    {
        proof {
            let rest = buffer@.subrange(i as int, buffer@.len() as int);
            let tail = buffer@.subrange(i + 1, buffer@.len() as int);
            assert(rest.drop_first() =~= tail);
            assert(units@ + units_before_nul(rest) =~= units@.push(buffer@[i as int]) + units_before_nul(tail));
        }
        units.push(buffer[i]);
        i = i + 1;
    }
    proof {
        let rest = buffer@.subrange(i as int, buffer@.len() as int);
        assert(units_before_nul(rest) =~= Seq::<u16>::empty());
        assert(units@ + Seq::<u16>::empty() =~= units@);
    }
    match decode_utf16(units.as_slice()) {
        Some(text) => Some(StaticCommandName::from_name(text.as_str())),
        None => None,
    }
}

/// Bytes in a disk sector.
pub const SECTOR_SIZE: u64 = 512;

/// The metrics that the collector meters.
pub open spec fn metered(metric: Metric) -> bool {
    metric == Metric::Disk || metric == Metric::Network
}

/// The violation record for `value` against `threshold`.
pub open spec fn violation_event(pid: u32, name: StaticCommandName, metric: Metric, value: u32, threshold: u32) -> Event {
    Event {
        pid,
        name,
        variant: EventType::Violation,
        data: EventData::Violation(Violation { metric, value, threshold }),
    }
}

/// The new-process record.
pub open spec fn new_process_event(pid: u32, name: StaticCommandName) -> Event {
    Event { pid, name, variant: EventType::NewProcess, data: EventData::NewProcess(NewProcess) }
}

/// Bytes reported by a socket call that returned `ret`: negative returns count as none.
pub open spec fn returned_bytes(ret: i32) -> u64 {
    if ret < 0 {
        0
    } else {
        ret as u64
    }
}

/// What a sample of `bytes` of `metric` by `pid` named `name` at `now_ms` does:
/// `before_c` becomes `after_c`, and `r` is the record it reports.
pub open spec fn sample_outcome(
    before_c: Collector,
    after_c: Collector,
    r: Option<Event>,
    pid: u32,
    name: StaticCommandName,
    bytes: u64,
    metric: Metric,
    now_ms: u64,
) -> bool {
    &&& after_c.wf()
    &&& after_c.watched() == before_c.watched()
    &&& {
        let limit = before_c.limit_of(name, metric);
        let key = (name@, pid);
        let before = before_c.cells(metric);
        let after = after_c.cells(metric);
        let order = before_c.recency(metric);
        if !metered(metric) || limit is None || limit->0 == 0 {
            &&& r is None
            &&& forall|m: Metric| after_c.cells(m) == before_c.cells(m)
            &&& forall|m: Metric| after_c.recency(m) == before_c.recency(m)
        } else {
            &&& forall|m: Metric| m != metric ==> after_c.cells(m) == before_c.cells(m)
            &&& forall|m: Metric| m != metric ==> after_c.recency(m) == before_c.recency(m)
            &&& if before.contains_key(key) {
                let cell = before[key];
                &&& after == before.insert(key, metered_cell(cell, now_ms, bytes))
                &&& after_c.recency(metric) == touched(order, key)
                &&& r == match reported_rate(cell, now_ms, bytes, limit->0) {
                    Some(value) => Some(violation_event(pid, name, metric, value, limit->0)),
                    None => None,
                }
            } else {
                let opened = pack(clock32(now_ms), bytes & LOW_MASK);
                &&& r is None
                &&& before.dom().len() < MAX_PROCESS_COUNT ==> after == before.insert(key, opened)
                    && after_c.recency(metric) == touched(order, key)
                &&& before.dom().len() >= MAX_PROCESS_COUNT ==> {
                    &&& order.len() > 0
                    &&& before.contains_key(order.last())
                    &&& after == before.remove(order.last()).insert(key, opened)
                    &&& after_c.recency(metric) == seq![key] + order.drop_last()
                }
            }
        }
    }
}

/// Using a key twice in a row leaves the order as using it once.
proof fn lemma_touched_twice(order: Seq<(Seq<u8>, u32)>, key: (Seq<u8>, u32))
    ensures
        touched(touched(order, key), key) == touched(order, key),
{
    let t = touched(order, key);
    assert(t[0] == key);
    assert(t.contains(key));
    t.index_of_first_ensures(key);
    assert(t.remove(0) =~= order.remove_value(key));
}

/// Why a control request to the collector failed.
#[derive(Clone, Copy, Debug, PartialEq, Eq, Structural)]
pub enum ControlError {
    /// The request carries no message, or one of the wrong size.
    InvalidParameter,
    /// The watchlist is full and the name is new.
    WatchlistFull,
    /// The collector does not serve this control code.
    Unhandled,
}

/// Nothing happens: no record, and the collector is unchanged.
pub open spec fn unchanged(before_c: Collector, after_c: Collector, r: Option<Event>) -> bool {
    &&& r is None
    &&& after_c.wf()
    &&& after_c.watched() == before_c.watched()
    &&& forall|m: Metric| after_c.cells(m) == before_c.cells(m)
    &&& forall|m: Metric| after_c.recency(m) == before_c.recency(m)
}

/// The watchlist, with one metering store per metered metric.
pub struct Collector {
    watchlist: Watchlist,
    network_io: MeterStore,
    disk_io: MeterStore,
}

impl Collector {
    pub closed spec fn wf(&self) -> bool {
        self.watchlist.wf() && self.network_io.wf() && self.disk_io.wf()
    }

    /// The names watched, with their limits.
    pub closed spec fn watched(&self) -> Map<Seq<u8>, Threshold> {
        self.watchlist@
    }

    /// The metering cells of `metric`; none for a metric that is not metered.
    pub closed spec fn cells(&self, metric: Metric) -> CellMap {
        match metric {
            Metric::Disk => self.disk_io@,
            Metric::Network => self.network_io@,
            _ => CellMap::empty(),
        }
    }

    /// The keys of the cells of `metric`, most recently used first.
    pub closed spec fn recency(&self, metric: Metric) -> Seq<(Seq<u8>, u32)> {
        match metric {
            Metric::Disk => self.disk_io.recency(),
            Metric::Network => self.network_io.recency(),
            _ => Seq::empty(),
        }
    }

    /// The limit on `metric` for `name`, if the name is watched.
    pub open spec fn limit_of(&self, name: StaticCommandName, metric: Metric) -> Option<u32> {
        if self.watched().contains_key(name@) {
            Some(self.watched()[name@].spec_limit(metric))
        } else {
            None
        }
    }

    /// The metering stores stay bounded: each holds at most `MAX_PROCESS_COUNT` cells.
    pub proof fn law_cells_bounded(&self)
        requires
            self.wf(),
        ensures
            forall|m: Metric| #[trigger] self.cells(m).dom().finite() && self.cells(m).dom().len() <= MAX_PROCESS_COUNT,
    {
        self.disk_io.law_bounded();
        self.network_io.law_bounded();
    }

    pub fn new() -> (r: Collector)
        ensures
            r.wf(),
            r.watched() == Map::<Seq<u8>, Threshold>::empty(),
            r.cells(Metric::Disk) == CellMap::empty(),
            r.cells(Metric::Network) == CellMap::empty(),
            forall|m: Metric| r.recency(m) == Seq::<(Seq<u8>, u32)>::empty(),
    {
        Collector { watchlist: Watchlist::new(), network_io: MeterStore::new(), disk_io: MeterStore::new() }
    }

    /// Watches `name` with `threshold`, replacing its earlier limits.
    pub fn set_monitor(&mut self, name: StaticCommandName, threshold: Threshold) -> (r: Result<(), WatchlistFull>)
        requires
            old(self).wf(),
        ensures
            final(self).wf(),
            r is Ok <==> insert_result(old(self).watched(), name@, threshold) is Some,
            r is Ok ==> final(self).watched() == insert_result(old(self).watched(), name@, threshold)->0,
            r is Err ==> final(self).watched() == old(self).watched(),
            forall|m: Metric| final(self).cells(m) == old(self).cells(m),
            forall|m: Metric| final(self).recency(m) == old(self).recency(m),
    {
        self.watchlist.insert(name, threshold)
    }

    /// Stops watching every name. Cells already made are kept.
    pub fn clear_monitor(&mut self)
        requires
            old(self).wf(),
        ensures
            final(self).wf(),
            final(self).watched() == cleared(old(self).watched()),
            forall|m: Metric| final(self).cells(m) == old(self).cells(m),
            forall|m: Metric| final(self).recency(m) == old(self).recency(m),
    {
        self.watchlist.clear();
    }

    /// The limits of `name`, if it is watched.
    pub fn threshold_of(&self, name: &StaticCommandName) -> (r: Option<Threshold>)
        requires
            self.wf(),
        ensures
            r == if self.watched().contains_key(name@) {
                Some(self.watched()[name@])
            } else {
                None
            },
    {
        self.watchlist.get(name)
    }

    /// Feeds one sample of `bytes` of `metric` by process `pid` named `name`, read at
    /// `now_ms` on a monotonic millisecond clock. A name that is not watched, a metric
    /// that is not metered and a zero limit leave everything as it was. The first sample
    /// of a (name, pid) opens its cell; a later one adds to it, and the sample that
    /// closes a window reports a violation when the window's rate reaches the limit.
    pub fn on_io(&mut self, pid: u32, name: StaticCommandName, bytes: u64, metric: Metric, now_ms: u64) -> (r: Option<Event>)
        requires
            old(self).wf(),
        ensures
            sample_outcome(*old(self), *final(self), r, pid, name, bytes, metric, now_ms),
    {
        let threshold = match self.watchlist.get(&name) {
            Some(t) => t,
            None => return None,
        };
        let limit = threshold.limit(metric);
        if limit == 0 {
            return None;
        }
        let key = (name.0, pid);
        let store = match metric {
            Metric::Disk => &mut self.disk_io,
            Metric::Network => &mut self.network_io,
            _ => return None,
        };
        match store.get(&key) {
            None => {
                let cell = _Atomic::open(now_ms, bytes);
                store.put(key, cell.load());
                None
            },
            Some(word) => {
                let mut cell = _Atomic::new(word);
                let rate = cell.meter(now_ms, bytes, limit);
                proof {
                    lemma_touched_twice(old(self).recency(metric), (name@, pid));
                }
                store.put(key, cell.load());
                match rate {
                    Some(value) => Some(Event::violation(pid, name, Violation { metric, value, threshold: limit })),
                    None => None,
                }
            },
        }
    }

    /// Serves the control request `code` with its message, if any: watching one name,
    /// or clearing the watchlist. Anything else is left to the caller.
    pub fn device_control(&mut self, code: u32, input: Option<SetMonitor>) -> (r: Result<(), ControlError>)
        requires
            old(self).wf(),
        ensures
            final(self).wf(),
            forall|m: Metric| final(self).cells(m) == old(self).cells(m),
            forall|m: Metric| final(self).recency(m) == old(self).recency(m),
            code == IOCTL_SET_MONITOR && input is None ==> r == Err::<(), ControlError>(
                ControlError::InvalidParameter,
            ) && final(self).watched() == old(self).watched(),
            code == IOCTL_SET_MONITOR && input is Some ==> ({
                let m = input->0;
                let next = insert_result(old(self).watched(), m.name@, m.threshold);
                &&& r is Ok <==> next is Some
                &&& r is Ok ==> final(self).watched() == next->0
                &&& r is Err ==> r == Err::<(), ControlError>(ControlError::WatchlistFull)
                    && final(self).watched() == old(self).watched()
            }),
            code == IOCTL_CLEAR_MONITOR ==> r is Ok && final(self).watched() == cleared(
                old(self).watched(),
            ),
            code != IOCTL_SET_MONITOR && code != IOCTL_CLEAR_MONITOR ==> r == Err::<(), ControlError>(
                ControlError::Unhandled,
            ) && final(self).watched() == old(self).watched(),
    {
        if code == IOCTL_SET_MONITOR {
            match input {
                Some(m) => match self.set_monitor(m.name, m.threshold) {
                    Ok(()) => Ok(()),
                    Err(_) => Err(ControlError::WatchlistFull),
                },
                None => Err(ControlError::InvalidParameter),
            }
        } else if code == IOCTL_CLEAR_MONITOR {
            self.clear_monitor();
            Ok(())
        } else {
            Err(ControlError::Unhandled)
        }
    }

    /// A socket send or receive returned `ret` in process `pid` named `name`: the
    /// bytes it moved, if any, are a network sample.
    pub fn kretprobe_network_hook(&mut self, ret: i32, pid: u32, name: StaticCommandName, now_ms: u64) -> (r: Option<Event>)
        requires
            old(self).wf(),
        ensures
            returned_bytes(ret) == 0 ==> unchanged(*old(self), *final(self), r),
            returned_bytes(ret) != 0 ==> sample_outcome(
                *old(self),
                *final(self),
                r,
                pid,
                name,
                returned_bytes(ret),
                Metric::Network,
                now_ms,
            ),
    {
        let size = network_bytes(ret);
        if size == 0 {
            return None;
        }
        self.on_io(pid, name, size, Metric::Network, now_ms)
    }

    /// A block request of `nr_sector` sectors completed for process `pid` named `name`.
    pub fn tracepoint_disk_hook(&mut self, nr_sector: u32, pid: u32, name: StaticCommandName, now_ms: u64) -> (r: Option<Event>)
        requires
            old(self).wf(),
        ensures
            nr_sector == 0 ==> unchanged(*old(self), *final(self), r),
            nr_sector != 0 ==> sample_outcome(
                *old(self),
                *final(self),
                r,
                pid,
                name,
                (nr_sector * SECTOR_SIZE) as u64,
                Metric::Disk,
                now_ms,
            ),
    {
        if nr_sector == 0 {
            return None;
        }
        self.on_io(pid, name, nr_sector as u64 * SECTOR_SIZE, Metric::Disk, now_ms)
    }

    /// The network filter saw `size` bytes for the process `pid`, whose image name
    /// `process_name` is UTF-16, NUL-terminated unless it fills the buffer. A pid that
    /// does not fit in 32 bits, and a name that is not UTF-16, are ignored.
    pub fn wfp_callback(&mut self, pid: u64, process_name: &[u16], size: usize, now_ms: u64) -> (r: Option<Event>)
        requires
            old(self).wf(),
        ensures
            ({
                let text = utf16_decoded(units_before_nul(process_name@));
                if pid > u32::MAX || text is None || size > u64::MAX {
                    unchanged(*old(self), *final(self), r)
                } else {
                    exists|name: StaticCommandName|
                        name@ == stored_name(encode_utf8(text->0)) && #[trigger] sample_outcome(
                            *old(self),
                            *final(self),
                            r,
                            pid as u32,
                            name,
                            size as u64,
                            Metric::Network,
                            now_ms,
                        )
                }
            }),
    {
        if pid > u32::MAX as u64 {
            return None;
        }
        if size as u128 > u64::MAX as u128 {
            return None;
        }
        let name = match wide_name(process_name) {
            Some(n) => n,
            None => return None,
        };
        self.on_io(pid as u32, name, size as u64, Metric::Network, now_ms)
    }

    /// A read or write completed on the file system for process `pid` named `name`:
    /// `length` bytes for a read or a write, none for any other request.
    pub fn minifilter_postop(&mut self, pid: u32, name: StaticCommandName, major_function: u8, length: u32, now_ms: u64) -> (r: Option<Event>)
        requires
            old(self).wf(),
        ensures
            sample_outcome(
                *old(self),
                *final(self),
                r,
                pid,
                name,
                if major_function == IRP_MJ_READ || major_function == IRP_MJ_WRITE {
                    length as u64
                } else {
                    0
                },
                Metric::Disk,
                now_ms,
            ),
    {
        let size: u64 = if major_function == IRP_MJ_READ || major_function == IRP_MJ_WRITE {
            length as u64
        } else {
            0
        };
        self.on_io(pid, name, size, Metric::Disk, now_ms)
    }

    /// A process `pid` named `name` started: reported when the name is watched. No
    /// metering cell is made.
    pub fn kretprobe_process_creation(&self, pid: u32, name: StaticCommandName) -> (r: Option<Event>)
        requires
            self.wf(),
        ensures
            r == if self.watched().contains_key(name@) {
                Some(new_process_event(pid, name))
            } else {
                None
            },
    {
        if self.watchlist.get(&name).is_some() {
            Some(Event::new_process(pid, name))
        } else {
            None
        }
    }
}

/// Bytes that a socket call returning `ret` moved: negative returns count as none.
pub fn network_bytes(ret: i32) -> (r: u64)
    ensures
        r == returned_bytes(ret),
{
    if ret < 0 {
        0
    } else {
        ret as u64
    }
}

/// The process-notify callback: a creation of process `pid` named `name` is
/// reported, an exit is not.
pub fn process_notify(pid: u32, name: StaticCommandName, create: bool) -> (r: Option<Event>)
    ensures
        r == if create {
            Some(new_process_event(pid, name))
        } else {
            None
        },
{
    if create {
        Some(Event::new_process(pid, name))
    } else {
        None
    }
}

/// A zero limit means no limit: a sample never reports a violation of a metric whose
/// limit is zero, whatever the traffic.
pub proof fn law_zero_threshold(
    before_c: Collector,
    after_c: Collector,
    r: Option<Event>,
    pid: u32,
    name: StaticCommandName,
    bytes: u64,
    metric: Metric,
    now_ms: u64,
)
    requires
        sample_outcome(before_c, after_c, r, pid, name, bytes, metric, now_ms),
        before_c.limit_of(name, metric) == Some(0u32),
    ensures
        r is None,
{
}

} // verus!

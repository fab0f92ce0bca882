//! The user side of the watcher: control codes and messages, log levels, the
//! lifecycle of a tracer handle, and the decisions of the event pump.
use vstd::prelude::*;
use crate::event::{stored_name, StaticCommandName, Threshold};
use crate::framing::{frames, FrameAssembler};
use crate::ring::Channel;

verus! {

/// Device type of a device that belongs to no predefined class.
pub const FILE_DEVICE_UNKNOWN: u32 = 0x22;

/// Transfer method: the system copies the buffers.
pub const METHOD_BUFFERED: u32 = 0;

/// Access: any caller may send the request.
pub const FILE_ANY_ACCESS: u32 = 0;

/// Control code that asks the driver for the shared ring and its wake-up event.
pub const IOCTL_MEMORY_INITIALIZE: u32 = 0x0022_2000;

/// Control code that empties the watchlist.
pub const IOCTL_CLEAR_MONITOR: u32 = 0x0022_2004;

/// Control code that watches one name.
pub const IOCTL_SET_MONITOR: u32 = 0x0022_2008;

/// Success, as the C interface reports it.
pub const STATUS_OK: i32 = 0;

/// Failure, as the C interface reports it.
pub const STATUS_FAILED: i32 = 1;

/// A device control code: device type in bits 16 and up, required access in bits 14
/// and 15, function in bits 2 to 13, transfer method in bits 0 and 1.
pub fn _ctl_code(device_type: u32, function: u32, method: u32, access: u32) -> (r: u32)
    ensures
        r == (device_type << 16u32) | (access << 14u32) | (function << 2u32) | method,
        device_type < 0x1_0000 && access < 4 && function < 0x1000 && method < 4 ==> {
            &&& r >> 16u32 == device_type
            &&& (r >> 14u32) & 3 == access
            &&& (r >> 2u32) & 0xFFF == function
            &&& r & 3 == method
        },
{
    let r = (device_type << 16) | (access << 14) | (function << 2) | method;
    assert(device_type < 0x1_0000 && access < 4 && function < 0x1000 && method < 4 ==> {
        &&& r >> 16u32 == device_type
        &&& (r >> 14u32) & 3 == access
        &&& (r >> 2u32) & 0xFFF == function
        &&& r & 3 == method
    }) by (bit_vector)
        requires
            r == (device_type << 16u32) | (access << 14u32) | (function << 2u32) | method,
    ;
    r
}

/// The least severe messages that are logged.
#[derive(Clone, Copy, Debug, PartialEq, Eq, Structural)]
pub enum LogLevel {
    Off,
    Error,
    Warn,
    Info,
    Debug,
    Trace,
}

/// The level that the C interface numbers `code`: 0 is off, 1 to 5 are error, warn,
/// info, debug and trace; any other number is none.
pub open spec fn level_of(code: i32) -> Option<LogLevel> {
    if code == 0 {
        Some(LogLevel::Off)
    } else if code == 1 {
        Some(LogLevel::Error)
    } else if code == 2 {
        Some(LogLevel::Warn)
    } else if code == 3 {
        Some(LogLevel::Info)
    } else if code == 4 {
        Some(LogLevel::Debug)
    } else if code == 5 {
        Some(LogLevel::Trace)
    } else {
        None
    }
}

pub fn level_from_code(code: i32) -> (r: Option<LogLevel>)
    ensures
        r == level_of(code),
{
    match code {
        0 => Some(LogLevel::Off),
        1 => Some(LogLevel::Error),
        2 => Some(LogLevel::Warn),
        3 => Some(LogLevel::Info),
        4 => Some(LogLevel::Debug),
        5 => Some(LogLevel::Trace),
        _ => None,
    }
}

/// The options of the command-line front end: the pid to follow and the log level.
#[derive(Clone, Copy, Debug)]
pub struct Arguments {
    pub pid: u32,
    pub log_level: LogLevel,
}

/// A value tied to the lifetime of what it was made from.
pub struct Lifetime<T> {
    value: T,
}

impl<T> Lifetime<T> {
    pub closed spec fn view(&self) -> T {
        self.value
    }

    pub fn new(value: T) -> (r: Lifetime<T>)
        ensures
            r@ == value,
    {
        Lifetime { value }
    }

    pub fn get(&self) -> (r: &T)
        ensures
            *r == self@,
    {
        &self.value
    }

    pub fn into_inner(self) -> (r: T)
        ensures
            r == self@,
    {
        self.value
    }
}

/// The message of a `IOCTL_SET_MONITOR` request.
#[derive(Clone, Copy, Debug)]
pub struct SetMonitor {
    pub name: StaticCommandName,
    pub threshold: Threshold,
}

impl SetMonitor {
    /// The request that watches `name`, cut to the stored length, with `threshold`.
    pub fn new(name: &str, threshold: Threshold) -> (r: SetMonitor)
        ensures
            r.name@ == stored_name(vstd::utf8::encode_utf8(name@)),
            r.threshold == threshold,
    {
        SetMonitor { name: StaticCommandName::from_name(name), threshold }
    }
}

/// The handle was never attached, or has been freed.
#[derive(Clone, Copy, Debug, PartialEq, Eq, Structural)]
pub struct InvalidHandle;

/// Where a tracer handle stands.
#[derive(Clone, Copy, Debug, PartialEq, Eq, Structural)]
pub enum TracerState {
    Unattached,
    Attached,
    Closing,
}

/// What the event pump does after one wait on the ring.
#[derive(Debug)]
pub enum PumpStep {
    /// The wait ran out: hand the caller no event.
    Timeout,
    /// A complete frame, terminator included, is ready to decode.
    Frame(Vec<u8>),
    /// No complete frame yet: wait again.
    WaitAgain,
}

/// The user-side state of a tracer: where it stands, and the bytes read from the ring
/// that do not yet make a frame.
pub struct KernelTracerHandle {
    state: TracerState,
    reading: FrameAssembler,
}

impl KernelTracerHandle {
    pub closed spec fn state(&self) -> TracerState {
        self.state
    }

    /// Received bytes that do not yet end a frame.
    pub closed spec fn pending(&self) -> Seq<u8> {
        self.reading@
    }

    pub fn new() -> (r: KernelTracerHandle)
        ensures
            r.state() == TracerState::Unattached,
            r.pending() == Seq::<u8>::empty(),
    {
        KernelTracerHandle { state: TracerState::Unattached, reading: FrameAssembler::new() }
    }

    pub fn current_state(&self) -> (r: TracerState)
        ensures
            r == self.state(),
    {
        self.state
    }

    /// The collector is loaded and the ring mapped: the handle becomes usable.
    pub fn attach(&mut self) -> (r: Result<(), InvalidHandle>)
        ensures
            r is Ok <==> old(self).state() == TracerState::Unattached,
            final(self).state() == if r is Ok {
                TracerState::Attached
            } else {
                old(self).state()
            },
            final(self).pending() == old(self).pending(),
    {
        match self.state {
            TracerState::Unattached => {
                self.state = TracerState::Attached;
                Ok(())
            },
            _ => Err(InvalidHandle),
        }
    }

    /// Teardown starts: no operation succeeds on the handle from here on.
    pub fn begin_close(&mut self) -> (r: Result<(), InvalidHandle>)
        ensures
            r is Ok <==> old(self).state() == TracerState::Attached,
            final(self).state() == if r is Ok {
                TracerState::Closing
            } else {
                old(self).state()
            },
            final(self).pending() == old(self).pending(),
    {
        match self.state {
            TracerState::Attached => {
                self.state = TracerState::Closing;
                Ok(())
            },
            _ => Err(InvalidHandle),
        }
    }

    /// Teardown is done: the handle is released, its pending bytes dropped.
    pub fn finish_close(&mut self) -> (r: Result<(), InvalidHandle>)
        ensures
            r is Ok <==> old(self).state() == TracerState::Closing,
            r is Ok ==> final(self).state() == TracerState::Unattached && final(self).pending()
                == Seq::<u8>::empty(),
            r is Err ==> final(self).state() == old(self).state() && final(self).pending() == old(
                self,
            ).pending(),
    {
        match self.state {
            TracerState::Closing => {
                self.state = TracerState::Unattached;
                self.reading = FrameAssembler::new();
                Ok(())
            },
            _ => Err(InvalidHandle),
        }
    }

    /// Whether an operation may go ahead on the handle.
    pub fn check(&self) -> (r: Result<(), InvalidHandle>)
        ensures
            r is Ok <==> self.state() == TracerState::Attached,
    {
        match self.state {
            TracerState::Attached => Ok(()),
            _ => Err(InvalidHandle),
        }
    }

    /// The request that `set_monitor` sends, on an attached handle.
    pub fn set_monitor(&self, name: &str, threshold: Threshold) -> (r: Result<SetMonitor, InvalidHandle>)
        ensures
            r is Ok <==> self.state() == TracerState::Attached,
            r is Ok ==> r->Ok_0.name@ == stored_name(vstd::utf8::encode_utf8(name@))
                && r->Ok_0.threshold == threshold,
    {
        match self.check() {
            Ok(()) => Ok(SetMonitor::new(name, threshold)),
            Err(e) => Err(e),
        }
    }

    /// The control code that `clear_monitor` sends, on an attached handle.
    pub fn clear_monitor(&self) -> (r: Result<u32, InvalidHandle>)
        ensures
            r is Ok <==> self.state() == TracerState::Attached,
            r is Ok ==> r->Ok_0 == IOCTL_CLEAR_MONITOR,
    {
        match self.check() {
            Ok(()) => Ok(IOCTL_CLEAR_MONITOR),
            Err(e) => Err(e),
        }
    }

    /// Hands out the oldest complete frame among the bytes already received, if any,
    /// without touching the ring: the pump takes this step before each wait.
    pub fn pending_frame(&mut self) -> (r: Result<Option<Vec<u8>>, InvalidHandle>)
        ensures
            final(self).state() == old(self).state(),
            r is Err <==> old(self).state() != TracerState::Attached,
            r is Err ==> final(self).pending() == old(self).pending(),
            r is Ok && frames(old(self).pending()).len() == 0 ==> r->Ok_0 is None
                && final(self).pending() == old(self).pending(),
            r is Ok && frames(old(self).pending()).len() > 0 ==> r->Ok_0 is Some
                && r->Ok_0->0@ == frames(old(self).pending())[0]
                && frames(final(self).pending()) == frames(old(self).pending()).drop_first(),
    {
        if let Err(e) = self.check() {
            return Err(e);
        }
        Ok(self.reading.next_frame())
    }

    /// One turn of the event pump. A complete frame already received is handed out
    /// first, whatever the wait on the ring's wake-up event gave. Otherwise, when the
    /// wait ran out, there is no event; when it was signalled, at most `chunk` bytes
    /// are taken from the ring, and the oldest complete frame, if there is one, is
    /// handed out.
    pub fn next_event<const N: usize>(&mut self, signaled: bool, channel: &mut Channel<N>, chunk: usize) -> (r: Result<PumpStep, InvalidHandle>)
        requires
            old(channel).wf(),
        ensures
            final(channel).wf(),
            final(self).state() == old(self).state(),
            r is Err <==> old(self).state() != TracerState::Attached,
            r is Err ==> final(channel)@ == old(channel)@ && final(self).pending() == old(self).pending(),
            r is Ok && frames(old(self).pending()).len() > 0 ==> {
                &&& r->Ok_0 is Frame
                &&& r->Ok_0->Frame_0@ == frames(old(self).pending())[0]
                &&& frames(final(self).pending()) == frames(old(self).pending()).drop_first()
                &&& final(channel)@ == old(channel)@
            },
            r is Ok && frames(old(self).pending()).len() == 0 && !signaled ==> {
                &&& r->Ok_0 is Timeout
                &&& final(channel)@ == old(channel)@
                &&& final(self).pending() == old(self).pending()
            },
            r is Ok && frames(old(self).pending()).len() == 0 && signaled ==> ({
                let n = if chunk < old(channel)@.len() { chunk as int } else { old(channel)@.len() as int };
                let all = old(self).pending() + old(channel)@.take(n);
                &&& final(channel)@ == old(channel)@.skip(n)
                &&& frames(all).len() == 0 ==> r->Ok_0 is WaitAgain && final(self).pending() == all
                &&& frames(all).len() > 0 ==> r->Ok_0 is Frame && r->Ok_0->Frame_0@ == frames(all)[0]
                    && frames(final(self).pending()) == frames(all).drop_first()
            }),
    {
        if let Err(e) = self.check() {
            return Err(e);
        }
        if let Some(frame) = self.reading.next_frame() {
            return Ok(PumpStep::Frame(frame));
        }
        if !signaled {
            return Ok(PumpStep::Timeout);
        }
        match self.reading.receive(channel, chunk) {
            Some(frame) => Ok(PumpStep::Frame(frame)),
            None => Ok(PumpStep::WaitAgain),
        }
    }
}

/// The status that the C interface returns for the outcome of an operation.
pub fn status_code<T, E>(outcome: &Result<T, E>) -> (r: i32)
    ensures
        r == if outcome is Ok {
            STATUS_OK
        } else {
            STATUS_FAILED
        },
{
    match outcome {
        Ok(_) => STATUS_OK,
        Err(_) => STATUS_FAILED,
    }
}

/// The handles that are live: made by `new_tracer` and not yet freed.
pub struct HandleRegistry {
    live: Vec<usize>,
}

impl HandleRegistry {
    pub closed spec fn view(&self) -> Set<usize> {
        self.live@.to_set()
    }

    pub fn new() -> (r: HandleRegistry)
        ensures
            r@ == Set::<usize>::empty(),
    {
        HandleRegistry { live: Vec::new() }
    }

    /// Whether `handle` is live.
    pub fn contains(&self, handle: usize) -> (r: bool)
        ensures
            r == self@.contains(handle),
    {
        let mut i: usize = 0;
        while i < self.live.len()
            invariant
                i <= self.live@.len(),
                forall|j: int| 0 <= j < i ==> self.live@[j] != handle,
            decreases self.live@.len() - i,
        {
            if self.live[i] == handle {
                return true;
            }
            i = i + 1;
        }
        false
    }

    /// Whether a call through `handle` may go ahead.
    pub fn accepts(&self, handle: usize) -> (r: Result<(), InvalidHandle>)
        ensures
            r is Ok <==> admitted(self@, handle),
    {
        if handle != 0 && self.contains(handle) {
            Ok(())
        } else {
            Err(InvalidHandle)
        }
    }

    /// Records a new handle.
    pub fn register(&mut self, handle: usize)
        ensures
            final(self)@ == old(self)@.insert(handle),
    {
        if !self.contains(handle) {
            self.live.push(handle);
            proof {
                assert forall|h: usize| self@.contains(h) <==> old(self)@.insert(handle).contains(h) by {
                    vstd::seq_lib::lemma_seq_contains_after_push(old(self).live@, handle, h);
                }
            }
        }
        assert(self@ =~= old(self)@.insert(handle));
    }

    /// Forgets a handle; true when it was live.
    pub fn release(&mut self, handle: usize) -> (r: bool)
        ensures
            r == old(self)@.contains(handle),
            final(self)@ == old(self)@.remove(handle),
    {
        let ghost before = self.live@;
        let mut kept: Vec<usize> = Vec::new();
        let mut found = false;
        let mut i: usize = 0;
        while i < self.live.len()
            invariant
                self.live@ == before,
                i <= before.len(),
                forall|h: usize| kept@.contains(h) <==> before.take(i as int).contains(h) && h != handle,
                found == before.take(i as int).contains(handle),
            decreases before.len() - i,
        {
            let x = self.live[i];
            let ghost prev_t = before.take(i as int);
            let ghost prev_k = kept@;
            proof {
                assert(before.take(i + 1) =~= prev_t.push(x));
            }
            if x == handle {
                found = true;
            } else {
                kept.push(x);
            }
            i = i + 1;
            proof {
                assert forall|h: usize| kept@.contains(h) <==> before.take(i as int).contains(h) && h != handle by {
                    vstd::seq_lib::lemma_seq_contains_after_push(prev_t, x, h);
                    if x != handle {
                        vstd::seq_lib::lemma_seq_contains_after_push(prev_k, x, h);
                    }
                }
                vstd::seq_lib::lemma_seq_contains_after_push(prev_t, x, handle);
            }
        }
        proof {
            assert(before.take(before.len() as int) =~= before);
        }
        self.live = kept;
        assert(self@ =~= old(self)@.remove(handle));
        found
    }
}

/// Whether a call through `handle` may go ahead: it is not null, and it is live.
pub open spec fn admitted(live: Set<usize>, handle: usize) -> bool {
    handle != 0 && live.contains(handle)
}

/// Handle lifecycle: a call through the null handle, or through a handle that has
/// been freed, is refused, whatever else is live.
pub proof fn law_handle_lifecycle(live: Set<usize>, handle: usize)
    ensures
        !admitted(live, 0),
        !admitted(live.remove(handle), handle),
{
}

} // verus!

//! The event record model shared by the collector and the consumer.
use vstd::prelude::*;
use vstd::string::StringSliceAdditionalSpecFns;
use vstd::utf8::encode_utf8;

verus! {

/// Number of bytes in a command name, the terminating NUL included.
pub const COMMAND_LENGTH: usize = 16;

/// Largest number of watched command names, and of metering cells per metric.
pub const MAX_PROCESS_COUNT: usize = 512;

/// What a threshold limits and a violation reports.
#[derive(Clone, Copy, Debug, PartialEq, Eq, Structural)]
pub enum Metric {
    Cpu,
    Memory,
    Disk,
    Network,
}

impl Metric {
    /// Position of the metric in a threshold vector.
    pub open spec fn spec_index(self) -> nat {
        match self {
            Metric::Cpu => 0,
            Metric::Memory => 1,
            Metric::Disk => 2,
            Metric::Network => 3,
        }
    }

    pub fn index(self) -> (r: usize)
        ensures
            r == self.spec_index(),
            r < 4,
    {
        match self {
            Metric::Cpu => 0,
            Metric::Memory => 1,
            Metric::Disk => 2,
            Metric::Network => 3,
        }
    }
}

/// Byte-rate limits in bytes per second, indexed by metric; zero means no limit.
#[derive(Clone, Copy, Debug)]
pub struct Threshold {
    pub thresholds: [u32; 4],
}

impl Threshold {
    pub open spec fn spec_limit(self, metric: Metric) -> u32 {
        self.thresholds@[metric.spec_index() as int]
    }

    /// The limit that applies to `metric`.
    pub fn limit(&self, metric: Metric) -> (r: u32)
        ensures
            r == self.spec_limit(metric),
    {
        self.thresholds[metric.index()]
    }
}

/// The stored form of a name: at most `COMMAND_LENGTH - 1` of its bytes, then NULs.
pub open spec fn stored_name(bytes: Seq<u8>) -> Seq<u8> {
    Seq::new(
        COMMAND_LENGTH as nat,
        |i: int|
            if i < bytes.len() && i < COMMAND_LENGTH - 1 {
                bytes[i]
            } else {
                0u8
            },
    )
}

/// The bytes of a stored name before its first NUL.
pub open spec fn name_text(buf: Seq<u8>) -> Seq<u8>
    decreases buf.len(),
{
    if buf.len() == 0 || buf[0] == 0 {
        Seq::empty()
    } else {
        seq![buf[0]] + name_text(buf.drop_first())
    }
}

/// Truncation: a name of `COMMAND_LENGTH - 1` bytes or more is stored as its first
/// `COMMAND_LENGTH - 1` bytes and a NUL, so two such names that agree on those bytes
/// are stored, and compared, alike.
pub proof fn law_truncation(a: Seq<u8>, b: Seq<u8>)
    requires
        a.len() >= COMMAND_LENGTH - 1,
        b.len() >= COMMAND_LENGTH - 1,
        a.take(COMMAND_LENGTH - 1) == b.take(COMMAND_LENGTH - 1),
    ensures
        stored_name(a) == stored_name(b),
        stored_name(a).take(COMMAND_LENGTH - 1) == a.take(COMMAND_LENGTH - 1),
        stored_name(a)[COMMAND_LENGTH - 1] == 0,
{
    let n = COMMAND_LENGTH - 1;
    assert forall|i: int| 0 <= i < n implies a[i] == b[i] by {
        assert(a.take(n as int)[i] == a[i]);
        assert(b.take(n as int)[i] == b[i]);
    }
    assert(stored_name(a) =~= stored_name(b));
    assert(stored_name(a).take(COMMAND_LENGTH - 1) =~= a.take(COMMAND_LENGTH - 1));
}

/// A fixed-length, NUL-padded command name: the key that identifies a process.
#[derive(Clone, Copy, Debug)]
pub struct StaticCommandName(pub [u8; COMMAND_LENGTH]);

impl StaticCommandName {
    pub open spec fn view(self) -> Seq<u8> {
        self.0@
    }

    /// Stores `bytes`, cut to `COMMAND_LENGTH - 1` bytes so that a NUL always ends the name.
    pub fn from_bytes(bytes: &[u8]) -> (r: StaticCommandName)
        ensures
            r.view() == stored_name(bytes@),
    {
        let mut buffer = [0u8; COMMAND_LENGTH];
        let len: usize = if bytes.len() < COMMAND_LENGTH - 1 {
            bytes.len()
        } else {
            COMMAND_LENGTH - 1
        };
        let mut i: usize = 0;
        while i < len
            invariant
                len <= bytes@.len(),
                len < COMMAND_LENGTH,
                i <= len,
                buffer@.len() == COMMAND_LENGTH,
                forall|j: int| 0 <= j < i ==> buffer@[j] == bytes@[j],
                forall|j: int| i <= j < COMMAND_LENGTH ==> buffer@[j] == 0u8,
            decreases len - i,
        {
            buffer[i] = bytes[i];
            i = i + 1;
        }
        let r = StaticCommandName(buffer);
        assert(r.view() =~= stored_name(bytes@));
        r
    }

    /// Stores the UTF-8 bytes of `name`, cut as `from_bytes` cuts them.
    pub fn from_name(name: &str) -> (r: StaticCommandName)
        ensures
            r.view() == stored_name(name.spec_bytes()),
    {
        StaticCommandName::from_bytes(name.as_bytes())
    }

    /// Whether two names hold the same bytes.
    pub fn same(&self, other: &StaticCommandName) -> (r: bool)
        ensures
            r == (self.view() == other.view()),
    {
        let mut i: usize = 0;
        while i < COMMAND_LENGTH
            invariant
                i <= COMMAND_LENGTH,
                self.0@.len() == COMMAND_LENGTH,
                other.0@.len() == COMMAND_LENGTH,
                forall|j: int| 0 <= j < i ==> self.0@[j] == other.0@[j],
            decreases COMMAND_LENGTH - i,
        {
            if self.0[i] != other.0[i] {
                return false;
            }
            i = i + 1;
        }
        assert(self.view() =~= other.view());
        true
    }

    /// The bytes of the name before its first NUL.
    pub fn text_bytes(&self) -> (r: Vec<u8>)
        ensures
            r@ == name_text(self.view()),
    {
        let mut out: Vec<u8> = Vec::new();
        let mut i: usize = 0;
        proof {
            assert(self.view().subrange(0, COMMAND_LENGTH as int) =~= self.view());
            assert(out@ + name_text(self.view()) =~= name_text(self.view()));
        }
        while i < COMMAND_LENGTH && self.0[i] != 0
            invariant
                i <= COMMAND_LENGTH,
                self.0@.len() == COMMAND_LENGTH,
                forall|j: int| 0 <= j < i ==> self.0@[j] != 0u8,
                name_text(self.view()) == out@ + name_text(self.view().subrange(i as int, COMMAND_LENGTH as int)),
            decreases COMMAND_LENGTH - i,
        {
            proof {
                let rest = self.view().subrange(i as int, COMMAND_LENGTH as int);
                let tail = self.view().subrange(i + 1, COMMAND_LENGTH as int);
                assert(rest.drop_first() =~= tail);
                assert(out@ + name_text(rest) =~= out@.push(self.0@[i as int]) + name_text(tail));
            }
            out.push(self.0[i]);
            i = i + 1;
        }
        proof {
            let rest = self.view().subrange(i as int, COMMAND_LENGTH as int);
            assert(name_text(rest) =~= Seq::<u8>::empty());
            assert(out@ + Seq::<u8>::empty() =~= out@);
        }
        out
    }
}

/// A measured rate that reached its limit.
#[derive(Clone, Copy, Debug)]
pub struct Violation {
    pub metric: Metric,
    /// Measured rate, in bytes per second.
    pub value: u32,
    /// The limit that `value` reached.
    pub threshold: u32,
}

/// The payload of a new-process event: nothing beyond the pid and the name.
#[derive(Clone, Copy, Debug)]
pub struct NewProcess;

/// The tag of an event record.
#[derive(Clone, Copy, Debug, PartialEq, Eq, Structural)]
pub enum EventType {
    Violation,
    NewProcess,
}

/// The payload of an event record, one per tag.
#[derive(Clone, Copy, Debug)]
pub enum EventData {
    Violation(Violation),
    NewProcess(NewProcess),
}

/// One record handed to the consumer.
#[derive(Clone, Copy, Debug)]
pub struct Event {
    pub pid: u32,
    pub name: StaticCommandName,
    pub variant: EventType,
    pub data: EventData,
}

/// Text that `String::from_utf8_lossy` makes of `bytes`.
pub uninterp spec fn lossy_text(bytes: Seq<u8>) -> Seq<char>;

/// Relies on `String::from_utf8_lossy`: the text depends on the bytes alone, and
/// no bytes give no text.
#[verifier::external_body]
fn utf8_lossy(bytes: &[u8]) -> (r: String)
    ensures
        r@ == lossy_text(bytes@),
        bytes@.len() == 0 ==> r@.len() == 0,
{
    String::from_utf8_lossy(bytes).into_owned()
}

impl Event {
    /// The tag agrees with the payload.
    pub open spec fn wf(self) -> bool {
        match self.data {
            EventData::Violation(_) => self.variant == EventType::Violation,
            EventData::NewProcess(_) => self.variant == EventType::NewProcess,
        }
    }

    pub fn violation(pid: u32, name: StaticCommandName, violation: Violation) -> (r: Event)
        ensures
            r.wf(),
            r.pid == pid,
            r.name == name,
            r.data == EventData::Violation(violation),
    {
        Event { pid, name, variant: EventType::Violation, data: EventData::Violation(violation) }
    }

    pub fn new_process(pid: u32, name: StaticCommandName) -> (r: Event)
        ensures
            r.wf(),
            r.pid == pid,
            r.name == name,
            r.data == EventData::NewProcess(NewProcess),
    {
        Event { pid, name, variant: EventType::NewProcess, data: EventData::NewProcess(NewProcess) }
    }

    /// The command name as text, up to its first NUL.
    pub fn command_name(&self) -> (r: String)
        ensures
            r@ == lossy_text(name_text(self.name.view())),
    {
        let bytes = self.name.text_bytes();
        utf8_lossy(bytes.as_slice())
    }
}

/// The payload of an event as it travels through the shared-memory ring.
#[derive(Clone, Copy, Debug)]
pub enum WindowsEventData {
    Violation(Violation),
    NewProcess(NewProcess),
}

/// An event as it travels through the shared-memory ring, its name as text.
#[derive(Debug)]
pub struct WindowsEvent {
    pub pid: u32,
    pub name: String,
    pub data: WindowsEventData,
}

impl WindowsEvent {
    /// The record handed to the consumer: the same pid and payload, the name stored
    /// as a fixed-length name.
    pub fn to_event(&self) -> (r: Event)
        ensures
            r.wf(),
            r.pid == self.pid,
            r.name.view() == stored_name(encode_utf8(self.name@)),
            match self.data {
                WindowsEventData::Violation(v) => r.data == EventData::Violation(v),
                WindowsEventData::NewProcess(p) => r.data == EventData::NewProcess(p),
            },
    {
        let name = StaticCommandName::from_name(self.name.as_str());
        match self.data {
            WindowsEventData::Violation(v) => Event::violation(self.pid, name, v),
            WindowsEventData::NewProcess(_) => Event::new_process(self.pid, name),
        }
    }
}

} // verus!

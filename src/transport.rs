//! The decisions of the serial transport: how a read attempt's outcome is
//! handled, which discovered ports are listed, and the settings a port is
//! opened with. The port itself, and the waiting on it, belong to the caller.
use vstd::prelude::*;
use vstd::string::StringExecFns;

verus! {

/// Why the transport gave up.
#[derive(Debug, Clone, Copy, PartialEq, Eq, Structural)]
pub enum TransportError {
    /// The device could not be opened.
    PortUnavailable,
    /// Reading or writing failed for a reason other than a timeout.
    Io,
}

/// What one attempt to read a byte from the port gave.
#[derive(Debug, Clone, Copy, PartialEq, Eq, Structural)]
pub enum ReadOutcome {
    Byte(u8),
    TimedOut,
    Failed,
}

/// What the reader does next.
#[derive(Debug, Clone, Copy, PartialEq, Eq, Structural)]
pub enum ReadAction {
    /// Hand the byte to the caller.
    Deliver(u8),
    /// Wait on the port again: a timeout is never the caller's business.
    Retry,
    /// Stop: the error is fatal to the connection.
    Fail(TransportError),
}

pub open spec fn read_action(outcome: ReadOutcome) -> ReadAction {
    match outcome {
        ReadOutcome::Byte(b) => ReadAction::Deliver(b),
        ReadOutcome::TimedOut => ReadAction::Retry,
        ReadOutcome::Failed => ReadAction::Fail(TransportError::Io),
    }
}

/// Decides what follows a read attempt.
pub fn next_read_action(outcome: ReadOutcome) -> (r: ReadAction)
    ensures
        r == read_action(outcome),
{
    match outcome {
        ReadOutcome::Byte(b) => ReadAction::Deliver(b),
        ReadOutcome::TimedOut => ReadAction::Retry,
        ReadOutcome::Failed => ReadAction::Fail(TransportError::Io),
    }
}

/// What a blocking read makes of a series of attempts: the first attempt
/// that did not time out decides; while every attempt times out, the read
/// is still waiting (`None`).
pub open spec fn read_result(attempts: Seq<ReadOutcome>) -> Option<Result<u8, TransportError>>
    decreases attempts.len(),
{
    if attempts.len() == 0 {
        None
    } else {
        match read_action(attempts[0]) {
            ReadAction::Deliver(b) => Some(Ok(b)),
            ReadAction::Fail(e) => Some(Err(e)),
            ReadAction::Retry => read_result(attempts.drop_first()),
        }
    }
}

/// Runs the read loop over the outcomes of successive attempts.
pub fn read_byte_from(attempts: &[ReadOutcome]) -> (r: Option<Result<u8, TransportError>>)
    ensures
        r == read_result(attempts@),
{
    let mut i: usize = 0;
    assert(attempts@.skip(0) =~= attempts@);
    while i < attempts.len()
        invariant
            i <= attempts@.len(),
            read_result(attempts@) == read_result(attempts@.skip(i as int)),
        decreases attempts@.len() - i,
    {
        assert(attempts@.skip(i as int).drop_first() =~= attempts@.skip(i + 1));
        match next_read_action(attempts[i]) {
            ReadAction::Deliver(b) => {
                return Some(Ok(b));
            },
            ReadAction::Fail(e) => {
                return Some(Err(e));
            },
            ReadAction::Retry => {},
        }
        i = i + 1;
    }
    assert(attempts@.skip(i as int) =~= Seq::<ReadOutcome>::empty());
    None
}

/// Any number of timeouts followed by a byte read the byte, with no error,
/// whatever would have come after it.
pub proof fn lemma_timeouts_then_byte(timeouts: nat, b: u8, later: Seq<ReadOutcome>)
    ensures
        read_result(Seq::new(timeouts, |i: int| ReadOutcome::TimedOut) + seq![ReadOutcome::Byte(b)]
            + later) == Some(Ok::<u8, TransportError>(b)),
    decreases timeouts,
{
    let s = Seq::new(timeouts, |i: int| ReadOutcome::TimedOut) + seq![ReadOutcome::Byte(b)] + later;
    if timeouts > 0 {
        lemma_timeouts_then_byte((timeouts - 1) as nat, b, later);
        assert(s.drop_first() =~= Seq::new((timeouts - 1) as nat, |i: int| ReadOutcome::TimedOut)
            + seq![ReadOutcome::Byte(b)] + later);
    }
}


/// What one attempt to write a byte to the port gave.
#[derive(Debug, Clone, Copy, PartialEq, Eq, Structural)]
pub enum WriteOutcome {
    Written,
    TimedOut,
    Failed,
}

/// What the writer does next.
#[derive(Debug, Clone, Copy, PartialEq, Eq, Structural)]
pub enum WriteAction {
    /// The device took the byte.
    Done,
    /// Offer the byte again: a timeout is never the caller's business.
    Retry,
    /// Stop: the error is fatal to the connection.
    Fail(TransportError),
}

/// Decides what follows a write attempt.
pub fn next_write_action(outcome: WriteOutcome) -> (r: WriteAction)
    ensures
        r == match outcome {
            WriteOutcome::Written => WriteAction::Done,
            WriteOutcome::TimedOut => WriteAction::Retry,
            WriteOutcome::Failed => WriteAction::Fail(TransportError::Io),
        },
{
    match outcome {
        WriteOutcome::Written => WriteAction::Done,
        WriteOutcome::TimedOut => WriteAction::Retry,
        WriteOutcome::Failed => WriteAction::Fail(TransportError::Io),
    }
}

/// The kind of connection behind a discovered port.
#[derive(Debug, Clone, Copy, PartialEq, Eq, Structural)]
pub enum PortKind {
    Usb,
    Pci,
    Bluetooth,
    Unknown,
}

/// A discovered port: its name and the kind of connection behind it.
#[derive(Debug, Clone)]
pub struct PortEntry {
    pub name: String,
    pub kind: PortKind,
}

/// The names of the USB serial ports among `ports`, in order.
pub open spec fn listed_names(ports: Seq<PortEntry>) -> Seq<Seq<char>>
    decreases ports.len(),
{
    if ports.len() == 0 {
        Seq::empty()
    } else {
        let before = listed_names(ports.drop_last());
        if ports.last().kind == PortKind::Usb {
            before.push(ports.last().name@)
        } else {
            before
        }
    }
}

/// The ports worth offering: the USB serial ports, in the order found;
/// PCI, Bluetooth and unknown ports are skipped.
pub fn usb_port_names(ports: &[PortEntry]) -> (r: Vec<String>)
    ensures
        r@.len() == listed_names(ports@).len(),
        forall|i: int| 0 <= i < r@.len() ==> #[trigger] r@[i]@ == listed_names(ports@)[i],
{
    let mut names: Vec<String> = Vec::new();
    let mut i: usize = 0;
    while i < ports.len()
        invariant
            i <= ports@.len(),
            names@.len() == listed_names(ports@.subrange(0, i as int)).len(),
            forall|j: int|
                0 <= j < names@.len() ==> #[trigger] names@[j]@ == listed_names(
                    ports@.subrange(0, i as int),
                )[j],
        decreases ports@.len() - i,
    {
        assert(ports@.subrange(0, i + 1).drop_last() =~= ports@.subrange(0, i as int));
        if ports[i].kind == PortKind::Usb {
            names.push(ports[i].name.clone());
        }
        i = i + 1;
    }
    assert(ports@.subrange(0, i as int) =~= ports@);
    names
}

/// The baud rates a port can be opened with.
#[derive(Debug, Clone, Copy, PartialEq, Eq, Structural)]
pub enum BaudRate {
    B9600,
    B38400,
    B115200,
}

impl BaudRate {
    pub open spec fn bits_per_second(self) -> u32 {
        match self {
            BaudRate::B9600 => 9600,
            BaudRate::B38400 => 38400,
            BaudRate::B115200 => 115200,
        }
    }

    /// The rate in bits per second.
    pub fn value(&self) -> (r: u32)
        ensures
            r == self.bits_per_second(),
    {
        match self {
            BaudRate::B9600 => 9600,
            BaudRate::B38400 => 38400,
            BaudRate::B115200 => 115200,
        }
    }

    /// The rate written in decimal.
    pub fn to_string(&self) -> (r: String)
        ensures
            r@ == match self {
                BaudRate::B9600 => "9600"@,
                BaudRate::B38400 => "38400"@,
                BaudRate::B115200 => "115200"@,
            },
    {
        match self {
            BaudRate::B9600 => String::from_str("9600"),
            BaudRate::B38400 => String::from_str("38400"),
            BaudRate::B115200 => String::from_str("115200"),
        }
    }
}

/// The ports a user can pick by number.
#[derive(Debug, Clone, Copy, PartialEq, Eq, Structural)]
pub enum ComPort {
    COM1,
    COM2,
    COM3,
    COM4,
    COM5,
    COM6,
    COM7,
    COM8,
    COM9,
    COM10,
}

impl ComPort {
    /// The device name the port is opened by.
    pub fn port_name(&self) -> (r: String)
        ensures
            r@ == match self {
                ComPort::COM1 => "COM1"@,
                ComPort::COM2 => "COM2"@,
                ComPort::COM3 => "COM3"@,
                ComPort::COM4 => "COM4"@,
                ComPort::COM5 => "COM5"@,
                ComPort::COM6 => "COM6"@,
                ComPort::COM7 => "COM7"@,
                ComPort::COM8 => "COM8"@,
                ComPort::COM9 => "COM9"@,
                ComPort::COM10 => "COM10"@,
            },
    {
        match self {
            ComPort::COM1 => String::from_str("COM1"),
            ComPort::COM2 => String::from_str("COM2"),
            ComPort::COM3 => String::from_str("COM3"),
            ComPort::COM4 => String::from_str("COM4"),
            ComPort::COM5 => String::from_str("COM5"),
            ComPort::COM6 => String::from_str("COM6"),
            ComPort::COM7 => String::from_str("COM7"),
            ComPort::COM8 => String::from_str("COM8"),
            ComPort::COM9 => String::from_str("COM9"),
            ComPort::COM10 => String::from_str("COM10"),
        }
    }
}

} // verus!

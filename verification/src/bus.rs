//! What a target bus is asked to do, and how it can fail.
use crate::wire;
use crate::wire::{ArgView, ReportArgRef};
use vstd::prelude::*;

verus! {

/// Why a bus operation failed.
#[derive(Debug, Clone, Copy, PartialEq, Eq, Structural)]
pub enum BusError {
    InvalidAddress,
    AccessSizeMismatch,
    Timeout,
    HardwareFailure,
}

/// Why a program stopped.
#[derive(Debug, Clone, Copy, PartialEq, Eq, Structural)]
pub enum VmError {
    InvalidOpcode,
    ProgramTooShort,
    InvalidLength,
    DivideByZero,
    BusError(BusError),
}

/// The bus that a program selects.
#[derive(Debug, Clone, Copy, PartialEq, Eq, Structural)]
pub enum BusKind {
    Spi,
    I2c,
    I3c,
}

/// The code of a bus kind on the wire.
pub open spec fn bus_kind_code(kind: BusKind) -> u8 {
    match kind {
        BusKind::Spi => 0,
        BusKind::I2c => 1,
        BusKind::I3c => 2,
    }
}

/// The bus kind with the given code.
pub open spec fn bus_kind_of(n: u8) -> Option<BusKind> {
    match n {
        0 => Some(BusKind::Spi),
        1 => Some(BusKind::I2c),
        2 => Some(BusKind::I3c),
        _ => None,
    }
}

/// A code names a bus kind exactly when it is the code of that kind.
pub proof fn law_bus_kind_codes(n: u8, kind: BusKind)
    ensures
        bus_kind_of(n) == Some(kind) <==> n == bus_kind_code(kind),
{
}

impl BusKind {
    /// The kind with code `n`, if there is one.
    pub fn from_u8(n: u8) -> (kind: Option<Self>)
        ensures
            kind == bus_kind_of(n),
    {
        match n {
            0 => Some(Self::Spi),
            1 => Some(Self::I2c),
            2 => Some(Self::I3c),
            _ => None,
        }
    }

    /// The code of this kind.
    pub fn to_u8(self) -> (n: u8)
        ensures
            n == bus_kind_code(self),
    {
        match self {
            Self::Spi => 0,
            Self::I2c => 1,
            Self::I3c => 2,
        }
    }
}

/// An argument of a report.
pub type ReportArg<'a> = ReportArgRef<'a>;

/// One operation on a bus, as a mathematical value. A read carries the bytes
/// that it gave.
#[allow(inconsistent_fields)]
pub enum BusCall {
    Select { kind: BusKind, arg: u32 },
    Read { addr: u32, data: Seq<u8> },
    Write { addr: u32, data: Seq<u8> },
    Delay { us: u32 },
    Log { msg: Seq<char> },
    WaitIrq { pin: u8, timeout_ms: u32 },
    Report { kind: u32, args: Seq<ArgView> },
}

/// An operation with its outcome.
pub type BusEvent = (BusCall, Result<(), BusError>);

/// A value that goes with `x`. Another one may go with another `x`, and nothing more is known of it.
pub closed spec fn going_with<T, A>(x: T) -> A {
    (choose|p: (T, A)| #[trigger] p.0 == x).1
}

/// A bus that programs act on.
pub trait Bus: Sized {
    /// The operations carried out so far, with their outcomes.
    open spec fn history(&self) -> Seq<BusEvent> {
        going_with(*self)
    }

    /// Whether the bus can be asked for an operation. Of a read only the length
    /// of the data counts.
    open spec fn takes(&self, call: BusCall) -> bool {
        true
    }

    /// Selects the bus that further operations go to.
    fn set_bus_kind(&mut self, kind: BusKind, arg: u32) -> (r: Result<(), BusError>)
        requires
            old(self).takes(BusCall::Select { kind, arg }),
        ensures
            final(self).history() == old(self).history().push((BusCall::Select { kind, arg }, r)),
    ;

    /// Reads bytes from address `addr` on.
    fn read(&mut self, addr: u32, data: &mut [u8]) -> (r: Result<(), BusError>)
        requires
            old(self).takes(BusCall::Read { addr, data: old(data)@ }),
        ensures
            final(data)@.len() == old(data)@.len(),
            final(self).history() == old(self).history().push(
                (BusCall::Read { addr, data: final(data)@ }, r),
            ),
    ;

    /// Writes bytes from address `addr` on.
    fn write(&mut self, addr: u32, data: &[u8]) -> (r: Result<(), BusError>)
        requires
            old(self).takes(BusCall::Write { addr, data: data@ }),
        ensures
            final(self).history() == old(self).history().push(
                (BusCall::Write { addr, data: data@ }, r),
            ),
    ;

    /// Waits.
    fn delay_us(&mut self, us: u32) -> (r: Result<(), BusError>)
        requires
            old(self).takes(BusCall::Delay { us }),
        ensures
            final(self).history() == old(self).history().push((BusCall::Delay { us }, r)),
    ;

    /// Puts out a line of text.
    fn log(&mut self, msg: &str) -> (r: Result<(), BusError>)
        requires
            old(self).takes(BusCall::Log { msg: msg@ }),
        ensures
            final(self).history() == old(self).history().push((BusCall::Log { msg: msg@ }, r)),
    ;

    /// Waits for an interrupt.
    fn wait_irq(&mut self, pin: u8, timeout_ms: u32) -> (r: Result<(), BusError>)
        requires
            old(self).takes(BusCall::WaitIrq { pin, timeout_ms }),
        ensures
            final(self).history() == old(self).history().push(
                (BusCall::WaitIrq { pin, timeout_ms }, r),
            ),
    ;

    /// Puts out a structured report.
    fn report(&mut self, kind: u32, args: &[ReportArg<'_>]) -> (r: Result<(), BusError>)
        requires
            old(self).takes(BusCall::Report { kind, args: wire::args_view(args@) }),
        ensures
            final(self).history() == old(self).history().push(
                (BusCall::Report { kind, args: wire::args_view(args@) }, r),
            ),
    ;
}

} // verus!

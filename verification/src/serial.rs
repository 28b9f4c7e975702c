use crate::error::Error;
use vstd::prelude::*;

verus! {

/// A byte transport and the error that it reports.
pub trait Serial {
    type SerialError: core::fmt::Debug;
}

/// The reading side of a transport. Both reads give `None` when the timeout,
/// in milliseconds, has passed with nothing delivered.
pub trait SerialReadTimeout: Serial {
    fn read_exact(&mut self, buf: &mut [u8], timeout_ms: u32) -> Result<
        Option<()>,
        Self::SerialError,
    >;

    fn read_line<'a>(&mut self, out: &'a mut [u8], timeout_ms: u32) -> Result<
        Option<&'a str>,
        Self::SerialError,
    >;
}

/// The writing side of a transport.
pub trait SerialWrite: Serial {
    fn write(&mut self, buf: &[u8]) -> Result<(), Self::SerialError>;
}

/// A command that reads a value from the modem.
pub trait AtRead {
    type Output;
}

/// A command that hands a value to the modem.
pub trait AtWrite<'a> {
    type Input;

    type Output;
}

/// A command that makes the modem act.
pub trait AtExecute {
    type Output;
}

/// A transport that carries whole command exchanges. Each call is one
/// exchange with its own timeout, in milliseconds, for the response.
pub trait AtModem: SerialWrite + SerialReadTimeout {
    fn read<C: AtRead>(&mut self, command: C, timeout_ms: u32) -> Result<
        C::Output,
        Error<Self::SerialError>,
    >;

    fn write<'a, C: AtWrite<'a>>(&mut self, command: C, param: C::Input, timeout_ms: u32) -> Result<
        C::Output,
        Error<Self::SerialError>,
    >;

    fn execute<C: AtExecute>(&mut self, command: C, timeout_ms: u32) -> Result<
        C::Output,
        Error<Self::SerialError>,
    >;
}

} // verus!

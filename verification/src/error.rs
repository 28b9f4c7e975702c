use vstd::prelude::*;

verus! {

/// How a command exchange with the modem can fail. `S` is the error of the
/// byte transport underneath.
#[derive(Debug)]
pub enum Error<S: core::fmt::Debug> {
    DecodingFailed,
    SerialError(S),
    Timeout,
    BufferOverflow,
    ConnectFailed,
}

impl<S: core::fmt::Debug> From<S> for Error<S> {
    fn from(value: S) -> (e: Self) {
        Error::SerialError(value)
    }
}

impl<S: core::fmt::Debug> vstd::std_specs::convert::FromSpecImpl<S> for Error<S> {
    open spec fn obeys_from_spec() -> bool {
        true
    }

    open spec fn from_spec(value: S) -> Self {
        Error::SerialError(value)
    }
}

} // verus!

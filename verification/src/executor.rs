use crate::drain::{drain_timeouts, stale_reads, Drain};
use crate::error::Error;
use vstd::prelude::*;

verus! {

/// The two failures after which stale bytes may still arrive.
#[derive(PartialEq, Eq, Structural, Clone, Copy, Debug)]
pub enum Failure {
    Timeout,
    DecodingFailed,
}

impl Failure {
    /// The error that the failure is reported as.
    pub open spec fn error<S: core::fmt::Debug>(self) -> Error<S> {
        match self {
            Failure::Timeout => Error::Timeout,
            Failure::DecodingFailed => Error::DecodingFailed,
        }
    }

    fn into_error<S: core::fmt::Debug>(self) -> (e: Error<S>)
        ensures
            e == self.error::<S>(),
    {
        match self {
            Failure::Timeout => Error::Timeout,
            Failure::DecodingFailed => Error::DecodingFailed,
        }
    }
}

/// Where one command exchange stands.
#[derive(PartialEq, Eq, Structural, Clone, Copy, Debug)]
pub enum Phase {
    Idle,
    Sending,
    AwaitingResponse,
    Draining(Failure),
    Decoded,
    Failed,
}

/// One command exchange: its phase, the caller's timeout in milliseconds,
/// and the drain that follows a failed wait.
#[derive(Clone, Copy, Debug)]
pub struct Executor {
    pub phase: Phase,
    pub timeout_ms: u32,
    pub drain: Drain,
}

/// What follows the response, or a drain read.
pub enum Step<T, S: core::fmt::Debug> {
    /// Read one byte within so many milliseconds and hand in the outcome.
    Drain(u32),
    /// The exchange has ended.
    Finish(Result<T, Error<S>>),
}

/// The failure that a response outcome leaves stale bytes behind with.
pub open spec fn leaves_stale_bytes<T, S: core::fmt::Debug>(outcome: Result<T, Error<S>>) -> Option<
    Failure,
> {
    match outcome {
        Err(Error::Timeout) => Some(Failure::Timeout),
        Err(Error::DecodingFailed) => Some(Failure::DecodingFailed),
        _ => None,
    }
}

impl Executor {
    /// The command has been written, or the transport failed to: on success
    /// the response is awaited for the caller's timeout.
    pub open spec fn after_write<S: core::fmt::Debug>(self, written: Result<(), S>) -> (
        Executor,
        Result<u32, Error<S>>,
    ) {
        match written {
            Ok(_) => (Executor { phase: Phase::AwaitingResponse, ..self }, Ok(self.timeout_ms)),
            Err(e) => (Executor { phase: Phase::Failed, ..self }, Err(Error::SerialError(e))),
        }
    }

    /// The typed read of the response has ended. A timeout or an undecodable
    /// response starts the drain; every other outcome ends the exchange as
    /// it is.
    pub open spec fn after_response<T, S: core::fmt::Debug>(
        self,
        outcome: Result<T, Error<S>>,
    ) -> (Executor, Step<T, S>) {
        match leaves_stale_bytes(outcome) {
            Some(failure) => (
                Executor {
                    phase: Phase::Draining(failure),
                    drain: Drain { timeout_ms: self.timeout_ms, drained: false },
                    ..self
                },
                Step::Drain(self.timeout_ms),
            ),
            None => (
                Executor {
                    phase: if outcome is Ok {
                        Phase::Decoded
                    } else {
                        Phase::Failed
                    },
                    ..self
                },
                Step::Finish(outcome),
            ),
        }
    }

    /// A drain read has ended. The drain goes on while bytes come; when it
    /// ends, the failure that started it is reported, or the transport error
    /// that broke it off.
    pub open spec fn after_drain_read<T, S: core::fmt::Debug>(
        self,
        failure: Failure,
        read: Result<Option<()>, S>,
    ) -> (Executor, Step<T, S>) {
        let (drain, ended) = self.drain.after(read);
        match ended {
            None => (Executor { drain, ..self }, Step::Drain(drain.timeout_ms)),
            Some(Ok(_)) => (
                Executor { phase: Phase::Failed, drain, ..self },
                Step::Finish(Err(failure.error())),
            ),
            Some(Err(e)) => (
                Executor { phase: Phase::Failed, drain, ..self },
                Step::Finish(Err(Error::SerialError(e))),
            ),
        }
    }

    /// An exchange that has not begun.
    pub fn new(timeout_ms: u32) -> (x: Self)
        ensures
            x == (Executor {
                phase: Phase::Idle,
                timeout_ms,
                drain: Drain { timeout_ms, drained: false },
            }),
    {
        Executor { phase: Phase::Idle, timeout_ms, drain: Drain::new(timeout_ms) }
    }

    /// Begins the exchange: the caller now writes the command's bytes.
    pub fn execute(&mut self)
        requires
            old(self).phase == Phase::Idle,
        ensures
            *final(self) == (Executor { phase: Phase::Sending, ..*old(self) }),
    {
        self.phase = Phase::Sending;
    }

    /// Takes the outcome of the write. `Ok` holds the timeout for the typed
    /// read of the response.
    pub fn written<S: core::fmt::Debug>(&mut self, written: Result<(), S>) -> (r: Result<
        u32,
        Error<S>,
    >)
        requires
            old(self).phase == Phase::Sending,
        ensures
            (*final(self), r) == old(self).after_write(written),
    {
        match written {
            Ok(_) => {
                self.phase = Phase::AwaitingResponse;
                Ok(self.timeout_ms)
            },
            Err(e) => {
                self.phase = Phase::Failed;
                Err(Error::SerialError(e))
            },
        }
    }

    /// Takes the outcome of the typed read of the response.
    pub fn response<T, S: core::fmt::Debug>(&mut self, outcome: Result<T, Error<S>>) -> (step: Step<
        T,
        S,
    >)
        requires
            old(self).phase == Phase::AwaitingResponse,
        ensures
            (*final(self), step) == old(self).after_response(outcome),
    {
        match outcome {
            Err(Error::Timeout) => {
                self.phase = Phase::Draining(Failure::Timeout);
                self.drain = Drain::new(self.timeout_ms);
                Step::Drain(self.timeout_ms)
            },
            Err(Error::DecodingFailed) => {
                self.phase = Phase::Draining(Failure::DecodingFailed);
                self.drain = Drain::new(self.timeout_ms);
                Step::Drain(self.timeout_ms)
            },
            Ok(value) => {
                self.phase = Phase::Decoded;
                Step::Finish(Ok(value))
            },
            Err(e) => {
                self.phase = Phase::Failed;
                Step::Finish(Err(e))
            },
        }
    }

    /// Takes the outcome of the drain read that the last step asked for.
    pub fn drained<T, S: core::fmt::Debug>(&mut self, read: Result<Option<()>, S>) -> (step: Step<
        T,
        S,
    >)
        requires
            old(self).phase is Draining,
        ensures
            (*final(self), step) == old(self).after_drain_read::<T, S>(
                old(self).phase->Draining_0,
                read,
            ),
    {
        let failure = match self.phase {
            Phase::Draining(failure) => failure,
            _ => vstd::pervasive::unreached(),
        };
        let mut drain = self.drain;
        let ended = drain.drain_relay(read);
        self.drain = drain;
        match ended {
            None => Step::Drain(self.drain.timeout_ms),
            Some(Ok(_)) => {
                self.phase = Phase::Failed;
                Step::Finish(Err(failure.into_error()))
            },
            Some(Err(e)) => {
                self.phase = Phase::Failed;
                Step::Finish(Err(Error::SerialError(e)))
            },
        }
    }
}

/// An exchange carried through: its result (`None` where it still waits for
/// a drain read), the timeout of each drain read that it made, and the
/// executor at the end.
pub ghost struct Exchange<T, S: core::fmt::Debug> {
    pub result: Option<Result<T, Error<S>>>,
    pub drain_timeouts: Seq<u32>,
    pub last: Executor,
}

/// The drain of an exchange, one read per outcome until one ends it.
pub open spec fn drain_phase<T, S: core::fmt::Debug>(
    x: Executor,
    failure: Failure,
    reads: Seq<Result<Option<()>, S>>,
) -> Exchange<T, S>
    decreases reads.len(),
{
    if reads.len() == 0 {
        Exchange { result: None, drain_timeouts: Seq::empty(), last: x }
    } else {
        let (next, step) = x.after_drain_read::<T, S>(failure, reads[0]);
        match step {
            Step::Finish(r) => Exchange {
                result: Some(r),
                drain_timeouts: seq![x.drain.timeout_ms],
                last: next,
            },
            Step::Drain(_) => {
                let rest = drain_phase::<T, S>(next, failure, reads.skip(1));
                Exchange { drain_timeouts: seq![x.drain.timeout_ms] + rest.drain_timeouts, ..rest }
            },
        }
    }
}

/// One exchange with the caller's timeout, given the outcome of the write,
/// the outcome of the typed read and the outcomes of the drain reads.
pub open spec fn exchange<T, S: core::fmt::Debug>(
    timeout_ms: u32,
    written: Result<(), S>,
    outcome: Result<T, Error<S>>,
    reads: Seq<Result<Option<()>, S>>,
) -> Exchange<T, S> {
    let begun = Executor {
        phase: Phase::Sending,
        timeout_ms,
        drain: Drain { timeout_ms, drained: false },
    };
    let (sent, wait) = begun.after_write(written);
    match wait {
        Err(e) => Exchange { result: Some(Err(e)), drain_timeouts: Seq::empty(), last: sent },
        Ok(_) => {
            let (heard, step) = sent.after_response(outcome);
            match step {
                Step::Finish(r) => Exchange {
                    result: Some(r),
                    drain_timeouts: Seq::empty(),
                    last: heard,
                },
                Step::Drain(_) => drain_phase(heard, heard.phase->Draining_0, reads),
            }
        },
    }
}

proof fn lemma_drain_phase<T, S: core::fmt::Debug>(
    x: Executor,
    failure: Failure,
    bytes: nat,
    seen: nat,
)
    requires
        seen <= bytes + 1,
    ensures
        ({
            let run = drain_phase::<T, S>(x, failure, stale_reads::<S>(bytes).take(seen as int));
            &&& seen <= bytes ==> run.result is None
            &&& seen == bytes + 1 ==> run.result == Some(Err::<T, Error<S>>(failure.error()))
            &&& run.drain_timeouts == drain_timeouts(x.drain.timeout_ms, bytes).take(seen as int)
            &&& run.result is Some ==> run.last.phase == Phase::Failed
        }),
    decreases bytes,
{
    let all = stale_reads::<S>(bytes);
    let reads = all.take(seen as int);
    if seen == 0 {
        assert(drain_timeouts(x.drain.timeout_ms, bytes).take(0) == Seq::<u32>::empty());
    } else if bytes == 0 {
        assert(drain_timeouts(x.drain.timeout_ms, 0).take(1) == seq![x.drain.timeout_ms]);
    } else {
        let (next, step) = x.after_drain_read::<T, S>(failure, reads[0]);
        assert(reads.skip(1) == stale_reads::<S>((bytes - 1) as nat).take(seen - 1));
        lemma_drain_phase::<T, S>(next, failure, (bytes - 1) as nat, (seen - 1) as nat);
        assert(seq![x.drain.timeout_ms] + drain_timeouts(0, (bytes - 1) as nat).take(seen - 1)
            == drain_timeouts(x.drain.timeout_ms, bytes).take(seen as int));
    }
}

/// After a wait for the response that timed out, or that ended on a response
/// that does not decode, the exchange reports that failure only once the
/// drain has read every stale byte and then met silence: with fewer reads it
/// has no result yet. The first drain read waits as long as the caller said,
/// each later one does not wait.
pub proof fn failed_wait_drains_before_it_reports<T, S: core::fmt::Debug>(
    timeout_ms: u32,
    outcome: Result<T, Error<S>>,
    bytes: nat,
    seen: nat,
)
    requires
        leaves_stale_bytes(outcome) is Some,
        seen <= bytes + 1,
    ensures
        ({
            let failure = leaves_stale_bytes(outcome)->Some_0;
            let run = exchange(
                timeout_ms,
                Ok(()),
                outcome,
                stale_reads::<S>(bytes).take(seen as int),
            );
            &&& seen <= bytes ==> run.result is None
            &&& seen == bytes + 1 ==> run.result == Some(Err::<T, Error<S>>(failure.error()))
            &&& run.drain_timeouts == drain_timeouts(timeout_ms, bytes).take(seen as int)
        }),
{
    let begun = Executor {
        phase: Phase::Sending,
        timeout_ms,
        drain: Drain { timeout_ms, drained: false },
    };
    let (sent, wait) = begun.after_write::<S>(Ok(()));
    let (heard, step) = sent.after_response(outcome);
    lemma_drain_phase::<T, S>(heard, leaves_stale_bytes(outcome)->Some_0, bytes, seen);
}

/// A transport error during the drain ends the exchange with that error.
pub proof fn drain_error_ends_exchange<T, S: core::fmt::Debug>(
    timeout_ms: u32,
    outcome: Result<T, Error<S>>,
    bytes: nat,
    error: S,
)
    requires
        leaves_stale_bytes(outcome) is Some,
    ensures
        exchange(
            timeout_ms,
            Ok(()),
            outcome,
            Seq::new(bytes, |i: int| Ok::<Option<()>, S>(Some(()))).push(Err(error)),
        ).result == Some(Err::<T, Error<S>>(Error::SerialError(error))),
{
    let begun = Executor {
        phase: Phase::Sending,
        timeout_ms,
        drain: Drain { timeout_ms, drained: false },
    };
    let (sent, wait) = begun.after_write::<S>(Ok(()));
    let (heard, step) = sent.after_response(outcome);
    lemma_drain_breaks_off::<T, S>(heard, leaves_stale_bytes(outcome)->Some_0, bytes, error);
}

proof fn lemma_drain_breaks_off<T, S: core::fmt::Debug>(
    x: Executor,
    failure: Failure,
    bytes: nat,
    error: S,
)
    ensures
        drain_phase::<T, S>(
            x,
            failure,
            Seq::new(bytes, |i: int| Ok::<Option<()>, S>(Some(()))).push(Err(error)),
        ).result == Some(Err::<T, Error<S>>(Error::SerialError(error))),
    decreases bytes,
{
    let reads = Seq::new(bytes, |i: int| Ok::<Option<()>, S>(Some(()))).push(Err(error));
    if bytes > 0 {
        let (next, step) = x.after_drain_read::<T, S>(failure, reads[0]);
        assert(reads.skip(1) == Seq::new(
            (bytes - 1) as nat,
            |i: int| Ok::<Option<()>, S>(Some(())),
        ).push(Err(error)));
        lemma_drain_breaks_off::<T, S>(next, failure, (bytes - 1) as nat, error);
    }
}

/// The drain is entered on no other path: an exchange whose write failed, or
/// whose typed read ended in anything but a timeout or an undecodable
/// response, makes no drain read and reports that outcome as it is.
pub proof fn other_outcomes_do_not_drain<T, S: core::fmt::Debug>(
    timeout_ms: u32,
    written: Result<(), S>,
    outcome: Result<T, Error<S>>,
    reads: Seq<Result<Option<()>, S>>,
)
    requires
        written is Err || leaves_stale_bytes(outcome) is None,
    ensures
        exchange(timeout_ms, written, outcome, reads).drain_timeouts == Seq::<u32>::empty(),
        exchange(timeout_ms, written, outcome, reads).result == Some(
            match written {
                Err(e) => Err(Error::SerialError(e)),
                Ok(_) => outcome,
            },
        ),
{
}

} // verus!

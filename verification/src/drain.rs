use vstd::prelude::*;

verus! {

/// The state of a drain: the timeout of the next one-byte read, and whether a
/// byte has been discarded so far.
#[derive(Clone, Copy, Debug)]
pub struct Drain {
    pub timeout_ms: u32,
    pub drained: bool,
}

impl Drain {
    /// What the outcome of a one-byte read does to a drain: a transport error
    /// ends it with that error, a read that gave nothing ends it with whether
    /// anything was discarded, and a byte is discarded and followed by reads
    /// that do not block.
    pub open spec fn after<E>(self, read: Result<Option<()>, E>) -> (
        Drain,
        Option<Result<bool, E>>,
    ) {
        match read {
            Err(e) => (self, Some(Err(e))),
            Ok(None) => (self, Some(Ok(self.drained))),
            Ok(Some(_)) => (Drain { timeout_ms: 0, drained: true }, None),
        }
    }

    /// A drain whose first read waits as long as the caller would.
    pub fn new(timeout_ms: u32) -> (d: Self)
        ensures
            d == (Drain { timeout_ms, drained: false }),
    {
        Drain { timeout_ms, drained: false }
    }

    /// Takes the outcome of the one-byte read that was made with
    /// `self.timeout_ms`. `Some` ends the drain; `None` asks for the next read.
    pub fn drain_relay<E>(&mut self, read: Result<Option<()>, E>) -> (r: Option<Result<bool, E>>)
        ensures
            (*final(self), r) == old(self).after(read),
    {
        match read {
            Err(e) => Some(Err(e)),
            Ok(None) => Some(Ok(self.drained)),
            Ok(Some(_)) => {
                self.drained = true;
                self.timeout_ms = 0;
                None
            },
        }
    }
}

/// A drain carried through the outcomes of its reads: its result (`None`
/// where the outcomes ran out first), the timeout of each read that it made,
/// and the state it was left in.
pub ghost struct DrainRun<E> {
    pub result: Option<Result<bool, E>>,
    pub timeouts: Seq<u32>,
    pub last: Drain,
}

/// The drain makes one read per outcome until an outcome ends it.
pub open spec fn drain_run<E>(d: Drain, reads: Seq<Result<Option<()>, E>>) -> DrainRun<E>
    decreases reads.len(),
{
    if reads.len() == 0 {
        DrainRun { result: None, timeouts: Seq::empty(), last: d }
    } else {
        let (next, result) = d.after(reads[0]);
        if result is Some {
            DrainRun { result, timeouts: seq![d.timeout_ms], last: next }
        } else {
            let rest = drain_run(next, reads.skip(1));
            DrainRun { timeouts: seq![d.timeout_ms] + rest.timeouts, ..rest }
        }
    }
}

/// So many reads that each gave a byte, and then one that gave nothing.
pub open spec fn stale_reads<E>(bytes: nat) -> Seq<Result<Option<()>, E>> {
    Seq::new(bytes, |i: int| Ok(Some(()))).push(Ok(None))
}

/// The timeouts of a drain that meets so many stale bytes: the first read
/// waits as long as the caller said, each later one does not wait.
pub open spec fn drain_timeouts(timeout_ms: u32, bytes: nat) -> Seq<u32> {
    Seq::new(bytes + 1, |i: int| if i == 0 { timeout_ms } else { 0u32 })
}

/// A drain discards every stale byte before it ends: met by so many bytes
/// and then silence, it reads each of them and ends at the first read that
/// gives nothing, reporting whether there was any byte. A drain that has
/// discarded a byte before reads without waiting from the start.
pub proof fn drain_discards_all_stale_bytes<E>(d: Drain, bytes: nat)
    ensures
        drain_run::<E>(d, stale_reads(bytes)).result == Some(
            Ok::<bool, E>(d.drained || bytes > 0),
        ),
        drain_run::<E>(d, stale_reads(bytes)).timeouts == drain_timeouts(d.timeout_ms, bytes),
    decreases bytes,
{
    let reads = stale_reads::<E>(bytes);
    if bytes == 0 {
        assert(drain_run::<E>(d, reads).timeouts == drain_timeouts(d.timeout_ms, 0));
    } else {
        let next = Drain { timeout_ms: 0, drained: true };
        assert(reads.skip(1) == stale_reads::<E>((bytes - 1) as nat));
        drain_discards_all_stale_bytes::<E>(next, (bytes - 1) as nat);
        assert(seq![d.timeout_ms] + drain_timeouts(0, (bytes - 1) as nat) == drain_timeouts(
            d.timeout_ms,
            bytes,
        ));
    }
}

} // verus!

use crate::tcp::{
    ends_send, handed, overwrite, send_prompt, send_request, send_verdict, ArrivalView,
    StreamState, TcpError, TcpMessage,
};
use crate::text::decimal;
use vstd::prelude::*;

verus! {

/// The payload bytes that a sequence of arrivals carries, in order. Events
/// carry none.
pub open spec fn payload(arrivals: Seq<ArrivalView>) -> Seq<u8>
    decreases arrivals.len(),
{
    if arrivals.len() == 0 {
        Seq::empty()
    } else {
        match arrivals[0] {
            ArrivalView::Chunk(c) => c + payload(arrivals.skip(1)),
            ArrivalView::Event(_) => payload(arrivals.skip(1)),
        }
    }
}

/// A read carried through: the stream at its end, the bytes it handed out
/// (`None` where the arrivals ran out while it waited), and how many
/// arrivals it took.
pub ghost struct ReadCall {
    pub next: StreamState,
    pub data: Option<Seq<u8>>,
    pub used: nat,
}

/// A waiting read takes arrivals, one per step, until a step ends it.
pub open spec fn read_feed(s: StreamState, room: nat, arrivals: Seq<ArrivalView>) -> ReadCall
    decreases arrivals.len(),
{
    if arrivals.len() == 0 {
        ReadCall { next: s, data: None, used: 0 }
    } else {
        let o = s.read_step(room, Some(arrivals[0]));
        if o.data is Some {
            ReadCall { next: o.next, data: o.data, used: 1 }
        } else {
            let rest = read_feed(o.next, room, arrivals.skip(1));
            ReadCall { used: rest.used + 1, ..rest }
        }
    }
}

/// One read into `room` bytes, from its entry to its end.
pub open spec fn read_call(s: StreamState, room: nat, arrivals: Seq<ArrivalView>) -> ReadCall {
    let o = s.read_step(room, None);
    if o.data is Some {
        ReadCall { next: o.next, data: o.data, used: 0 }
    } else {
        read_feed(o.next, room, arrivals)
    }
}

/// Several reads in a row: the stream at the end, all bytes handed out, and
/// how many arrivals were taken.
pub ghost struct ReadRun {
    pub next: StreamState,
    pub data: Seq<u8>,
    pub used: nat,
}

/// One read for each entry of `rooms`, each into a buffer of that size, each
/// taking up the arrivals where the one before left off. The run stops where
/// a read still waits when the arrivals are used up.
pub open spec fn read_run(s: StreamState, rooms: Seq<nat>, arrivals: Seq<ArrivalView>) -> ReadRun
    decreases rooms.len(),
{
    if rooms.len() == 0 {
        ReadRun { next: s, data: Seq::empty(), used: 0 }
    } else {
        let call = read_call(s, rooms[0], arrivals);
        match call.data {
            None => ReadRun { next: call.next, data: Seq::empty(), used: call.used },
            Some(d) => {
                let rest = read_run(call.next, rooms.skip(1), arrivals.skip(call.used as int));
                ReadRun { next: rest.next, data: d + rest.data, used: call.used + rest.used }
            },
        }
    }
}

/// The payload of a front part of the arrivals, cut in two.
pub proof fn lemma_payload_split(arrivals: Seq<ArrivalView>, i: nat, j: nat)
    requires
        i + j <= arrivals.len(),
    ensures
        payload(arrivals.take((i + j) as int)) == payload(arrivals.take(i as int)) + payload(
            arrivals.skip(i as int).take(j as int),
        ),
    decreases i,
{
    if i == 0 {
        assert(arrivals.take(0).len() == 0);
        assert(arrivals.skip(0) == arrivals);
        assert(Seq::<u8>::empty() + payload(arrivals.take(j as int)) == payload(
            arrivals.take(j as int),
        ));
    } else {
        let rest = arrivals.skip(1);
        lemma_payload_split(rest, (i - 1) as nat, j);
        assert(arrivals.take((i + j) as int).skip(1) == rest.take((i - 1 + j) as int));
        assert(arrivals.take(i as int).skip(1) == rest.take((i - 1) as int));
        assert(rest.skip((i - 1) as int) == arrivals.skip(i as int));
        assert(arrivals.take((i + j) as int)[0] == arrivals[0]);
        assert(arrivals.take(i as int)[0] == arrivals[0]);
        match arrivals[0] {
            ArrivalView::Chunk(c) => {
                assert(c + (payload(rest.take((i - 1) as int)) + payload(
                    arrivals.skip(i as int).take(j as int),
                )) == (c + payload(rest.take((i - 1) as int))) + payload(
                    arrivals.skip(i as int).take(j as int),
                ));
            },
            ArrivalView::Event(_) => {},
        }
    }
}

/// What a waiting read hands out, and what it leaves buffered, is together
/// the payload of the arrivals that it took.
pub proof fn lemma_read_feed(s: StreamState, room: nat, arrivals: Seq<ArrivalView>)
    requires
        s.awaiting(),
    ensures
        read_feed(s, room, arrivals).used <= arrivals.len(),
        payload(arrivals.take(read_feed(s, room, arrivals).used as int)) == handed(
            read_feed(s, room, arrivals).data,
        ) + read_feed(s, room, arrivals).next.buffer,
        read_feed(s, room, arrivals).data is None ==> read_feed(s, room, arrivals).next == s
            && read_feed(s, room, arrivals).used == arrivals.len(),
        read_feed(s, room, arrivals).next.ordinal == s.ordinal,
    decreases arrivals.len(),
{
    if arrivals.len() == 0 {
        assert(arrivals.take(0).len() == 0);
        assert(Seq::<u8>::empty() + s.buffer == Seq::<u8>::empty());
    } else {
        let o = s.read_step(room, Some(arrivals[0]));
        let first = arrivals.take(1);
        assert(first.skip(1).len() == 0);
        assert(first[0] == arrivals[0]);
        assert(payload(first.skip(1)) == Seq::<u8>::empty());
        if o.data is Some {
            match arrivals[0] {
                ArrivalView::Chunk(c) => {
                    assert(payload(first) == c + Seq::<u8>::empty());
                    assert(c + Seq::<u8>::empty() == c);
                    assert(c == handed(o.data) + o.next.buffer);
                },
                ArrivalView::Event(_) => {
                    assert(payload(first) == Seq::<u8>::empty());
                    assert(handed(o.data) + o.next.buffer == Seq::<u8>::empty());
                },
            }
        } else {
            let rest = read_feed(o.next, room, arrivals.skip(1));
            lemma_read_feed(o.next, room, arrivals.skip(1));
            lemma_payload_split(arrivals, 1, rest.used);
            assert(payload(first) == Seq::<u8>::empty());
            assert(Seq::<u8>::empty() + payload(arrivals.skip(1).take(rest.used as int))
                == payload(arrivals.skip(1).take(rest.used as int)));
        }
    }
}

/// The same of one whole read, with what was buffered at its entry.
pub proof fn lemma_read_call(s: StreamState, room: nat, arrivals: Seq<ArrivalView>)
    ensures
        read_call(s, room, arrivals).used <= arrivals.len(),
        s.buffer + payload(arrivals.take(read_call(s, room, arrivals).used as int)) == handed(
            read_call(s, room, arrivals).data,
        ) + read_call(s, room, arrivals).next.buffer,
        s.closed ==> read_call(s, room, arrivals) == (ReadCall {
            next: s,
            data: Some(Seq::empty()),
            used: 0,
        }),
{
    let o = s.read_step(room, None);
    if o.data is Some {
        assert(arrivals.take(0).len() == 0);
        assert(s.buffer + Seq::<u8>::empty() == s.buffer);
        if s.closed {
            assert(Seq::<u8>::empty() + s.buffer == s.buffer);
        } else {
            assert(s.buffer == handed(o.data) + o.next.buffer);
        }
    } else {
        lemma_read_feed(s, room, arrivals);
        assert(s.buffer + payload(arrivals.take(read_feed(s, room, arrivals).used as int))
            == payload(arrivals.take(read_feed(s, room, arrivals).used as int)));
    }
}

/// Reassembly: whatever the sizes of the caller's buffers, the bytes that a
/// run of reads hands out, followed by what is still buffered at its end, are
/// the bytes buffered at its start followed by the payload of the arrivals
/// that the run took, in order and with none lost or repeated.
pub proof fn reads_reassemble_payload(
    s: StreamState,
    rooms: Seq<nat>,
    arrivals: Seq<ArrivalView>,
)
    ensures
        read_run(s, rooms, arrivals).used <= arrivals.len(),
        read_run(s, rooms, arrivals).data + read_run(s, rooms, arrivals).next.buffer == s.buffer
            + payload(arrivals.take(read_run(s, rooms, arrivals).used as int)),
    decreases rooms.len(),
{
    if rooms.len() == 0 {
        assert(arrivals.take(0).len() == 0);
        assert(s.buffer + Seq::<u8>::empty() == Seq::<u8>::empty() + s.buffer);
    } else {
        let call = read_call(s, rooms[0], arrivals);
        lemma_read_call(s, rooms[0], arrivals);
        match call.data {
            None => {},
            Some(d) => {
                let later = arrivals.skip(call.used as int);
                let rest = read_run(call.next, rooms.skip(1), later);
                reads_reassemble_payload(call.next, rooms.skip(1), later);
                lemma_payload_split(arrivals, call.used, rest.used);
                let early = payload(arrivals.take(call.used as int));
                let late = payload(later.take(rest.used as int));
                assert((d + rest.data) + rest.next.buffer == d + (rest.data + rest.next.buffer));
                assert(d + (call.next.buffer + late) == (d + call.next.buffer) + late);
                assert(s.buffer + (early + late) == (s.buffer + early) + late);
            },
        }
    }
}

/// Where every arrival has been taken and nothing is left buffered, the reads
/// have handed out exactly the payload that arrived.
pub proof fn reads_return_all_chunks(s: StreamState, rooms: Seq<nat>, arrivals: Seq<ArrivalView>)
    requires
        s.buffer.len() == 0,
        read_run(s, rooms, arrivals).used == arrivals.len(),
        read_run(s, rooms, arrivals).next.buffer.len() == 0,
    ensures
        read_run(s, rooms, arrivals).data == payload(arrivals),
{
    reads_reassemble_payload(s, rooms, arrivals);
    let run = read_run(s, rooms, arrivals);
    assert(arrivals.take(arrivals.len() as int) == arrivals);
    assert(run.data + run.next.buffer == run.data);
    assert(s.buffer + payload(arrivals) == payload(arrivals));
}

/// Closing is final for reads: on a closed stream every read of a run ends at
/// once with no bytes, takes no arrival and leaves the stream as it is.
pub proof fn closed_stream_reads_nothing(
    s: StreamState,
    rooms: Seq<nat>,
    arrivals: Seq<ArrivalView>,
)
    requires
        s.closed,
    ensures
        read_run(s, rooms, arrivals) == (ReadRun { next: s, data: Seq::empty(), used: 0 }),
    decreases rooms.len(),
{
    if rooms.len() > 0 {
        lemma_read_call(s, rooms[0], arrivals);
        assert(arrivals.skip(0) == arrivals);
        closed_stream_reads_nothing(s, rooms.skip(1), arrivals);
        assert(Seq::<u8>::empty() + Seq::<u8>::empty() == Seq::<u8>::empty());
    }
}

/// A read that must fill its buffer, carried through: the stream at its end,
/// the bytes written into the caller's buffer, the result (`None` where the
/// arrivals ran out while it waited), and how many arrivals it took.
pub ghost struct ExactRun {
    pub next: StreamState,
    pub data: Seq<u8>,
    pub result: Option<Result<(), TcpError>>,
    pub used: nat,
}

/// A waiting exact read with `filled` bytes in place takes arrivals, one per
/// step, until a step ends it.
pub open spec fn exact_feed(
    s: StreamState,
    len: nat,
    filled: nat,
    arrivals: Seq<ArrivalView>,
) -> ExactRun
    decreases arrivals.len(),
{
    if arrivals.len() == 0 {
        ExactRun { next: s, data: Seq::empty(), result: None, used: 0 }
    } else {
        let o = s.read_exact_step(len, filled, Some(arrivals[0]));
        if o.result is Some {
            ExactRun { next: o.next, data: o.data, result: o.result, used: 1 }
        } else {
            let rest = exact_feed(o.next, len, o.filled, arrivals.skip(1));
            ExactRun { data: o.data + rest.data, used: rest.used + 1, ..rest }
        }
    }
}

/// One exact read into `len` bytes, from its entry to its end.
pub open spec fn read_exact_run(s: StreamState, len: nat, arrivals: Seq<ArrivalView>) -> ExactRun {
    let o = s.read_exact_step(len, 0, None);
    if o.result is Some {
        ExactRun { next: o.next, data: o.data, result: o.result, used: 0 }
    } else {
        let rest = exact_feed(o.next, len, o.filled, arrivals);
        ExactRun { data: o.data + rest.data, ..rest }
    }
}

/// The bytes that a step can draw on: those of the chunk that has come, else
/// those buffered.
pub open spec fn at_hand(s: StreamState, arrival: Option<ArrivalView>) -> Seq<u8> {
    match arrival {
        Some(ArrivalView::Chunk(c)) => c,
        _ => s.buffer,
    }
}

/// One step of an exact read: it loses no byte, never overfills, succeeds
/// exactly when the buffer is full, waits only on an open and drained stream,
/// and fails with `Closed` whenever it leaves a closed stream short of full.
pub proof fn lemma_exact_step(s: StreamState, len: nat, filled: nat, arrival: Option<ArrivalView>)
    requires
        filled <= len,
        arrival is Some ==> s.awaiting() && filled < len,
    ensures
        ({
            let o = s.read_exact_step(len, filled, arrival);
            &&& o.filled == filled + o.data.len()
            &&& o.filled <= len
            &&& o.data + o.next.buffer == at_hand(s, arrival)
            &&& o.result is None ==> o.next.awaiting() && o.filled < len
            &&& o.result == Some(Ok::<(), TcpError>(())) <==> o.filled == len
            &&& o.result matches Some(Err(e)) ==> e == TcpError::Closed
            &&& o.next.closed && o.filled < len ==> o.result == Some(
                Err::<(), TcpError>(TcpError::Closed),
            )
            &&& o.next.closed && !s.closed ==> o.result == Some(
                Err::<(), TcpError>(TcpError::Closed),
            )
            &&& s.closed ==> o.next == s
        }),
    decreases len - filled,
{
    let o = s.read_exact_step(len, filled, arrival);
    if filled >= len {
        assert(o.data + o.next.buffer == s.buffer);
    } else {
        let step = s.read_step((len - filled) as nat, arrival);
        match step.data {
            None => {
                assert(o.data + o.next.buffer == at_hand(s, arrival));
            },
            Some(d) => {
                if d.len() == 0 {
                    assert(o.data + o.next.buffer == o.next.buffer);
                    assert(d + step.next.buffer == at_hand(s, arrival));
                    assert(d + step.next.buffer == step.next.buffer);
                } else {
                    let rest = step.next.read_exact_step(len, filled + d.len(), None);
                    lemma_exact_step(step.next, len, filled + d.len(), None);
                    assert(d + step.next.buffer == at_hand(s, arrival));
                    assert((d + rest.data) + rest.next.buffer == d + (rest.data
                        + rest.next.buffer));
                }
            },
        }
    }
}

proof fn lemma_exact_feed(s: StreamState, len: nat, filled: nat, arrivals: Seq<ArrivalView>)
    requires
        filled < len,
        s.awaiting(),
    ensures
        ({
            let r = exact_feed(s, len, filled, arrivals);
            &&& r.used <= arrivals.len()
            &&& filled + r.data.len() <= len
            &&& r.data + r.next.buffer == payload(arrivals.take(r.used as int))
            &&& r.result == Some(Ok::<(), TcpError>(())) <==> filled + r.data.len() == len
            &&& r.result matches Some(Err(e)) ==> e == TcpError::Closed
            &&& r.next.closed ==> r.result == Some(Err::<(), TcpError>(TcpError::Closed))
        }),
    decreases arrivals.len(),
{
    if arrivals.len() == 0 {
        assert(arrivals.take(0).len() == 0);
        assert(Seq::<u8>::empty() + s.buffer == Seq::<u8>::empty());
    } else {
        let o = s.read_exact_step(len, filled, Some(arrivals[0]));
        lemma_exact_step(s, len, filled, Some(arrivals[0]));
        let first = arrivals.take(1);
        assert(first.skip(1).len() == 0);
        assert(first[0] == arrivals[0]);
        assert(payload(first.skip(1)) == Seq::<u8>::empty());
        match arrivals[0] {
            ArrivalView::Chunk(c) => {
                assert(c + Seq::<u8>::empty() == c);
            },
            ArrivalView::Event(_) => {},
        }
        assert(payload(first) == at_hand(s, Some(arrivals[0])));
        if o.result is None {
            let rest = exact_feed(o.next, len, o.filled, arrivals.skip(1));
            lemma_exact_feed(o.next, len, o.filled, arrivals.skip(1));
            lemma_payload_split(arrivals, 1, rest.used);
            assert(o.next.buffer.len() == 0);
            assert(o.data + o.next.buffer == o.data);
            assert((o.data + rest.data) + rest.next.buffer == o.data + (rest.data
                + rest.next.buffer));
        }
    }
}

/// An exact read loses no byte and keeps what it has written: the bytes that
/// it wrote into the caller's buffer, followed by what is still buffered at
/// its end, are the bytes buffered at its start followed by the payload of
/// the arrivals that it took. It succeeds exactly when it has written `len`
/// bytes, and when it leaves a closed stream with fewer written, it has
/// failed with `Closed`: the bytes written before the stream closed stay in
/// the caller's buffer.
pub proof fn exact_read_keeps_partial_data(s: StreamState, len: nat, arrivals: Seq<ArrivalView>)
    ensures
        ({
            let r = read_exact_run(s, len, arrivals);
            &&& r.used <= arrivals.len()
            &&& r.data.len() <= len
            &&& r.data + r.next.buffer == s.buffer + payload(arrivals.take(r.used as int))
            &&& r.result == Some(Ok::<(), TcpError>(())) <==> r.data.len() == len
            &&& r.result matches Some(Err(e)) ==> e == TcpError::Closed
            &&& r.next.closed && r.data.len() < len ==> r.result == Some(
                Err::<(), TcpError>(TcpError::Closed),
            )
        }),
{
    let o = s.read_exact_step(len, 0, None);
    lemma_exact_step(s, len, 0, None);
    if o.result is Some {
        assert(arrivals.take(0).len() == 0);
        assert(s.buffer + Seq::<u8>::empty() == s.buffer);
    } else {
        let rest = exact_feed(o.next, len, o.filled, arrivals);
        lemma_exact_feed(o.next, len, o.filled, arrivals);
        assert(o.data + o.next.buffer == o.data);
        assert((o.data + rest.data) + rest.next.buffer == o.data + (rest.data
            + rest.next.buffer));
    }
}

/// Two writes, the second right behind the first, are one write of both.
pub proof fn overwrite_in_turn(buf: Seq<u8>, start: int, first: Seq<u8>, second: Seq<u8>)
    requires
        0 <= start,
        start + first.len() + second.len() <= buf.len(),
    ensures
        overwrite(overwrite(buf, start, first), start + first.len(), second) == overwrite(
            buf,
            start,
            first + second,
        ),
{
}

/// What a waiting send makes of the response lines that come: the first line
/// that is the prompt or the error decides, and `None` says that no line did.
pub open spec fn await_prompt(lines: Seq<Seq<u8>>) -> Option<Result<(), TcpError>>
    decreases lines.len(),
{
    if lines.len() == 0 {
        None
    } else if send_prompt(lines[0]) is Some {
        send_prompt(lines[0])
    } else {
        await_prompt(lines.skip(1))
    }
}

/// One send carried through: the bytes that it puts on the transport, in
/// order, its result (`None` while it still waits), and the stream after it.
pub ghost struct SendRun {
    pub wire: Seq<u8>,
    pub result: Option<Result<(), TcpError>>,
    pub next: StreamState,
}

/// A send of `payload` on `s`, given the response lines that come while it
/// waits for the prompt and the event that comes once the payload is out.
pub open spec fn send_run(
    s: StreamState,
    payload: Seq<u8>,
    lines: Seq<Seq<u8>>,
    event: Option<TcpMessage>,
) -> SendRun {
    let request = send_request(s.ordinal as nat, payload.len());
    if s.closed {
        SendRun { wire: Seq::empty(), result: Some(Err(TcpError::Closed)), next: s }
    } else {
        match await_prompt(lines) {
            None => SendRun { wire: request, result: None, next: s },
            Some(Err(e)) => SendRun { wire: request, result: Some(Err(e)), next: s },
            Some(Ok(())) => match event {
                None => SendRun { wire: request + payload, result: None, next: s },
                Some(e) => SendRun {
                    wire: request + payload,
                    result: Some(send_verdict(e)),
                    next: StreamState { closed: e == TcpMessage::Closed, ..s },
                },
            },
        }
    }
}

/// A send puts its payload on the transport whole, right behind its own
/// command, or not at all: the payload goes out only after the prompt, a
/// send that succeeds has written all of it, and a send on a closed stream
/// writes nothing and fails with `Closed`.
pub proof fn send_writes_payload_whole_or_not(
    s: StreamState,
    payload: Seq<u8>,
    lines: Seq<Seq<u8>>,
    event: Option<TcpMessage>,
)
    requires
        event matches Some(e) ==> ends_send(e),
    ensures
        ({
            let r = send_run(s, payload, lines, event);
            let request = send_request(s.ordinal as nat, payload.len());
            &&& r.wire == Seq::<u8>::empty() || r.wire == request || r.wire == request + payload
            &&& !s.closed ==> r.wire == if await_prompt(lines) matches Some(Ok(_)) {
                request + payload
            } else {
                request
            }
            &&& r.result == Some(Ok::<(), TcpError>(())) ==> r.wire == request + payload && event
                == Some(TcpMessage::SendSuccess)
            &&& s.closed ==> r.wire == Seq::<u8>::empty() && r.result == Some(
                Err::<(), TcpError>(TcpError::Closed),
            ) && r.next == s
            &&& r.next.closed <==> s.closed || r.result == Some(
                Err::<(), TcpError>(TcpError::Closed),
            )
        }),
{
    let request = send_request(s.ordinal as nat, payload.len());
    lemma_request_not_empty(s.ordinal as nat, payload.len());
    lemma_await_prompt(lines);
    if request + payload == Seq::<u8>::empty() {
        assert((request + payload).len() == request.len() + payload.len());
    }
    if request + payload == request {
        assert((request + payload).len() == request.len() + payload.len());
        assert(payload == Seq::<u8>::empty());
    }
}

proof fn lemma_await_prompt(lines: Seq<Seq<u8>>)
    ensures
        await_prompt(lines) matches Some(Err(e)) ==> e == TcpError::SendFail,
    decreases lines.len(),
{
    if lines.len() > 0 {
        lemma_await_prompt(lines.skip(1));
    }
}

proof fn lemma_request_not_empty(ordinal: nat, len: nat)
    ensures
        send_request(ordinal, len).len() > 0,
{
    assert(decimal(ordinal).len() > 0);
}

/// The sends of one stream, each carried to its end before the next begins.
pub ghost struct SendScript {
    pub payload: Seq<u8>,
    pub lines: Seq<Seq<u8>>,
    pub event: TcpMessage,
}

/// One send of a row, carried to its end on the stream `s`.
#[verifier::opaque]
pub open spec fn send_of(s: StreamState, script: SendScript) -> SendRun {
    send_run(s, script.payload, script.lines, Some(script.event))
}

/// All that a row of sends puts on the transport.
pub open spec fn sends_wire(s: StreamState, sends: Seq<SendScript>) -> Seq<u8>
    decreases sends.len(),
{
    if sends.len() == 0 {
        Seq::empty()
    } else {
        let r = send_of(s, sends[0]);
        r.wire + sends_wire(r.next, sends.skip(1))
    }
}

/// The stream after a row of sends.
pub open spec fn sends_end(s: StreamState, sends: Seq<SendScript>) -> StreamState
    decreases sends.len(),
{
    if sends.len() == 0 {
        s
    } else {
        let r = send_of(s, sends[0]);
        sends_end(r.next, sends.skip(1))
    }
}

/// The sends of one stream do not interleave: what a row of sends puts on
/// the transport is, for each send of the row, all that the sends before it
/// wrote, then what this send writes by itself on the stream as they left
/// it, then all that the sends after it write.
pub proof fn sends_do_not_interleave(s: StreamState, sends: Seq<SendScript>, i: int)
    requires
        0 <= i < sends.len(),
    ensures
        ({
            let before = sends_end(s, sends.take(i));
            let own = send_of(before, sends[i]);
            sends_wire(s, sends) == sends_wire(s, sends.take(i)) + own.wire + sends_wire(
                own.next,
                sends.skip(i + 1),
            )
        }),
    decreases i,
{
    let first = send_of(s, sends[0]);
    if i == 0 {
        assert(sends.take(0).len() == 0);
        assert(Seq::<u8>::empty() + first.wire == first.wire);
    } else {
        let rest = sends.skip(1);
        sends_do_not_interleave(first.next, rest, i - 1);
        assert(sends.take(i).skip(1) == rest.take(i - 1));
        assert(sends.take(i)[0] == sends[0]);
        assert(rest.skip(i) == sends.skip(i + 1));
        assert(rest[i - 1] == sends[i]);
        let before = sends_end(first.next, rest.take(i - 1));
        let own = send_of(before, sends[i]);
        let early = sends_wire(first.next, rest.take(i - 1));
        let late = sends_wire(own.next, sends.skip(i + 1));
        assert(first.wire + ((early + own.wire) + late) == ((first.wire + early) + own.wire)
            + late);
    }
}

/// Closing is final for sends: once the stream is closed, no send of a row
/// puts anything on the transport, and the stream stays as it is.
pub proof fn closed_stream_sends_nothing(s: StreamState, sends: Seq<SendScript>)
    requires
        s.closed,
    ensures
        sends_wire(s, sends) == Seq::<u8>::empty(),
        sends_end(s, sends) == s,
    decreases sends.len(),
{
    if sends.len() > 0 {
        reveal(send_of);
        closed_stream_sends_nothing(s, sends.skip(1));
        assert(Seq::<u8>::empty() + Seq::<u8>::empty() == Seq::<u8>::empty());
    }
}

/// Closing is final for exact reads too: on a closed stream a read that must
/// fill a buffer of at least one byte fails with `Closed` at once, writes
/// nothing, takes no arrival and leaves the stream as it is.
pub proof fn closed_stream_fails_exact_reads(s: StreamState, len: nat, arrivals: Seq<ArrivalView>)
    requires
        s.closed,
        len > 0,
    ensures
        read_exact_run(s, len, arrivals) == (ExactRun {
            next: s,
            data: Seq::empty(),
            result: Some(Err(TcpError::Closed)),
            used: 0,
        }),
{
}

} // verus!

use crate::buffer::{
    chunk_as_slice, chunk_bytes, chunk_clear, chunk_is_empty, chunk_new, chunk_rotate_left,
    chunk_truncate,
};
use crate::text::{
    bytes_equal, decimal, lemma_ascii_len, lemma_decimal_short, request_bytes, request_new,
    request_push_decimal, request_push_str,
};
use vstd::prelude::*;
use vstd::string::*;

verus! {

/// A notification about one socket, in the order the modem reports them.
#[derive(PartialEq, Eq, Structural, Clone, Copy, Debug)]
pub enum TcpMessage {
    SendFail,
    SendSuccess,
    Closed,
    Connected,
    ConnectionFailed,
}

/// How an operation on a stream can fail.
#[derive(PartialEq, Eq, Structural, Clone, Copy, Debug)]
pub enum TcpError {
    Timeout,
    SendFail,
    Closed,
}

/// One virtual socket: its ordinal on the modem, whether it has ended, and the
/// bytes of the last payload chunk that no read has handed out yet.
pub struct TcpStream {
    pub ordinal: usize,
    pub closed: bool,
    pub buffer: heapless::Vec<u8, 365>,
}

/// What a `TcpStream` stands for.
pub ghost struct StreamState {
    pub ordinal: usize,
    pub closed: bool,
    pub buffer: Seq<u8>,
}

impl View for TcpStream {
    type V = StreamState;

    open spec fn view(&self) -> StreamState {
        StreamState { ordinal: self.ordinal, closed: self.closed, buffer: chunk_bytes(self.buffer) }
    }
}

/// What ended a wait on the socket's two queues.
pub enum Arrival {
    Chunk(heapless::Vec<u8, 365>),
    Event(TcpMessage),
}

/// What an `Arrival` stands for.
pub ghost enum ArrivalView {
    Chunk(Seq<u8>),
    Event(TcpMessage),
}

impl View for Arrival {
    type V = ArrivalView;

    open spec fn view(&self) -> ArrivalView {
        match *self {
            Arrival::Chunk(c) => ArrivalView::Chunk(chunk_bytes(c)),
            Arrival::Event(e) => ArrivalView::Event(e),
        }
    }
}

/// What a step was handed: nothing at the entry of a read, else the arrival.
pub open spec fn arrival_view(arrival: Option<Arrival>) -> Option<ArrivalView> {
    match arrival {
        None => None,
        Some(a) => Some(a@),
    }
}

/// The stream after a read and the bytes it handed out; no bytes at all
/// (`None`) means that the read has to wait for an arrival.
pub ghost struct ReadOutcome {
    pub next: StreamState,
    pub data: Option<Seq<u8>>,
}

impl StreamState {
    /// An open stream with nothing buffered is the only one that waits.
    pub open spec fn awaiting(self) -> bool {
        !self.closed && self.buffer.len() == 0
    }

    /// Hands out the front of the buffer: as many bytes as there is room for,
    /// the rest stays buffered.
    pub open spec fn deliver(self, room: nat) -> ReadOutcome {
        let n = if self.buffer.len() >= room {
            room as int
        } else {
            self.buffer.len() as int
        };
        ReadOutcome {
            next: StreamState { buffer: self.buffer.skip(n), ..self },
            data: Some(self.buffer.take(n)),
        }
    }

    /// One step of a read into `room` bytes. Without an arrival it is the
    /// entry of the read; with one, the read was waiting and goes on.
    pub open spec fn read_step(self, room: nat, arrival: Option<ArrivalView>) -> ReadOutcome {
        match arrival {
            None => if self.closed {
                ReadOutcome { next: self, data: Some(Seq::empty()) }
            } else if self.buffer.len() > 0 {
                self.deliver(room)
            } else {
                ReadOutcome { next: self, data: None }
            },
            Some(ArrivalView::Chunk(c)) => StreamState { buffer: c, ..self }.deliver(room),
            Some(ArrivalView::Event(e)) => if e == TcpMessage::Closed {
                ReadOutcome {
                    next: StreamState { closed: true, ..self },
                    data: Some(Seq::empty()),
                }
            } else {
                ReadOutcome { next: self, data: None }
            },
        }
    }
}

/// Where a read that must fill its whole buffer stands after a step: the
/// stream, the bytes the step handed out, how much of the buffer is filled,
/// and the result once there is one.
pub ghost struct ExactOutcome {
    pub next: StreamState,
    pub data: Seq<u8>,
    pub filled: nat,
    pub result: Option<Result<(), TcpError>>,
}

impl StreamState {
    /// One step of a read that must fill `len` bytes, of which `filled` are
    /// in place: reads go on until the buffer is full, a read has to wait, or
    /// a read hands out nothing, which ends the whole read with `Closed`.
    pub open spec fn read_exact_step(
        self,
        len: nat,
        filled: nat,
        arrival: Option<ArrivalView>,
    ) -> ExactOutcome
        decreases len - filled,
    {
        if filled >= len {
            ExactOutcome { next: self, data: Seq::empty(), filled, result: Some(Ok(())) }
        } else {
            let o = self.read_step((len - filled) as nat, arrival);
            match o.data {
                None => ExactOutcome { next: o.next, data: Seq::empty(), filled, result: None },
                Some(d) => if d.len() == 0 {
                    ExactOutcome {
                        next: o.next,
                        data: Seq::empty(),
                        filled,
                        result: Some(Err(TcpError::Closed)),
                    }
                } else {
                    let rest = o.next.read_exact_step(len, filled + d.len(), None);
                    ExactOutcome { data: d + rest.data, ..rest }
                },
            }
        }
    }
}

/// A read never hands out more bytes than there is room for.
pub proof fn lemma_read_step_fits(s: StreamState, room: nat, arrival: Option<ArrivalView>)
    ensures
        s.read_step(room, arrival).data matches Some(d) ==> d.len() <= room,
{
}

/// A step's return value says what the outcome holds: nothing while the read
/// waits, else the number of bytes handed out.
pub open spec fn read_reports(r: Option<usize>, data: Option<Seq<u8>>) -> bool {
    match r {
        None => data is None,
        Some(n) => data matches Some(d) && d.len() == n,
    }
}

/// The bytes of an outcome, none while the read waits.
pub open spec fn handed(data: Option<Seq<u8>>) -> Seq<u8> {
    match data {
        None => Seq::empty(),
        Some(d) => d,
    }
}

/// How a read that must fill its whole buffer goes on after a step.
pub enum ReadExact {
    /// Wait for the next arrival; so many bytes are in place.
    Wait(usize),
    /// The read has ended.
    Done(Result<(), TcpError>),
}

/// A step's return value says what the outcome holds.
pub open spec fn exact_reports(step: ReadExact, outcome: ExactOutcome) -> bool {
    match step {
        ReadExact::Wait(filled) => outcome.result is None && outcome.filled == filled,
        ReadExact::Done(r) => outcome.result == Some(r),
    }
}

/// The command that announces `len` payload bytes for socket `ordinal`.
pub open spec fn send_request(ordinal: nat, len: nat) -> Seq<u8> {
    "AT+CIPSEND=".spec_bytes() + decimal(ordinal) + ",".spec_bytes() + decimal(len)
        + "\r".spec_bytes()
}

/// The command that closes socket `ordinal`.
pub open spec fn close_request(ordinal: nat) -> Seq<u8> {
    "AT+CIPCLOSE=".spec_bytes() + decimal(ordinal) + "\r".spec_bytes()
}

/// What a response line means to a send that waits for the prompt: `"> "`
/// lets the payload go out, `"ERROR"` fails the send, and any other line is
/// passed over.
pub open spec fn send_prompt(line: Seq<u8>) -> Option<Result<(), TcpError>> {
    if line == "> ".spec_bytes() {
        Some(Ok(()))
    } else if line == "ERROR".spec_bytes() {
        Some(Err(TcpError::SendFail))
    } else {
        None
    }
}

/// The events that may end a send once the payload is out.
pub open spec fn ends_send(event: TcpMessage) -> bool {
    event == TcpMessage::SendFail || event == TcpMessage::SendSuccess || event
        == TcpMessage::Closed
}

/// How each of those events ends the send.
pub open spec fn send_verdict(event: TcpMessage) -> Result<(), TcpError> {
    match event {
        TcpMessage::SendSuccess => Ok(()),
        TcpMessage::Closed => Err(TcpError::Closed),
        _ => Err(TcpError::SendFail),
    }
}

/// The send command as a string; 64 bytes hold it whatever the numbers.
pub fn send_request_text(ordinal: usize, len: usize) -> (text: heapless::String<64>)
    ensures
        request_bytes(text) == send_request(ordinal as nat, len as nat),
{
    proof {
        reveal_strlit("AT+CIPSEND=");
        reveal_strlit(",");
        reveal_strlit("\r");
        lemma_ascii_len("AT+CIPSEND=");
        lemma_ascii_len(",");
        lemma_ascii_len("\r");
        lemma_decimal_short(ordinal as nat);
        lemma_decimal_short(len as nat);
    }
    let mut text = request_new();
    let head = request_push_str(&mut text, "AT+CIPSEND=");
    let socket = request_push_decimal(&mut text, ordinal);
    let comma = request_push_str(&mut text, ",");
    let count = request_push_decimal(&mut text, len);
    let tail = request_push_str(&mut text, "\r");
    assert(head is Ok && socket is Ok && comma is Ok && count is Ok && tail is Ok);
    text
}

/// The close command as a string.
pub fn close_request_text(ordinal: usize) -> (text: heapless::String<64>)
    ensures
        request_bytes(text) == close_request(ordinal as nat),
{
    proof {
        reveal_strlit("AT+CIPCLOSE=");
        reveal_strlit("\r");
        lemma_ascii_len("AT+CIPCLOSE=");
        lemma_ascii_len("\r");
        lemma_decimal_short(ordinal as nat);
    }
    let mut text = request_new();
    let head = request_push_str(&mut text, "AT+CIPCLOSE=");
    let socket = request_push_decimal(&mut text, ordinal);
    let tail = request_push_str(&mut text, "\r");
    assert(head is Ok && socket is Ok && tail is Ok);
    text
}

/// `buf` with `data` written over it from index `start` on.
pub open spec fn overwrite(buf: Seq<u8>, start: int, data: Seq<u8>) -> Seq<u8> {
    buf.take(start) + data + buf.skip(start + data.len())
}

fn copy_into(read: &mut [u8], start: usize, src: &[u8], count: usize)
    requires
        count <= src@.len(),
        start + count <= old(read)@.len(),
    ensures
        final(read)@ == overwrite(old(read)@, start as int, src@.take(count as int)),
{
    let total = read.len();
    let mut i: usize = 0;
    while i < count
        invariant
            total == read@.len(),
            i <= count <= src@.len(),
            start + count <= read@.len(),
            read@.len() == old(read)@.len(),
            read@ == overwrite(old(read)@, start as int, src@.take(i as int)),
        decreases count - i,
    {
        read[start + i] = src[i];
        assert(read@ == overwrite(old(read)@, start as int, src@.take(i + 1)));
        i = i + 1;
    }
}

impl TcpStream {
    /// An open stream on socket `ordinal` with nothing buffered.
    pub fn new(ordinal: usize) -> (s: Self)
        ensures
            s@ == (StreamState { ordinal, closed: false, buffer: Seq::empty() }),
    {
        TcpStream { ordinal, closed: false, buffer: chunk_new() }
    }

    /// One step of a read into `read` from index `start` on. `Some(n)` ends
    /// the read with `n` bytes written; `None` asks the caller to wait for
    /// the next arrival and to hand it to the next step.
    pub fn inner_read(
        &mut self,
        read: &mut [u8],
        start: usize,
        arrival: Option<Arrival>,
    ) -> (r: Option<usize>)
        requires
            start <= old(read)@.len(),
            arrival is Some ==> old(self)@.awaiting(),
        ensures
            final(self)@ == old(self)@.read_step(
                (old(read)@.len() - start) as nat,
                arrival_view(arrival),
            ).next,
            read_reports(
                r,
                old(self)@.read_step((old(read)@.len() - start) as nat, arrival_view(arrival)).data,
            ),
            final(read)@ == overwrite(
                old(read)@,
                start as int,
                handed(
                    old(self)@.read_step(
                        (old(read)@.len() - start) as nat,
                        arrival_view(arrival),
                    ).data,
                ),
            ),
    {
        proof {
            assert(overwrite(read@, start as int, Seq::empty()) == read@);
        }
        match arrival {
            None => {
                if self.closed {
                    return Some(0);
                }
                if chunk_is_empty(&self.buffer) {
                    return None;
                }
            },
            Some(Arrival::Chunk(chunk)) => {
                self.buffer = chunk;
            },
            Some(Arrival::Event(event)) => {
                if event == TcpMessage::Closed {
                    self.closed = true;
                    return Some(0);
                }
                return None;
            },
        }
        Some(self.deliver(read, start))
    }

    /// One step of a read into the whole of `read`.
    pub fn read(&mut self, read: &mut [u8], arrival: Option<Arrival>) -> (r: Option<usize>)
        requires
            arrival is Some ==> old(self)@.awaiting(),
        ensures
            final(self)@ == old(self)@.read_step(old(read)@.len(), arrival_view(arrival)).next,
            read_reports(r, old(self)@.read_step(old(read)@.len(), arrival_view(arrival)).data),
            final(read)@ == overwrite(
                old(read)@,
                0,
                handed(old(self)@.read_step(old(read)@.len(), arrival_view(arrival)).data),
            ),
    {
        self.inner_read(read, 0, arrival)
    }

    /// One step of a read that must fill all of `buf`, of which the first
    /// `filled` bytes are in place.
    pub fn inner_read_exact(
        &mut self,
        buf: &mut [u8],
        filled: usize,
        arrival: Option<Arrival>,
    ) -> (step: ReadExact)
        requires
            filled <= old(buf)@.len(),
            arrival is Some ==> filled < old(buf)@.len() && old(self)@.awaiting(),
        ensures
            final(self)@ == old(self)@.read_exact_step(
                old(buf)@.len(),
                filled as nat,
                arrival_view(arrival),
            ).next,
            exact_reports(
                step,
                old(self)@.read_exact_step(old(buf)@.len(), filled as nat, arrival_view(arrival)),
            ),
            final(buf)@ == overwrite(
                old(buf)@,
                filled as int,
                old(self)@.read_exact_step(
                    old(buf)@.len(),
                    filled as nat,
                    arrival_view(arrival),
                ).data,
            ),
    {
        let ghost whole = old(self)@.read_exact_step(
            old(buf)@.len(),
            filled as nat,
            arrival_view(arrival),
        );
        let ghost mut done: Seq<u8> = Seq::empty();
        let len = buf.len();
        let mut at: usize = filled;
        let mut pending = arrival;
        proof {
            assert(overwrite(buf@, filled as int, done) == buf@);
        }
        while at < len
            invariant
                len == buf@.len() == old(buf)@.len(),
                whole == old(self)@.read_exact_step(
                    old(buf)@.len(),
                    filled as nat,
                    arrival_view(arrival),
                ),
                filled <= at <= len,
                at == filled + done.len(),
                pending is Some ==> at < len && self@.awaiting(),
                buf@ == overwrite(old(buf)@, filled as int, done),
                whole == (ExactOutcome {
                    data: done + self@.read_exact_step(
                        len as nat,
                        at as nat,
                        arrival_view(pending),
                    ).data,
                    ..self@.read_exact_step(len as nat, at as nat, arrival_view(pending))
                }),
            decreases len - at,
        {
            let ghost before = self@;
            let ghost view = arrival_view(pending);
            let ghost outcome = before.read_step((len - at) as nat, view);
            let now = pending;
            pending = None;
            match self.inner_read(buf, at, now) {
                None => {
                    assert(done + Seq::<u8>::empty() == done);
                    return ReadExact::Wait(at);
                },
                Some(n) => {
                    if n == 0 {
                        assert(done + Seq::<u8>::empty() == done);
                        return ReadExact::Done(Err(TcpError::Closed));
                    }
                    proof {
                        let d = outcome.data->Some_0;
                        lemma_read_step_fits(before, (len - at) as nat, view);
                        let rest = self@.read_exact_step(len as nat, (at + n) as nat, None);
                        assert(done + (d + rest.data) == (done + d) + rest.data);
                        assert(buf@ == overwrite(old(buf)@, filled as int, done + d));
                        done = done + d;
                    }
                    at = at + n;
                },
            }
        }
        proof {
            assert(done + Seq::<u8>::empty() == done);
        }
        ReadExact::Done(Ok(()))
    }

    /// The entry of a send of `len` payload bytes. A closed stream fails at
    /// once; an open one hands out the command to write before the wait for
    /// the prompt.
    pub fn send_tcp(&self, len: usize) -> (r: Result<heapless::String<64>, TcpError>)
        ensures
            self.closed ==> r == Err::<heapless::String<64>, TcpError>(TcpError::Closed),
            !self.closed ==> r is Ok && request_bytes(r->Ok_0) == send_request(
                self.ordinal as nat,
                len as nat,
            ),
    {
        if self.closed {
            return Err(TcpError::Closed);
        }
        Ok(send_request_text(self.ordinal, len))
    }

    /// A response line has come while the send waits for the prompt.
    /// `Some(Ok(()))` lets the payload go out, `Some(Err(..))` ends the send,
    /// `None` keeps it waiting.
    pub fn send_response(line: &[u8]) -> (r: Option<Result<(), TcpError>>)
        ensures
            r == send_prompt(line@),
    {
        if bytes_equal(line, "> ".as_bytes()) {
            Some(Ok(()))
        } else if bytes_equal(line, "ERROR".as_bytes()) {
            Some(Err(TcpError::SendFail))
        } else {
            None
        }
    }

    /// An event has come while the send waits for its outcome.
    pub fn send_event(&mut self, event: TcpMessage) -> (r: Result<(), TcpError>)
        requires
            ends_send(event),
        ensures
            r == send_verdict(event),
            final(self)@ == (StreamState {
                closed: old(self)@.closed || event == TcpMessage::Closed,
                ..old(self)@
            }),
    {
        match event {
            TcpMessage::SendSuccess => Ok(()),
            TcpMessage::Closed => {
                self.closed = true;
                Err(TcpError::Closed)
            },
            _ => Err(TcpError::SendFail),
        }
    }

    /// The entry of a close: nothing to do on a closed stream, else the
    /// command to write before the wait for the `Closed` event.
    pub fn close(&self) -> (request: Option<heapless::String<64>>)
        ensures
            request is None <==> self.closed,
            request matches Some(t) ==> request_bytes(t) == close_request(self.ordinal as nat),
    {
        if self.closed {
            return None;
        }
        Some(close_request_text(self.ordinal))
    }

    /// An event has come while the close waits. Only `Closed` ends the wait,
    /// and it marks the stream closed; any other event is passed over.
    pub fn close_event(&mut self, event: TcpMessage) -> (done: bool)
        ensures
            done == (event == TcpMessage::Closed),
            final(self)@ == (StreamState { closed: old(self)@.closed || done, ..old(self)@ }),
    {
        if event == TcpMessage::Closed {
            self.closed = true;
            true
        } else {
            false
        }
    }

    /// Writes `words` as one send: the entry of `send_tcp` for their number.
    pub fn write_all(&self, words: &[u8]) -> (r: Result<heapless::String<64>, TcpError>)
        ensures
            self.closed ==> r == Err::<heapless::String<64>, TcpError>(TcpError::Closed),
            !self.closed ==> r is Ok && request_bytes(r->Ok_0) == send_request(
                self.ordinal as nat,
                words@.len(),
            ),
    {
        self.send_tcp(words.len())
    }

    /// Every send is on the transport when it ends, so there is nothing to
    /// flush.
    pub fn flush(&self) -> (r: Result<(), TcpError>)
        ensures
            r == Ok::<(), TcpError>(()),
    {
        Ok(())
    }

    /// One step of a read that must fill all of `buf`: `inner_read_exact`
    /// under the name that callers know.
    pub fn read_exact(
        &mut self,
        buf: &mut [u8],
        filled: usize,
        arrival: Option<Arrival>,
    ) -> (step: ReadExact)
        requires
            filled <= old(buf)@.len(),
            arrival is Some ==> filled < old(buf)@.len() && old(self)@.awaiting(),
        ensures
            final(self)@ == old(self)@.read_exact_step(
                old(buf)@.len(),
                filled as nat,
                arrival_view(arrival),
            ).next,
            exact_reports(
                step,
                old(self)@.read_exact_step(old(buf)@.len(), filled as nat, arrival_view(arrival)),
            ),
            final(buf)@ == overwrite(
                old(buf)@,
                filled as int,
                old(self)@.read_exact_step(
                    old(buf)@.len(),
                    filled as nat,
                    arrival_view(arrival),
                ).data,
            ),
    {
        self.inner_read_exact(buf, filled, arrival)
    }

    fn deliver(&mut self, read: &mut [u8], start: usize) -> (n: usize)
        requires
            start <= old(read)@.len(),
        ensures
            final(self)@ == old(self)@.deliver((old(read)@.len() - start) as nat).next,
            old(self)@.deliver((old(read)@.len() - start) as nat).data == Some(
                old(self)@.buffer.take(n as int),
            ),
            final(read)@ == overwrite(
                old(read)@,
                start as int,
                old(self)@.buffer.take(n as int),
            ),
            n <= old(self)@.buffer.len(),
            start + n <= old(read)@.len(),
    {
        let room = read.len() - start;
        let held = chunk_as_slice(&self.buffer).len();
        if held >= room {
            copy_into(read, start, chunk_as_slice(&self.buffer), room);
            chunk_rotate_left(&mut self.buffer, room);
            chunk_truncate(&mut self.buffer, held - room);
            assert(chunk_bytes(self.buffer) == old(self)@.buffer.skip(room as int));
            room
        } else {
            copy_into(read, start, chunk_as_slice(&self.buffer), held);
            chunk_clear(&mut self.buffer);
            assert(chunk_bytes(self.buffer) == old(self)@.buffer.skip(held as int));
            held
        }
    }
}

} // verus!

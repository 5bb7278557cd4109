//! One request/response round trip, as a state machine.
//!
//! The machine never performs I/O. It is told what the transport did (an
//! [`Event`]) and answers with what the transport has to do next (an
//! [`Action`]): connect, write the request until all of it is out, write the
//! marker likewise, then read chunk after chunk until the marker shows up, the
//! peer closes the connection or the response grows past the configured
//! limit.

use vstd::prelude::*;
use vstd::slice::{slice_subrange, slice_to_vec};
use crate::framing::{
    find_terminator, first_terminator, framed, has_terminator, lemma_first_terminator,
    lemma_first_terminator_stays, lemma_new_terminator_is_late, lemma_payload_of_framed,
    payload_of, terminator, terminator_at, TERMINATOR_LEN,
};

verus! {

/// Chunk size to read with where the caller has no reason to pick another.
pub const RECOMMENDED_CHUNK_SIZE: usize = 4096;

/// The transport operation during which a failure was reported.
#[derive(Clone, Copy, Debug, PartialEq, Eq, Structural)]
pub enum Operation {
    Connect,
    Write,
    Read,
}

/// Why an exchange ended without a response.
#[derive(Clone, Copy, Debug, PartialEq, Eq, Structural)]
pub enum ExchangeError {
    /// The connection could not be established, or a write or a read failed.
    Transport(Operation),
    /// The transport gave up waiting.
    TransportTimeout,
    /// The caller abandoned the exchange.
    Cancelled,
    /// The payload is longer than the configured maximum.
    ResponseTooLarge,
    /// An event arrived that does not answer the action last asked for.
    UnexpectedEvent,
}

/// How far an exchange has come.
#[derive(Clone, Copy, Debug, PartialEq, Eq, Structural)]
pub enum Phase {
    /// Waiting for the connection to be established.
    Connecting,
    /// Waiting for what is left of the request payload to be written.
    SendingPayload,
    /// Waiting for what is left of the marker to be written.
    SendingTerminator,
    /// Waiting for the next chunk of the response.
    Receiving,
    /// The exchange is over.
    Finished,
}

/// What the transport reports back.
#[derive(Debug, PartialEq, Eq)]
pub enum Event {
    /// The connection is established.
    Connected,
    /// A write took this many of the bytes of the last `Write`, from their
    /// start.
    Written(usize),
    /// A read returned these bytes; none at all means that the peer closed
    /// the connection.
    Received(Vec<u8>),
    /// The pending operation failed.
    Failed,
    /// The pending operation ran out of time.
    TimedOut,
    /// The caller asked to stop.
    Cancelled,
}

/// What the transport has to do next.
#[derive(Debug, PartialEq, Eq)]
pub enum Action {
    /// Open the connection.
    Connect,
    /// Write these bytes, or as many of them as go out at once.
    Write(Vec<u8>),
    /// Read once, at most this many bytes.
    Read(usize),
    /// Close the connection and hand this result to the caller.
    Finish(Result<Vec<u8>, ExchangeError>),
}

/// An [`Event`] over mathematical sequences.
pub enum EventView {
    Connected,
    Written(nat),
    Received(Seq<u8>),
    Failed,
    TimedOut,
    Cancelled,
}

/// An [`Action`] over mathematical sequences.
pub enum ActionView {
    Connect,
    Write(Seq<u8>),
    Read(nat),
    Finish(Result<Seq<u8>, ExchangeError>),
}

impl View for Event {
    type V = EventView;

    open spec fn view(&self) -> EventView {
        match self {
            Event::Connected => EventView::Connected,
            Event::Written(n) => EventView::Written(*n as nat),
            Event::Received(chunk) => EventView::Received(chunk@),
            Event::Failed => EventView::Failed,
            Event::TimedOut => EventView::TimedOut,
            Event::Cancelled => EventView::Cancelled,
        }
    }
}

impl View for Action {
    type V = ActionView;

    open spec fn view(&self) -> ActionView {
        match self {
            Action::Connect => ActionView::Connect,
            Action::Write(bytes) => ActionView::Write(bytes@),
            Action::Read(n) => ActionView::Read(*n as nat),
            Action::Finish(Ok(payload)) => ActionView::Finish(Ok(payload@)),
            Action::Finish(Err(e)) => ActionView::Finish(Err(*e)),
        }
    }
}

/// The operation that is pending in `phase`.
pub open spec fn pending_operation(phase: Phase) -> Operation {
    match phase {
        Phase::Connecting => Operation::Connect,
        Phase::SendingPayload => Operation::Write,
        Phase::SendingTerminator => Operation::Write,
        Phase::Receiving => Operation::Read,
        Phase::Finished => Operation::Read,
    }
}

/// A payload, unless it is longer than `max_len`.
pub open spec fn within_limit(payload: Seq<u8>, max_len: nat) -> Result<Seq<u8>, ExchangeError> {
    if payload.len() <= max_len {
        Ok(payload)
    } else {
        Err(ExchangeError::ResponseTooLarge)
    }
}

/// What a peer that sends `stream` and then closes the connection has
/// answered: the payload of the stream, unless it is longer than `max_len`.
pub open spec fn response_of(stream: Seq<u8>, max_len: nat) -> Result<Seq<u8>, ExchangeError> {
    within_limit(payload_of(stream), max_len)
}

/// What can be concluded from the bytes received so far while the connection
/// is still open. With the marker in them the payload is known. Without it,
/// the payload is known to be too long once at least `max_len` bytes precede
/// the last place where a marker could still begin.
pub open spec fn verdict(received: Seq<u8>, max_len: nat) -> Option<Result<Seq<u8>, ExchangeError>> {
    match first_terminator(received) {
        Some(i) => Some(within_limit(received.take(i), max_len)),
        None => if received.len() >= max_len + TERMINATOR_LEN {
            Some(Err(ExchangeError::ResponseTooLarge))
        } else {
            None
        },
    }
}

/// The state of an exchange, as mathematics sees it.
pub struct ExchangeView {
    pub phase: Phase,
    /// The bytes that are still to be written: the request until the
    /// connection is there, then what no write has taken yet of the payload
    /// or of the marker.
    pub pending: Seq<u8>,
    /// The bytes of the response received so far.
    pub received: Seq<u8>,
    pub chunk_size: nat,
    pub max_response_len: nat,
}

impl ExchangeView {
    /// The state in which an exchange begins.
    pub open spec fn opening(request: Seq<u8>, chunk_size: nat, max_response_len: nat) -> ExchangeView {
        ExchangeView {
            phase: Phase::Connecting,
            pending: request,
            received: Seq::empty(),
            chunk_size,
            max_response_len,
        }
    }

    /// The state in which an exchange turns from writing to reading.
    pub open spec fn receiving(chunk_size: nat, max_response_len: nat) -> ExchangeView {
        ExchangeView {
            phase: Phase::Receiving,
            pending: Seq::empty(),
            received: Seq::empty(),
            chunk_size,
            max_response_len,
        }
    }

    /// The payload is out: the marker is next.
    pub open spec fn send_terminator(self) -> (ExchangeView, ActionView) {
        (
            ExchangeView { phase: Phase::SendingTerminator, pending: terminator(), ..self },
            ActionView::Write(terminator()),
        )
    }

    /// A write took `n` of the pending bytes. With none taken the write has
    /// failed; with some left they are written next; with all of them out the
    /// exchange moves on, from the payload to the marker and from the marker
    /// to the first read.
    pub open spec fn written(self, n: nat) -> (ExchangeView, ActionView) {
        if n == 0 {
            self.finish_with(Err(ExchangeError::Transport(Operation::Write)))
        } else if n > self.pending.len() {
            self.finish_with(Err(ExchangeError::UnexpectedEvent))
        } else if n < self.pending.len() {
            (
                ExchangeView { pending: self.pending.skip(n as int), ..self },
                ActionView::Write(self.pending.skip(n as int)),
            )
        } else if self.phase == Phase::SendingPayload {
            self.send_terminator()
        } else {
            (
                ExchangeView { phase: Phase::Receiving, pending: Seq::empty(), ..self },
                ActionView::Read(self.chunk_size),
            )
        }
    }

    /// The state in which every exchange ends: nothing is held any longer.
    pub open spec fn finished(self) -> ExchangeView {
        ExchangeView {
            phase: Phase::Finished,
            pending: Seq::empty(),
            received: Seq::empty(),
            ..self
        }
    }

    /// The exchange ends with `result`.
    pub open spec fn finish_with(self, result: Result<Seq<u8>, ExchangeError>) -> (ExchangeView, ActionView) {
        (self.finished(), ActionView::Finish(result))
    }

    /// What holds of the buffer between any two steps: it is empty unless
    /// the exchange is receiving, and while receiving it holds no marker and
    /// fewer bytes than the longest payload and a marker take together.
    pub open spec fn within_bounds(self) -> bool {
        &&& self.phase != Phase::Receiving ==> self.received.len() == 0
        &&& self.received.len() < self.max_response_len + TERMINATOR_LEN
        &&& !has_terminator(self.received)
    }

    /// The transition function: the state after `event`, and what to do next.
    pub open spec fn next(self, event: EventView) -> (ExchangeView, ActionView) {
        if self.phase == Phase::Finished {
            (self, ActionView::Finish(Err(ExchangeError::UnexpectedEvent)))
        } else {
            match event {
                EventView::Failed => self.finish_with(
                    Err(ExchangeError::Transport(pending_operation(self.phase))),
                ),
                EventView::TimedOut => self.finish_with(Err(ExchangeError::TransportTimeout)),
                EventView::Cancelled => self.finish_with(Err(ExchangeError::Cancelled)),
                EventView::Connected => if self.phase != Phase::Connecting {
                    self.finish_with(Err(ExchangeError::UnexpectedEvent))
                } else if self.pending.len() == 0 {
                    self.send_terminator()
                } else {
                    (
                        ExchangeView { phase: Phase::SendingPayload, ..self },
                        ActionView::Write(self.pending),
                    )
                },
                EventView::Written(n) => if self.phase == Phase::SendingPayload || self.phase
                    == Phase::SendingTerminator {
                    self.written(n)
                } else {
                    self.finish_with(Err(ExchangeError::UnexpectedEvent))
                },
                EventView::Received(chunk) => if self.phase != Phase::Receiving {
                    self.finish_with(Err(ExchangeError::UnexpectedEvent))
                } else if chunk.len() == 0 {
                    self.finish_with(within_limit(self.received, self.max_response_len))
                } else {
                    match verdict(self.received + chunk, self.max_response_len) {
                        Some(result) => self.finish_with(result),
                        None => (
                            ExchangeView { received: self.received + chunk, ..self },
                            ActionView::Read(self.chunk_size),
                        ),
                    }
                },
            }
        }
    }
}

/// An exchange in progress.
pub struct Exchange {
    phase: Phase,
    pending: Vec<u8>,
    received: Vec<u8>,
    chunk_size: usize,
    max_response_len: usize,
}

impl View for Exchange {
    type V = ExchangeView;

    closed spec fn view(&self) -> ExchangeView {
        ExchangeView {
            phase: self.phase,
            pending: self.pending@,
            received: self.received@,
            chunk_size: self.chunk_size as nat,
            max_response_len: self.max_response_len as nat,
        }
    }
}

impl Exchange {
    /// Begins an exchange that sends `request`, reads at most `chunk_size`
    /// bytes at a time and accepts a payload of at most `max_response_len`
    /// bytes. There is no exchange with a chunk size of zero: a read of no
    /// bytes could not be told from a closed connection.
    pub fn start(request: Vec<u8>, chunk_size: usize, max_response_len: usize) -> (started: Option<
        (Exchange, Action),
    >)
        ensures
            started is None <==> chunk_size == 0,
            started matches Some((machine, action)) ==> {
                &&& machine@ == ExchangeView::opening(
                    request@,
                    chunk_size as nat,
                    max_response_len as nat,
                )
                &&& action@ == ActionView::Connect
            },
    {
        if chunk_size == 0 {
            None
        } else {
            let machine = Exchange {
                phase: Phase::Connecting,
                pending: request,
                received: Vec::new(),
                chunk_size,
                max_response_len,
            };
            Some((machine, Action::Connect))
        }
    }

    /// How far the exchange has come.
    pub fn phase(&self) -> (phase: Phase)
        ensures
            phase == self@.phase,
    {
        self.phase
    }

    /// Number of response bytes held at the moment.
    pub fn buffered(&self) -> (n: usize)
        ensures
            n == self@.received.len(),
    {
        self.received.len()
    }

    /// Lets go of everything and ends the exchange with `result`.
    fn finish(&mut self, result: Result<Vec<u8>, ExchangeError>) -> (action: Action)
        ensures
            final(self)@ == old(self)@.finished(),
            action == Action::Finish(result),
    {
        self.phase = Phase::Finished;
        self.pending = Vec::new();
        self.received = Vec::new();
        Action::Finish(result)
    }

    /// Asks for the pending bytes to be written.
    fn write_pending(&self) -> (action: Action)
        ensures
            action@ == ActionView::Write(self@.pending),
    {
        Action::Write(slice_to_vec(self.pending.as_slice()))
    }

    /// Turns from the payload to the marker.
    fn begin_terminator(&mut self) -> (action: Action)
        ensures
            (final(self)@, action@) == old(self)@.send_terminator(),
    {
        let mut marker: Vec<u8> = Vec::new();
        marker.push(69u8);
        marker.push(79u8);
        marker.push(70u8);
        assert(marker@ =~= terminator());
        self.phase = Phase::SendingTerminator;
        self.pending = marker;
        self.write_pending()
    }

    /// Takes in how much of the pending bytes a write has taken, while
    /// sending.
    fn wrote(&mut self, n: usize) -> (action: Action)
        requires
            old(self)@.phase == Phase::SendingPayload || old(self)@.phase
                == Phase::SendingTerminator,
        ensures
            (final(self)@, action@) == old(self)@.written(n as nat),
    {
        let len = self.pending.len();
        if n == 0 {
            self.finish(Err(ExchangeError::Transport(Operation::Write)))
        } else if n > len {
            self.finish(Err(ExchangeError::UnexpectedEvent))
        } else if n < len {
            let rest = slice_to_vec(slice_subrange(self.pending.as_slice(), n, len));
            self.pending = rest;
            self.write_pending()
        } else {
            match self.phase {
                Phase::SendingPayload => self.begin_terminator(),
                _ => {
                    self.phase = Phase::Receiving;
                    self.pending = Vec::new();
                    Action::Read(self.chunk_size)
                },
            }
        }
    }

    /// Takes in the chunk that a read returned, while receiving.
    fn receive(&mut self, chunk: Vec<u8>) -> (action: Action)
        requires
            old(self)@.phase == Phase::Receiving,
        ensures
            (final(self)@, action@) == old(self)@.next(EventView::Received(chunk@)),
    {
        let mut chunk = chunk;
        let mut buffer: Vec<u8> = Vec::new();
        core::mem::swap(&mut self.received, &mut buffer);
        if chunk.len() == 0 {
            if buffer.len() <= self.max_response_len {
                return self.finish(Ok(buffer));
            } else {
                return self.finish(Err(ExchangeError::ResponseTooLarge));
            }
        }
        buffer.append(&mut chunk);
        let ghost stream = buffer@;
        match find_terminator(buffer.as_slice()) {
            Some(i) => {
                proof {
                    lemma_first_terminator(stream, i as int);
                }
                if i <= self.max_response_len {
                    buffer.truncate(i);
                    self.finish(Ok(buffer))
                } else {
                    self.finish(Err(ExchangeError::ResponseTooLarge))
                }
            },
            None => {
                if buffer.len() >= TERMINATOR_LEN && buffer.len() - TERMINATOR_LEN
                    >= self.max_response_len {
                    self.finish(Err(ExchangeError::ResponseTooLarge))
                } else {
                    self.received = buffer;
                    Action::Read(self.chunk_size)
                }
            },
        }
    }

    /// Takes in what the transport did and says what it has to do next.
    pub fn step(&mut self, event: Event) -> (action: Action)
        ensures
            (final(self)@, action@) == old(self)@.next(event@),
    {
        let phase = self.phase;
        if let Phase::Finished = phase {
            return Action::Finish(Err(ExchangeError::UnexpectedEvent));
        }
        match event {
            Event::Failed => {
                let operation = match phase {
                    Phase::Connecting => Operation::Connect,
                    Phase::SendingPayload => Operation::Write,
                    Phase::SendingTerminator => Operation::Write,
                    _ => Operation::Read,
                };
                self.finish(Err(ExchangeError::Transport(operation)))
            },
            Event::TimedOut => self.finish(Err(ExchangeError::TransportTimeout)),
            Event::Cancelled => self.finish(Err(ExchangeError::Cancelled)),
            Event::Connected => match phase {
                Phase::Connecting => {
                    if self.pending.len() == 0 {
                        self.begin_terminator()
                    } else {
                        self.phase = Phase::SendingPayload;
                        self.write_pending()
                    }
                },
                _ => self.finish(Err(ExchangeError::UnexpectedEvent)),
            },
            Event::Written(n) => match phase {
                Phase::SendingPayload => self.wrote(n),
                Phase::SendingTerminator => self.wrote(n),
                _ => self.finish(Err(ExchangeError::UnexpectedEvent)),
            },
            Event::Received(chunk) => match phase {
                Phase::Receiving => self.receive(chunk),
                _ => self.finish(Err(ExchangeError::UnexpectedEvent)),
            },
        }
    }
}

/// What comes of a run of writes: the bytes that the writes took, one after
/// the other, the state of the exchange afterwards, and what it asks for
/// then.
pub struct Sent {
    pub taken: Seq<u8>,
    pub state: ExchangeView,
    pub action: ActionView,
}

/// The run of writes that begins in `state` with `action` asked for, where
/// the writes take `counts` bytes one after the other. The run is over when
/// the machine asks for something other than a write.
pub open spec fn after_writes(state: ExchangeView, action: ActionView, counts: Seq<nat>) -> Sent
    decreases counts.len(),
{
    match action {
        ActionView::Write(bytes) if counts.len() > 0 => {
            let (next_state, next_action) = state.next(EventView::Written(counts.first()));
            let rest = after_writes(next_state, next_action, counts.drop_first());
            Sent { taken: bytes.take(counts.first() as int) + rest.taken, ..rest }
        },
        _ => Sent { taken: Seq::empty(), state, action },
    }
}

/// What comes of sending `request`, from the moment the connection is there,
/// where the writes take `counts` bytes one after the other.
pub open spec fn after_sending(
    request: Seq<u8>,
    chunk_size: nat,
    max_response_len: nat,
    counts: Seq<nat>,
) -> Sent {
    let opening = ExchangeView::opening(request, chunk_size, max_response_len);
    let (connected, first) = opening.next(EventView::Connected);
    after_writes(connected, first, counts)
}

/// The action on which the machine ends when, from `state` on, the reads
/// return `chunks` one after the other and the peer then closes the
/// connection. Chunks that arrive after the machine has finished are not
/// looked at.
pub open spec fn outcome_of_reads(state: ExchangeView, chunks: Seq<Seq<u8>>) -> ActionView
    decreases chunks.len(),
{
    if chunks.len() == 0 {
        state.next(EventView::Received(Seq::empty())).1
    } else {
        let (after, action) = state.next(EventView::Received(chunks.first()));
        if action is Read {
            outcome_of_reads(after, chunks.drop_first())
        } else {
            action
        }
    }
}

/// The action on which an exchange ends when, after the frame of the request
/// is out, the reads return `chunks` and the peer then closes the connection.
pub open spec fn outcome_of_exchange(
    chunk_size: nat,
    max_response_len: nat,
    chunks: Seq<Seq<u8>>,
) -> ActionView {
    outcome_of_reads(ExchangeView::receiving(chunk_size, max_response_len), chunks)
}

/// An exchange begins within the bounds of its buffer.
pub proof fn opening_is_within_bounds(request: Seq<u8>, chunk_size: nat, max_response_len: nat)
    ensures
        ExchangeView::opening(request, chunk_size, max_response_len).within_bounds(),
{
    assert(forall|j: int| !terminator_at(Seq::<u8>::empty(), j));
}

/// The buffer does not grow past its bounds: a step never leaves them,
/// whatever the event.
pub proof fn growth_is_capped(state: ExchangeView, event: EventView)
    requires
        state.within_bounds(),
    ensures
        state.next(event).0.within_bounds(),
{
    let after = state.next(event).0;
    assert(forall|j: int| !terminator_at(Seq::<u8>::empty(), j));
    if after.received.len() > 0 {
        assert(verdict(after.received, state.max_response_len) is None);
    }
}

/// None of the chunks is empty.
pub open spec fn all_nonempty(chunks: Seq<Seq<u8>>) -> bool {
    forall|k: int| 0 <= k < chunks.len() ==> (#[trigger] chunks[k]).len() > 0
}

/// Once the bytes received allow a verdict, no byte that follows can change
/// it.
pub proof fn lemma_verdict_is_final(received: Seq<u8>, more: Seq<u8>, max_len: nat)
    requires
        verdict(received, max_len) is Some,
    ensures
        verdict(received, max_len) == Some(response_of(received + more, max_len)),
{
    let all = received + more;
    match first_terminator(received) {
        Some(i) => {
            lemma_first_terminator(received, i);
            lemma_first_terminator_stays(received, more, i);
            assert(all.take(i) =~= received.take(i));
        },
        None => {
            match first_terminator(all) {
                Some(j) => {
                    lemma_first_terminator(all, j);
                    lemma_new_terminator_is_late(received, more, j);
                },
                None => {},
            }
        },
    }
}

/// From any state in which bytes are pending: when a run of writes ends with
/// the machine asking to read, the writes have taken the pending bytes, and
/// the marker after them where they were payload.
proof fn lemma_writes_take_what_is_pending(state: ExchangeView, counts: Seq<nat>)
    requires
        state.phase == Phase::SendingPayload || state.phase == Phase::SendingTerminator,
        state.received == Seq::<u8>::empty(),
    ensures
        ({
            let sent = after_writes(state, ActionView::Write(state.pending), counts);
            sent.action is Read ==> {
                &&& sent.taken == if state.phase == Phase::SendingPayload {
                    framed(state.pending)
                } else {
                    state.pending
                }
                &&& sent.state == ExchangeView::receiving(
                    state.chunk_size,
                    state.max_response_len,
                )
                &&& sent.action == ActionView::Read(state.chunk_size)
            }
        }),
    decreases counts.len(),
{
    reveal_with_fuel(after_writes, 2);
    if counts.len() > 0 {
        let n = counts.first();
        let rest = counts.drop_first();
        let (next_state, next_action) = state.next(EventView::Written(n));
        let sent = after_writes(state, ActionView::Write(state.pending), counts);
        let later = after_writes(next_state, next_action, rest);
        assert(sent.taken == state.pending.take(n as int) + later.taken);
        if n == 0 || n > state.pending.len() {
        } else if n < state.pending.len() {
            lemma_writes_take_what_is_pending(next_state, rest);
            if sent.action is Read {
                assert(state.pending.take(n as int) + state.pending.skip(n as int)
                    =~= state.pending);
                assert(sent.taken =~= if state.phase == Phase::SendingPayload {
                    framed(state.pending)
                } else {
                    state.pending
                });
            }
        } else if state.phase == Phase::SendingPayload {
            lemma_writes_take_what_is_pending(next_state, rest);
            assert(state.pending.take(n as int) =~= state.pending);
        } else {
            assert(state.pending.take(n as int) =~= state.pending);
            assert(sent.taken =~= state.pending);
        }
    }
}

/// However the writes go, whether they take the bytes at once or a few at a
/// time: when the machine asks for its first read, the writes have taken the
/// frame of the request, payload first and marker second, all of it and
/// nothing else, and nothing has been received yet.
pub proof fn writes_add_up_to_the_frame(
    request: Seq<u8>,
    chunk_size: nat,
    max_response_len: nat,
    counts: Seq<nat>,
)
    ensures
        ({
            let sent = after_sending(request, chunk_size, max_response_len, counts);
            sent.action is Read ==> {
                &&& sent.taken == framed(request)
                &&& sent.state == ExchangeView::receiving(chunk_size, max_response_len)
                &&& sent.action == ActionView::Read(chunk_size)
            }
        }),
{
    let opening = ExchangeView::opening(request, chunk_size, max_response_len);
    let (connected, first) = opening.next(EventView::Connected);
    lemma_writes_take_what_is_pending(connected, counts);
    if request.len() == 0 {
        assert(framed(request) =~= terminator());
    }
}

/// Writes that take everything at once bring the machine to its first read
/// in two steps, or in one where the request is empty.
pub proof fn whole_writes_reach_the_first_read(
    request: Seq<u8>,
    chunk_size: nat,
    max_response_len: nat,
)
    ensures
        after_sending(
            request,
            chunk_size,
            max_response_len,
            if request.len() == 0 {
                seq![TERMINATOR_LEN as nat]
            } else {
                seq![request.len(), TERMINATOR_LEN as nat]
            },
        ).action == ActionView::Read(chunk_size),
{
    let opening = ExchangeView::opening(request, chunk_size, max_response_len);
    let (connected, first) = opening.next(EventView::Connected);
    let whole = seq![TERMINATOR_LEN as nat];
    assert(terminator().len() == 3);
    if request.len() == 0 {
        let (reading, read) = connected.next(EventView::Written(3));
        assert(whole.drop_first().len() == 0);
        assert(after_writes(reading, read, whole.drop_first()).action == read);
    } else {
        let counts = seq![request.len(), TERMINATOR_LEN as nat];
        let (marking, second) = connected.next(EventView::Written(request.len()));
        let (reading, read) = marking.next(EventView::Written(3));
        assert(counts.drop_first() =~= whole);
        assert(whole.drop_first().len() == 0);
        assert(after_writes(reading, read, whole.drop_first()).action == read);
        assert(after_writes(marking, second, whole).action == read);
    }
}

/// How the response is cut into chunks by the reads does not matter: a
/// machine that is waiting for more, fed any sequence of non-empty chunks and
/// then the end of the stream, ends with the response of the bytes taken
/// together.
pub proof fn chunking_does_not_matter(state: ExchangeView, chunks: Seq<Seq<u8>>)
    requires
        state.phase == Phase::Receiving,
        verdict(state.received, state.max_response_len) is None,
        all_nonempty(chunks),
    ensures
        outcome_of_reads(state, chunks) == ActionView::Finish(
            response_of(state.received + chunks.flatten(), state.max_response_len),
        ),
    decreases chunks.len(),
{
    let max_len = state.max_response_len;
    if chunks.len() == 0 {
        assert(state.received + chunks.flatten() =~= state.received);
    } else {
        let chunk = chunks.first();
        let rest = chunks.drop_first();
        let stream = state.received + chunk;
        let (after, action) = state.next(EventView::Received(chunk));
        assert(chunk.len() > 0);
        assert(state.received + chunks.flatten() =~= stream + rest.flatten());
        if verdict(stream, max_len) is Some {
            lemma_verdict_is_final(stream, rest.flatten(), max_len);
        } else {
            assert forall|k: int| 0 <= k < rest.len() implies (#[trigger] rest[k]).len() > 0 by {
                assert(rest[k] == chunks[k + 1]);
            }
            chunking_does_not_matter(after, rest);
        }
    }
}

/// A peer that sends back the very bytes that the writes took, cut into
/// chunks in any way, makes the exchange return the request, provided that
/// the request holds no marker and is no longer than the configured maximum.
pub proof fn echo_returns_request(
    request: Seq<u8>,
    chunk_size: nat,
    max_response_len: nat,
    counts: Seq<nat>,
    chunks: Seq<Seq<u8>>,
)
    requires
        !has_terminator(request),
        request.len() <= max_response_len,
        after_sending(request, chunk_size, max_response_len, counts).action is Read,
        all_nonempty(chunks),
        chunks.flatten() == after_sending(request, chunk_size, max_response_len, counts).taken,
    ensures
        outcome_of_reads(
            after_sending(request, chunk_size, max_response_len, counts).state,
            chunks,
        ) == ActionView::Finish(Ok(request)),
{
    let state = ExchangeView::receiving(chunk_size, max_response_len);
    writes_add_up_to_the_frame(request, chunk_size, max_response_len, counts);
    assert(forall|j: int| !terminator_at(state.received, j));
    chunking_does_not_matter(state, chunks);
    lemma_payload_of_framed(request, Seq::empty());
    assert(state.received + chunks.flatten() =~= framed(request) + Seq::<u8>::empty());
}

/// A marker that arrives split over two reads is found all the same: where
/// the first read ends inside the first marker of `stream`, the exchange
/// returns the bytes before that marker.
pub proof fn split_terminator_is_found(
    chunk_size: nat,
    max_response_len: nat,
    stream: Seq<u8>,
    at: int,
    cut: int,
)
    requires
        first_terminator(stream) == Some(at),
        at < cut < at + TERMINATOR_LEN,
        at <= max_response_len,
    ensures
        outcome_of_exchange(
            chunk_size,
            max_response_len,
            seq![stream.take(cut), stream.skip(cut)],
        ) == ActionView::Finish(Ok(stream.take(at))),
{
    let state = ExchangeView::receiving(chunk_size, max_response_len);
    let chunks = seq![stream.take(cut), stream.skip(cut)];
    lemma_first_terminator(stream, at);
    assert(forall|j: int| !terminator_at(state.received, j));
    assert(all_nonempty(chunks));
    chunking_does_not_matter(state, chunks);
    assert(chunks.drop_first() =~= seq![stream.skip(cut)]);
    assert(chunks.drop_first().drop_first() =~= Seq::<Seq<u8>>::empty());
    assert(chunks.drop_first().flatten() =~= stream.skip(cut)) by {
        assert(chunks.drop_first().drop_first().flatten() =~= Seq::<u8>::empty());
    }
    assert(chunks.flatten() =~= stream);
    assert(state.received + chunks.flatten() =~= stream);
}

/// A peer that closes the connection without ever sending the marker has
/// answered with whatever it sent: the exchange returns all the bytes
/// received, provided that they are no more than the configured maximum.
pub proof fn close_returns_received(chunk_size: nat, max_response_len: nat, chunks: Seq<Seq<u8>>)
    requires
        all_nonempty(chunks),
        !has_terminator(chunks.flatten()),
        chunks.flatten().len() <= max_response_len,
    ensures
        outcome_of_exchange(chunk_size, max_response_len, chunks) == ActionView::Finish(
            Ok(chunks.flatten()),
        ),
{
    let state = ExchangeView::receiving(chunk_size, max_response_len);
    assert(forall|j: int| !terminator_at(state.received, j));
    chunking_does_not_matter(state, chunks);
    assert(state.received + chunks.flatten() =~= chunks.flatten());
}

} // verus!

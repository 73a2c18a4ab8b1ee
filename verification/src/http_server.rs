//! One connection: its three buffers, and what to do next with its socket.
//!
//! The engine never touches a socket. A `Connection` says which action it
//! needs next (write the pending output, read, serve the requests that were
//! read, wait for the socket, close), the caller performs it and reports
//! what came of it as an `Event`. Serving decodes each complete request in
//! the read buffer, hands it to the service and appends the response to the
//! write buffer, in the order of arrival.

use crate::buffer::{advance, as_slice, contents};
use crate::decode::{decode, decoded, failure_message, Decoded, DecodedView};
use crate::errors::{outcome, HandlerError};
use crate::response::{
    answer, encode_error, failure_response, lemma_response_is_not_empty, reply, response_bytes,
    Response, ResponseView,
};
use bytes::BytesMut;
use vstd::prelude::*;

verus! {

/// The capacity that a buffer starts with and is brought back to.
pub const BUF_LEN: usize = 32768;

/// The capacity under which the read buffer is enlarged before a read.
pub const LOW_WATER: usize = 1024;

/// What answers the requests of one connection.
pub trait HttpService {
    /// What the service says of its own answers: whether, in this state,
    /// it may answer `req` by returning `done`, with `rsp` as the response
    /// filled in, and be in the state `after` then. A service states here
    /// as much as it wants its callers to know; one that states nothing
    /// may answer anyhow.
    open spec fn answers(
        &self,
        req: DecodedView,
        done: Result<(), Seq<char>>,
        rsp: ResponseView,
        after: &Self,
    ) -> bool {
        true
    }

    /// Answers `req` by filling in `rsp`, which is handed over as
    /// `Response::new` makes it, over an empty scratch buffer. A failure
    /// is answered with a `500` response in place of `rsp`.
    fn handler(&mut self, req: Decoded<'_>, rsp: &mut Response<'_>) -> (done: Result<
        (),
        HandlerError,
    >)
        requires
            old(rsp).is_fresh(),
        ensures
            old(self).answers(req@, outcome(done), final(rsp)@, final(self)),
    ;
}

/// What makes a service for each accepted connection.
pub trait HttpServiceFactory: Sized {
    type Service: HttpService;

    /// The service for the connection numbered `id`.
    fn new_service(&self, id: usize) -> Self::Service;
}

/// A server that answers every connection with a copy of one service.
pub struct HttpServer<T>(pub T);

/// How many bytes to reserve for a buffer of the given capacity before a
/// read: enough to bring a capacity under `LOW_WATER` up to `BUF_LEN`.
pub open spec fn reserve_needed(capacity: usize) -> nat {
    if capacity < LOW_WATER {
        (BUF_LEN - capacity) as nat
    } else {
        0
    }
}

/// How many bytes to reserve for a buffer of the given capacity.
pub fn reserve_amount(capacity: usize) -> (additional: usize)
    ensures
        additional == reserve_needed(capacity),
{
    if capacity < LOW_WATER {
        BUF_LEN - capacity
    } else {
        0
    }
}

/// Keeps the capacity of a buffer above the low-water mark, so that reads
/// do not make it grow byte by byte: a buffer that reports less is asked
/// for `reserve_amount` of what it reports. What the buffer holds stays.
/// How much room the allocator then gives is its own business and stands
/// in no contract.
pub fn reserve_buf(buf: &mut BytesMut)
    ensures
        contents(*final(buf)) == contents(*old(buf)),
{
    let capacity = buf.capacity();
    let additional = reserve_amount(capacity);
    if additional > 0 {
        buf.reserve(additional);
    }
}

/// Where a connection stands in its cycle.
#[derive(Clone, Copy, Debug, PartialEq, Eq)]
pub enum Phase {
    /// Output is pending: write it.
    Writing,
    /// Read what the socket has.
    Reading,
    /// Bytes were read: serve the requests among them.
    Serving,
    /// Nothing to write and nothing read: wait for the socket.
    Waiting,
    /// The input was malformed: write the last response, then close.
    Draining,
    /// The connection is over.
    Closed,
}

/// What the caller is to do next with the socket.
#[derive(Clone, Copy, Debug, PartialEq, Eq)]
pub enum Action {
    /// Write `pending()` without blocking, and report `Wrote` or
    /// `WriteBlocked`.
    Write,
    /// Read without blocking, and report `Read` or `ReadBlocked`.
    Read,
    /// Call `serve`.
    Serve,
    /// Wait until the socket can be read or written, and report `Ready`.
    Wait,
    /// Shut the socket down.
    Close,
}

/// What came of an action.
pub enum Event<'a> {
    /// The socket can be read or written again.
    Ready,
    /// A write took this many of the pending bytes.
    Wrote(usize),
    /// A write would have blocked.
    WriteBlocked,
    /// A read brought these bytes; none if the peer has closed.
    Read(&'a [u8]),
    /// A read would have blocked.
    ReadBlocked,
    /// The socket failed.
    Failed,
}

/// What an `Event` stands for.
pub enum EventView {
    Ready,
    Wrote(nat),
    WriteBlocked,
    Read(Seq<u8>),
    ReadBlocked,
    Failed,
}

impl<'a> View for Event<'a> {
    type V = EventView;

    open spec fn view(&self) -> EventView {
        match self {
            Event::Ready => EventView::Ready,
            Event::Wrote(n) => EventView::Wrote(*n as nat),
            Event::WriteBlocked => EventView::WriteBlocked,
            Event::Read(bytes) => EventView::Read(bytes@),
            Event::ReadBlocked => EventView::ReadBlocked,
            Event::Failed => EventView::Failed,
        }
    }
}

/// The state of a connection.
pub struct ConnectionView {
    /// The bytes read and not yet decoded.
    pub unread: Seq<u8>,
    /// The bytes encoded and not yet written.
    pub unsent: Seq<u8>,
    /// The bytes of the body that is being written.
    pub scratch: Seq<u8>,
    pub phase: Phase,
    /// Whether bytes were read since the connection last began to read.
    pub fresh: bool,
}

impl ConnectionView {
    /// Whether the state hangs together: a connection that is writing or
    /// draining has output to write.
    pub open spec fn consistent(self) -> bool {
        self.phase is Writing || self.phase is Draining ==> self.unsent.len() > 0
    }
}

/// The action that a phase asks for.
pub open spec fn action_of(phase: Phase) -> Action {
    match phase {
        Phase::Writing => Action::Write,
        Phase::Draining => Action::Write,
        Phase::Reading => Action::Read,
        Phase::Serving => Action::Serve,
        Phase::Waiting => Action::Wait,
        Phase::Closed => Action::Close,
    }
}

/// The state at the start of a cycle: output that is pending is written
/// first; with none, the connection reads.
pub open spec fn begin_cycle(s: ConnectionView) -> ConnectionView {
    ConnectionView {
        phase: if s.unsent.len() == 0 {
            Phase::Reading
        } else {
            Phase::Writing
        },
        fresh: false,
        ..s
    }
}

/// The state once the requests are served: with responses to write, the
/// next cycle begins at once; with none, the connection waits for the
/// socket.
pub open spec fn end_cycle(s: ConnectionView) -> ConnectionView {
    ConnectionView {
        phase: if s.unsent.len() == 0 {
            Phase::Waiting
        } else {
            Phase::Writing
        },
        fresh: false,
        ..s
    }
}

/// The state after a write took `n` of the pending bytes: they are gone
/// from the output. Taking none, or more than there are, ends the
/// connection. `then` is the phase that follows once nothing is pending.
pub open spec fn after_write(s: ConnectionView, n: nat, then: Phase) -> ConnectionView {
    if n == 0 || n > s.unsent.len() {
        ConnectionView { phase: Phase::Closed, ..s }
    } else {
        ConnectionView {
            unsent: s.unsent.skip(n as int),
            phase: if n == s.unsent.len() {
                then
            } else {
                s.phase
            },
            fresh: false,
            ..s
        }
    }
}

/// The state that follows `s` on `event`.
///
/// Writing goes on until all is written or the socket would block, then
/// reading begins. Reading goes on until the socket would block; if it
/// brought bytes they are served, else the connection waits for the socket
/// and then begins its next cycle. A read of no bytes means that the peer
/// has closed. While draining, whatever stops the writing ends the
/// connection. A failure of the socket ends it in any phase. An event that
/// the phase did not ask for changes nothing.
pub open spec fn next(s: ConnectionView, event: EventView) -> ConnectionView {
    match (s.phase, event) {
        (Phase::Closed, _) => s,
        (_, EventView::Failed) => ConnectionView { phase: Phase::Closed, ..s },
        (Phase::Writing, EventView::Wrote(n)) => after_write(s, n, Phase::Reading),
        (Phase::Writing, EventView::WriteBlocked) => ConnectionView {
            phase: Phase::Reading,
            fresh: false,
            ..s
        },
        (Phase::Draining, EventView::Wrote(n)) => after_write(s, n, Phase::Closed),
        (Phase::Draining, EventView::WriteBlocked) => ConnectionView { phase: Phase::Closed, ..s },
        (Phase::Reading, EventView::Read(bytes)) => if bytes.len() == 0 {
            ConnectionView { phase: Phase::Closed, ..s }
        } else {
            ConnectionView { unread: s.unread + bytes, fresh: true, ..s }
        },
        (Phase::Reading, EventView::ReadBlocked) => ConnectionView {
            phase: if s.fresh {
                Phase::Serving
            } else {
                Phase::Waiting
            },
            ..s
        },
        (Phase::Waiting, EventView::Ready) => begin_cycle(s),
        _ => s,
    }
}

/// Whether `response` is what goes out when `service` answers `req` and
/// is in the state `after` then: the response that the service filled in
/// if its handler succeeded, the response to the failure if it failed.
pub open spec fn answered_with<S: HttpService>(
    service: S,
    req: DecodedView,
    response: ResponseView,
    after: S,
) -> bool {
    exists|done: Result<(), Seq<char>>, rsp: ResponseView|
        #[trigger] service.answers(req, done, rsp, &after) && response == reply(done, rsp)
}

/// Whether the requests were answered one after the other: request `k` by
/// response `k`, by the service in state `k`, which was in state `k + 1`
/// then.
pub open spec fn answered_in_turn<S: HttpService>(
    requests: Seq<DecodedView>,
    responses: Seq<ResponseView>,
    states: Seq<S>,
) -> bool {
    &&& states.len() == requests.len() + 1
    &&& responses.len() >= requests.len()
    &&& forall|k: int|
        0 <= k < requests.len() ==> answered_with(
            states[k],
            #[trigger] requests[k],
            responses[k],
            states[k + 1],
        )
}

/// No event takes the output from under a connection that is writing or
/// draining: a state that hangs together is followed by one that does.
pub proof fn lemma_next_is_consistent(s: ConnectionView, event: EventView)
    requires
        s.consistent(),
    ensures
        next(s, event).consistent(),
{
}

/// Responses on the wire, one behind the other.
pub open spec fn wire(replies: Seq<ResponseView>, date: Seq<char>) -> Seq<u8>
    decreases replies.len(),
{
    if replies.len() == 0 {
        Seq::empty()
    } else {
        wire(replies.drop_last(), date) + response_bytes(replies.last(), date)
    }
}

/// What a buffer holds: the complete requests that stand one behind the
/// other at its start, what is left behind them, and, if what is left is
/// malformed, the reason.
pub struct Pipeline {
    pub requests: Seq<DecodedView>,
    pub rest: Seq<u8>,
    pub malformed: Option<Seq<char>>,
}

/// The pipeline of a buffer.
pub open spec fn pipeline(buf: Seq<u8>) -> Pipeline
    decreases buf.len(),
{
    match decoded(buf) {
        Ok(Some(d)) => if 0 < d.len <= buf.len() {
            let later = pipeline(buf.skip(d.len as int));
            Pipeline { requests: seq![d] + later.requests, ..later }
        } else {
            Pipeline { requests: Seq::empty(), rest: buf, malformed: None }
        },
        Ok(None) => Pipeline { requests: Seq::empty(), rest: buf, malformed: None },
        Err(reason) => Pipeline { requests: Seq::empty(), rest: buf, malformed: Some(reason) },
    }
}

/// How serving changes a connection and its service.
///
/// Each request of the pipeline is answered by the service, in the order
/// of arrival, and what goes out for it is the response that the service
/// filled in or, if its handler failed, the response to the failure. The
/// responses go to the output in the order of the requests, behind what
/// was pending. The requests leave the input; what stands behind them
/// stays. No body is left in the scratch buffer. If what stays in the
/// input is malformed, one more response says so, in the words of the
/// failure, and the connection drains; else the cycle ends.
pub open spec fn served<S: HttpService>(
    before: ConnectionView,
    after: ConnectionView,
    date: Seq<char>,
    answered: nat,
    service: S,
    service_after: S,
) -> bool {
    let plan = pipeline(before.unread);
    &&& answered == plan.requests.len()
    &&& after.unread == plan.rest
    &&& after.scratch == Seq::<u8>::empty()
    &&& !after.fresh
    &&& exists|responses: Seq<ResponseView>, states: Seq<S>|
        {
            &&& #[trigger] answered_in_turn(plan.requests, responses, states)
            &&& states.first() == service
            &&& states.last() == service_after
            &&& responses.len() == answered + if plan.malformed is Some {
                1nat
            } else {
                0nat
            }
            &&& plan.malformed matches Some(reason) ==> responses.last() == failure_response(
                failure_message(reason),
            )
            &&& after.unsent == before.unsent + wire(responses, date)
        }
    &&& after.phase == if plan.malformed is Some {
        Phase::Draining
    } else {
        end_cycle(after).phase
    }
}

/// Responses on the wire take up bytes, if there are any.
pub proof fn lemma_wire_is_not_empty(responses: Seq<ResponseView>, date: Seq<char>)
    requires
        responses.len() > 0,
    ensures
        wire(responses, date).len() > 0,
{
    lemma_response_is_not_empty(responses.last(), date);
}

/// A connection that has served hangs together: it drains or writes only
/// with output to write.
pub proof fn lemma_served_is_consistent<S: HttpService>(
    before: ConnectionView,
    after: ConnectionView,
    date: Seq<char>,
    answered: nat,
    service: S,
    service_after: S,
)
    requires
        served(before, after, date, answered, service, service_after),
    ensures
        after.consistent(),
{
    let plan = pipeline(before.unread);
    if plan.malformed is Some {
        let (responses, states) = choose|responses: Seq<ResponseView>, states: Seq<S>|
            {
                &&& #[trigger] answered_in_turn(plan.requests, responses, states)
                &&& responses.len() == answered + 1
                &&& after.unsent == before.unsent + wire(responses, date)
            };
        lemma_wire_is_not_empty(responses, date);
    }
}

/// A connection.
pub struct Connection {
    req_buf: BytesMut,
    res_buf: BytesMut,
    body_buf: BytesMut,
    phase: Phase,
    fresh: bool,
}

impl View for Connection {
    type V = ConnectionView;

    closed spec fn view(&self) -> ConnectionView {
        ConnectionView {
            unread: contents(self.req_buf),
            unsent: contents(self.res_buf),
            scratch: contents(self.body_buf),
            phase: self.phase,
            fresh: self.fresh,
        }
    }
}

impl Connection {
    /// A connection that has just been accepted: nothing read, nothing to
    /// write, about to read.
    pub fn new() -> (conn: Connection)
        ensures
            conn@ == (ConnectionView {
                unread: Seq::empty(),
                unsent: Seq::empty(),
                scratch: Seq::empty(),
                phase: Phase::Reading,
                fresh: false,
            }),
            conn@.consistent(),
    {
        Connection {
            req_buf: BytesMut::with_capacity(BUF_LEN),
            res_buf: BytesMut::with_capacity(BUF_LEN),
            body_buf: BytesMut::with_capacity(BUF_LEN),
            phase: Phase::Reading,
            fresh: false,
        }
    }

    /// Where the connection stands.
    pub fn phase(&self) -> (phase: Phase)
        ensures
            phase == self@.phase,
    {
        self.phase
    }

    /// What to do next with the socket.
    pub fn action(&self) -> (action: Action)
        ensures
            action == action_of(self@.phase),
    {
        match self.phase {
            Phase::Writing => Action::Write,
            Phase::Draining => Action::Write,
            Phase::Reading => Action::Read,
            Phase::Serving => Action::Serve,
            Phase::Waiting => Action::Wait,
            Phase::Closed => Action::Close,
        }
    }

    /// The bytes that wait to be written.
    pub fn pending(&self) -> (bytes: &[u8])
        ensures
            bytes@ == self@.unsent,
    {
        as_slice(&self.res_buf)
    }

    /// The bytes that were read and not yet served.
    pub fn unread(&self) -> (bytes: &[u8])
        ensures
            bytes@ == self@.unread,
    {
        as_slice(&self.req_buf)
    }

    /// Takes a write of `n` bytes into account.
    fn wrote(&mut self, n: usize, then: Phase)
        ensures
            final(self)@ == after_write(old(self)@, n as nat, then),
    {
        let pending = self.res_buf.len();
        if n == 0 || n > pending {
            self.phase = Phase::Closed;
        } else {
            advance(&mut self.res_buf, n);
            self.fresh = false;
            if n == pending {
                self.phase = then;
            }
        }
    }

    /// Enters the phase in which the socket is read.
    fn begin_reading(&mut self)
        ensures
            final(self)@ == (ConnectionView { phase: Phase::Reading, fresh: false, ..old(self)@ }),
    {
        reserve_buf(&mut self.req_buf);
        self.phase = Phase::Reading;
        self.fresh = false;
    }

    /// Begins a cycle.
    fn begin(&mut self)
        ensures
            final(self)@ == begin_cycle(old(self)@),
    {
        if self.res_buf.is_empty() {
            self.begin_reading();
        } else {
            self.fresh = false;
            self.phase = Phase::Writing;
        }
    }

    /// Takes into account what came of the last action, and says what to
    /// do next.
    pub fn step(&mut self, event: Event<'_>) -> (action: Action)
        ensures
            final(self)@ == next(old(self)@, event@),
            action == action_of(final(self)@.phase),
            old(self)@.consistent() ==> final(self)@.consistent(),
    {
        match (self.phase, event) {
            (Phase::Closed, _) => {},
            (_, Event::Failed) => {
                self.phase = Phase::Closed;
            },
            (Phase::Writing, Event::Wrote(n)) => {
                self.wrote(n, Phase::Reading);
                if let Phase::Reading = self.phase {
                    self.begin_reading();
                }
            },
            (Phase::Writing, Event::WriteBlocked) => {
                self.begin_reading();
            },
            (Phase::Draining, Event::Wrote(n)) => {
                self.wrote(n, Phase::Closed);
            },
            (Phase::Draining, Event::WriteBlocked) => {
                self.phase = Phase::Closed;
            },
            (Phase::Reading, Event::Read(bytes)) => {
                if bytes.len() == 0 {
                    self.phase = Phase::Closed;
                } else {
                    self.req_buf.extend_from_slice(bytes);
                    self.fresh = true;
                }
            },
            (Phase::Reading, Event::ReadBlocked) => {
                if self.fresh {
                    self.phase = Phase::Serving;
                } else {
                    self.phase = Phase::Waiting;
                }
            },
            (Phase::Waiting, Event::Ready) => {
                self.begin();
            },
            _ => {},
        }
        self.action()
    }

    /// Serves the requests that were read: decodes each complete request
    /// at the start of the read buffer, hands it to `service`, appends the
    /// response (or, if the handler failed, the response to its failure) to
    /// the write buffer, and drops the request from the read buffer. `date`
    /// goes into the `Date` header of each response. Says how many requests
    /// were answered.
    ///
    /// In any phase but `Serving` this does nothing.
    pub fn serve<S: HttpService>(&mut self, service: &mut S, date: &str) -> (answered: usize)
        ensures
            old(self)@.phase is Serving ==> served(
                old(self)@,
                final(self)@,
                date@,
                answered as nat,
                *old(service),
                *final(service),
            ),
            !(old(self)@.phase is Serving) ==> final(self)@ == old(self)@ && answered == 0
                && *final(service) == *old(service),
            old(self)@.consistent() ==> final(self)@.consistent(),
    {
        match self.phase {
            Phase::Serving => {},
            _ => {
                return 0;
            },
        }
        let ghost before = self@;
        let ghost plan = pipeline(before.unread);
        let ghost mut done: Seq<DecodedView> = Seq::empty();
        let ghost mut responses: Seq<ResponseView> = Seq::empty();
        let ghost mut states: Seq<S> = seq![*service];
        let ghost mut reason: Option<Seq<char>> = None;
        let unread = self.req_buf.len();
        let mut answered: usize = 0;
        let mut malformed = false;
        self.body_buf.clear();
        assert(contents(self.res_buf) =~= before.unsent + wire(responses, date@));
        loop
            invariant_except_break
                !malformed,
            invariant
                plan == pipeline(before.unread),
                before.phase is Serving,
                self.phase is Serving,
                contents(self.body_buf) == Seq::<u8>::empty(),
                plan.requests == done + pipeline(contents(self.req_buf)).requests,
                plan.rest == pipeline(contents(self.req_buf)).rest,
                plan.malformed == pipeline(contents(self.req_buf)).malformed,
                done.len() == answered,
                answered + contents(self.req_buf).len() <= unread,
                contents(self.res_buf) == before.unsent + wire(responses, date@),
                answered_in_turn(done, responses, states),
                states.first() == *old(service),
                states.last() == *service,
                responses.len() == answered + if malformed {
                    1nat
                } else {
                    0nat
                },
                malformed == reason is Some,
                reason matches Some(r) ==> responses.last() == failure_response(
                    failure_message(r),
                ),
            ensures
                pipeline(contents(self.req_buf)).requests.len() == 0,
                pipeline(contents(self.req_buf)).malformed == reason,
            decreases contents(self.req_buf).len(),
        {
            let ghost input = contents(self.req_buf);
            let found = decode(&self.req_buf);
            match found {
                Err(e) => {
                    let text = e.message();
                    let failure = HandlerError::new(text.as_str());
                    encode_error(failure, date, &mut self.res_buf);
                    proof {
                        let longer = responses.push(failure_response(failure@));
                        assert(longer.drop_last() == responses);
                        assert forall|k: int| 0 <= k < done.len() implies answered_with(
                            states[k],
                            #[trigger] done[k],
                            longer[k],
                            states[k + 1],
                        ) by {
                            assert(longer[k] == responses[k]);
                        }
                        responses = longer;
                        reason = Some(e@);
                    }
                    malformed = true;
                    break;
                },
                Ok(None) => {
                    break;
                },
                Ok(Some(req)) => {
                    let len = req.len();
                    let ghost request = req@;
                    let ghost state = *service;
                    let mut rsp = Response::new(&mut self.body_buf);
                    let result = service.handler(req, &mut rsp);
                    let ghost filled = rsp@;
                    let ghost response = reply(outcome(result), filled);
                    answer(result, rsp, date, &mut self.res_buf);
                    self.body_buf.clear();
                    advance(&mut self.req_buf, len);
                    proof {
                        let later = pipeline(input.skip(len as int));
                        assert(pipeline(input).requests == seq![request] + later.requests);
                        assert(done + (seq![request] + later.requests) == done.push(request)
                            + later.requests);
                        assert(state.answers(request, outcome(result), filled, &*service));
                        assert(answered_with(state, request, response, *service));
                        let longer = responses.push(response);
                        let further = states.push(*service);
                        let more = done.push(request);
                        assert(longer.drop_last() == responses);
                        assert forall|k: int| 0 <= k < more.len() implies answered_with(
                            further[k],
                            #[trigger] more[k],
                            longer[k],
                            further[k + 1],
                        ) by {
                            if k < done.len() {
                                assert(answered_with(states[k], done[k], responses[k], states[k + 1]));
                                assert(further[k] == states[k]);
                                assert(further[k + 1] == states[k + 1]);
                                assert(longer[k] == responses[k]);
                                assert(more[k] == done[k]);
                            }
                        }
                        responses = longer;
                        states = further;
                        done = more;
                    }
                    answered += 1;
                },
            }
        }
        self.fresh = false;
        if malformed {
            self.phase = Phase::Draining;
        } else if self.res_buf.is_empty() {
            self.phase = Phase::Waiting;
        } else {
            self.phase = Phase::Writing;
        }
        proof {
            assert(plan.requests == done);
            assert(self@.unsent == before.unsent + wire(responses, date@));
            assert(answered_in_turn(plan.requests, responses, states));
            if malformed {
                lemma_wire_is_not_empty(responses, date@);
            }
        }
        answered
    }
}

} // verus!

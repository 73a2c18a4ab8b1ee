//! What holds of every connection when it serves: requests that arrive
//! together are answered one by one in their order, and an incomplete
//! request waits untouched.

use crate::decode::{decoded, tokenized, DecodedView, Tokenized, MAX_HEADERS};
use crate::http_server::{
    answered_in_turn, answered_with, next, pipeline, served, wire, ConnectionView, EventView,
    HttpService,
};
use crate::response::{failure_response, reply, response_bytes, ResponseView};
use vstd::prelude::*;

verus! {

/// A buffer that starts with a complete request holds that request and
/// then what the rest of the buffer holds.
pub proof fn lemma_pipeline_step(buf: Seq<u8>, first: DecodedView)
    requires
        decoded(buf) == Ok::<Option<DecodedView>, Seq<char>>(Some(first)),
        0 < first.len <= buf.len(),
    ensures
        pipeline(buf).requests == seq![first] + pipeline(buf.skip(first.len as int)).requests,
        pipeline(buf).rest == pipeline(buf.skip(first.len as int)).rest,
        pipeline(buf).malformed == pipeline(buf.skip(first.len as int)).malformed,
{
}

/// A buffer that does not start with a complete request, malformed or
/// not, holds no request: all of it is left.
pub proof fn lemma_pipeline_end(buf: Seq<u8>)
    requires
        !(decoded(buf) matches Ok(Some(_))),
    ensures
        pipeline(buf).requests == Seq::<DecodedView>::empty(),
        pipeline(buf).rest == buf,
        pipeline(buf).malformed == match decoded(buf) {
            Err(reason) => Some(reason),
            _ => None,
        },
{
}

/// Two complete requests that stand back to back at the start of a buffer
/// are both found, in the order of their arrival, and nothing of what
/// follows them is lost.
pub proof fn lemma_two_requests_are_found(buf: Seq<u8>, first: DecodedView, second: DecodedView)
    requires
        decoded(buf) == Ok::<Option<DecodedView>, Seq<char>>(Some(first)),
        0 < first.len <= buf.len(),
        decoded(buf.skip(first.len as int)) == Ok::<Option<DecodedView>, Seq<char>>(Some(second)),
        0 < second.len <= buf.len() - first.len,
        decoded(buf.skip((first.len + second.len) as int)) == Ok::<Option<DecodedView>, Seq<char>>(None),
    ensures
        pipeline(buf).requests == seq![first, second],
        pipeline(buf).rest == buf.skip((first.len + second.len) as int),
        pipeline(buf).malformed is None,
{
    let behind_first = buf.skip(first.len as int);
    let behind_both = buf.skip((first.len + second.len) as int);
    assert(behind_first.skip(second.len as int) == behind_both);
    lemma_pipeline_step(buf, first);
    lemma_pipeline_step(behind_first, second);
    lemma_pipeline_end(behind_both);
    assert(seq![first] + (seq![second] + Seq::<DecodedView>::empty()) == seq![first, second]);
}

/// Serving a connection that has read two complete requests back to back
/// answers both in the order of their arrival: the service answers the
/// first, then, in the state that this left it in, the second; exactly two
/// responses go to the output, the response to the first before the
/// response to the second, behind what was pending; and the two requests
/// leave the input.
pub proof fn lemma_two_requests_get_two_replies<S: HttpService>(
    before: ConnectionView,
    after: ConnectionView,
    date: Seq<char>,
    answered: nat,
    service: S,
    service_after: S,
    first: DecodedView,
    second: DecodedView,
)
    requires
        served(before, after, date, answered, service, service_after),
        decoded(before.unread) == Ok::<Option<DecodedView>, Seq<char>>(Some(first)),
        0 < first.len <= before.unread.len(),
        decoded(before.unread.skip(first.len as int)) == Ok::<Option<DecodedView>, Seq<char>>(
            Some(second),
        ),
        0 < second.len <= before.unread.len() - first.len,
        decoded(before.unread.skip((first.len + second.len) as int)) == Ok::<
            Option<DecodedView>,
            Seq<char>,
        >(None),
    ensures
        answered == 2,
        after.unread == before.unread.skip((first.len + second.len) as int),
        exists|one: ResponseView, two: ResponseView, between: S|
            {
                &&& #[trigger] answered_with(service, first, one, between)
                &&& #[trigger] answered_with(between, second, two, service_after)
                &&& after.unsent == before.unsent + response_bytes(one, date) + response_bytes(
                    two,
                    date,
                )
            },
{
    lemma_two_requests_are_found(before.unread, first, second);
    let requests = pipeline(before.unread).requests;
    let (responses, states) = choose|responses: Seq<ResponseView>, states: Seq<S>|
        {
            &&& #[trigger] answered_in_turn(requests, responses, states)
            &&& states.first() == service
            &&& states.last() == service_after
            &&& responses.len() == answered
            &&& after.unsent == before.unsent + wire(responses, date)
        };
    assert(responses.len() == 2);
    let one = responses[0];
    let two = responses[1];
    let between = states[1];
    assert(requests[0] == first && requests[1] == second);
    assert(answered_with(states[0], requests[0], responses[0], states[1]));
    assert(answered_with(states[1], requests[1], responses[1], states[2]));
    let shorter = responses.drop_last();
    assert(shorter.last() == one);
    assert(shorter.drop_last().len() == 0);
    assert(wire(shorter, date) == wire(shorter.drop_last(), date) + response_bytes(one, date));
    assert(wire(responses, date) =~= response_bytes(one, date) + response_bytes(two, date));
    assert(after.unsent =~= before.unsent + response_bytes(one, date) + response_bytes(two, date));
}

/// Serving a connection whose input holds no complete request yet, be it
/// for want of the rest of the head or of the body, consumes no byte,
/// answers nothing, writes nothing, and leaves the service as it is.
pub proof fn lemma_incomplete_request_waits<S: HttpService>(
    before: ConnectionView,
    after: ConnectionView,
    date: Seq<char>,
    answered: nat,
    service: S,
    service_after: S,
)
    requires
        decoded(before.unread) == Ok::<Option<DecodedView>, Seq<char>>(None),
        served(before, after, date, answered, service, service_after),
    ensures
        answered == 0,
        after.unread == before.unread,
        after.unsent == before.unsent,
        service_after == service,
{
    lemma_pipeline_end(before.unread);
    let requests = pipeline(before.unread).requests;
    let (responses, states) = choose|responses: Seq<ResponseView>, states: Seq<S>|
        {
            &&& #[trigger] answered_in_turn(requests, responses, states)
            &&& states.first() == service
            &&& states.last() == service_after
            &&& responses.len() == answered
            &&& after.unsent == before.unsent + wire(responses, date)
        };
    assert(wire(responses, date).len() == 0);
    assert(after.unsent =~= before.unsent);
}

/// A buffer that holds only part of a request head decodes to nothing
/// yet, without failure, and serving it consumes no byte, answers nothing,
/// leaves the service as it is and the connection waiting for more.
pub proof fn lemma_partial_head_waits<S: HttpService>(
    before: ConnectionView,
    after: ConnectionView,
    date: Seq<char>,
    answered: nat,
    service: S,
    service_after: S,
)
    requires
        tokenized(before.unread, MAX_HEADERS as nat) is Partial,
        served(before, after, date, answered, service, service_after),
    ensures
        decoded(before.unread) == Ok::<Option<DecodedView>, Seq<char>>(None),
        answered == 0,
        after.unread == before.unread,
        after.unsent == before.unsent,
        service_after == service,
{
    lemma_incomplete_request_waits(before, after, date, answered, service, service_after);
}

/// Bytes that arrive in two reads are held as if they had arrived in one.
pub proof fn lemma_reads_add_up(start: ConnectionView, first: Seq<u8>, second: Seq<u8>)
    requires
        start.phase is Reading,
        first.len() > 0,
        second.len() > 0,
    ensures
        next(next(start, EventView::Read(first)), EventView::Read(second)) == next(
            start,
            EventView::Read(first + second),
        ),
{
    assert(start.unread + first + second =~= start.unread + (first + second));
}

/// A request that arrives in two reads, with nothing to serve after the
/// first and a wait between them, leaves the connection where one read of
/// all its bytes would have left it: about to serve the same input.
pub proof fn lemma_two_reads_serve_as_one<S: HttpService>(
    start: ConnectionView,
    first: Seq<u8>,
    second: Seq<u8>,
    waited: ConnectionView,
    date: Seq<char>,
    answered: nat,
    service: S,
    service_after: S,
)
    requires
        start.phase is Reading,
        start.unsent.len() == 0,
        start.scratch.len() == 0,
        first.len() > 0,
        second.len() > 0,
        decoded(start.unread + first) == Ok::<Option<DecodedView>, Seq<char>>(None),
        served(
            next(next(start, EventView::Read(first)), EventView::ReadBlocked),
            waited,
            date,
            answered,
            service,
            service_after,
        ),
    ensures
        answered == 0,
        service_after == service,
        next(
            next(next(waited, EventView::Ready), EventView::Read(second)),
            EventView::ReadBlocked,
        ) == next(next(start, EventView::Read(first + second)), EventView::ReadBlocked),
{
    let serving = next(next(start, EventView::Read(first)), EventView::ReadBlocked);
    lemma_incomplete_request_waits(serving, waited, date, answered, service, service_after);
    assert(start.unread + first + second =~= start.unread + (first + second));
    assert(waited.scratch =~= start.scratch);
    assert(waited.unsent =~= start.unsent);
}

/// A handler's failure is answered with the response to the failure, in
/// its words, and its success with the response that it filled in.
pub proof fn lemma_answer_follows_the_handler<S: HttpService>(
    service: S,
    req: DecodedView,
    response: ResponseView,
    after: S,
)
    requires
        answered_with(service, req, response, after),
    ensures
        exists|done: Result<(), Seq<char>>, rsp: ResponseView|
            {
                &&& #[trigger] service.answers(req, done, rsp, &after)
                &&& done is Ok ==> response == rsp
                &&& done matches Err(message) ==> response == failure_response(message)
            },
{
    let (done, rsp) = choose|done: Result<(), Seq<char>>, rsp: ResponseView|
        #[trigger] service.answers(req, done, rsp, &after) && response == reply(done, rsp);
    assert(service.answers(req, done, rsp, &after));
}

} // verus!

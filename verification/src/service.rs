//! Conversations, held.
//!
//! The functions here run the steps of a conversation with functions that read, write and drop
//! pages. Each of these takes the state of what lies outside and gives it back, so that the
//! contracts tell all calls that are made, in their order.

use vstd::prelude::*;

use crate::conversation::{all_results, lemma_first_results, lemma_settled_is_prefix, Answers};
use crate::cooperation::{
    next_session, settle, CooperationSession, EvictStep, HeaderOutcome, PendingBody, SessionView,
};
use crate::evict::{pfns_of, response_bytes, COOP_EVICT_REQUEST_HEADER_BYTES, COOP_PFN_BYTES};
use crate::log::{
    drop_calls, end_calls, first_drop_calls, is_end, is_log, is_round, lemma_first_drop_calls,
    lemma_one_more_round, lemma_settled_add_no_call, request_calls, round_calls, rounds_calls,
    session_at, Call, End, Log, Round,
};
use crate::turns::{
    in_turn, lemma_made_by_more, lemma_more_calls, lemma_no_call, lemma_one_call,
    lemma_one_more_call, Made,
};

verus! {

/// The calls that `madvise_page` makes.
pub open spec fn dropped_by<S, M: Fn(S, u64) -> (S, Result<(), i32>)>(madvise_page: M) -> Made<
    S,
    Call,
> {
    |from: S, call: Call, to: S|
        call matches Call::Drop(host_va, answer) && call_ensures(
            madvise_page,
            (from, host_va),
            (to, answer),
        )
}

/// Drops the evictable pages of a request, one after another, and no others. Returns the response,
/// with one result for each page-frame number, and the session that goes on after it was written.
pub fn answer_request<S, M: Fn(S, u64) -> (S, Result<(), i32>)>(
    surroundings: S,
    pending: PendingBody,
    body: &[u8],
    madvise_page: &M,
) -> (done: (S, Vec<u8>, Option<CooperationSession>))
    requires
        body@.len() == pending@.count * COOP_PFN_BYTES,
        forall|at: S, host_va: u64| #[trigger] call_requires(*madvise_page, (at, host_va)),
    ensures
        exists|answers: Answers|
            {
                let calls = #[trigger] drop_calls(pending@.session, pfns_of(body@), answers);
                &&& in_turn(dropped_by(*madvise_page), surroundings, calls, done.0)
                &&& done.1@ == response_bytes(
                    pending@.session.expected_sequence,
                    0,
                    all_results(pending@.session, pfns_of(body@), answers),
                )
            },
        match done.2 {
            Some(next) => next_session(pending@.session) == Some(next@),
            None => next_session(pending@.session) is None,
        },
{
    let ghost session = pending@.session;
    let ghost pfns = pfns_of(body@);
    let ghost made = dropped_by(*madvise_page);
    let ghost mut answers: Answers = |sequence: u64, i: int| arbitrary();
    let mut at = surroundings;
    let mut batch = pending.receive_body(body);
    proof {
        assert(batch@.results =~= all_results(session, pfns, answers).take(0));
        lemma_no_call(made, at);
    }
    loop
        invariant
            forall|at: S, host_va: u64| #[trigger] call_requires(*madvise_page, (at, host_va)),
            session == pending@.session,
            pfns == pfns_of(body@),
            made == dropped_by(*madvise_page),
            batch@.session == session,
            batch@.pfns == pfns,
            batch@.results.len() <= pfns.len(),
            batch@.results == all_results(session, pfns, answers).take(
                batch@.results.len() as int,
            ),
            in_turn(
                made,
                surroundings,
                first_drop_calls(session, pfns, answers, batch@.results.len() as int),
                at,
            ),
        decreases pfns.len() - batch@.results.len(),
    {
        let ghost settled = batch@.results.len() as int;
        let ghost n = settle(batch@).len() as int;
        proof {
            lemma_settled_is_prefix(batch@, answers);
            lemma_settled_add_no_call(session, pfns, answers, settled, n);
        }
        match batch.next_step() {
            EvictStep::Advise(page) => {
                let host_va: u64 = page.host_va();
                let ghost before = at;
                let (after, outcome) = madvise_page(at, host_va);
                at = after;
                proof {
                    let earlier = answers;
                    answers =
                    |sequence: u64, i: int|
                        if i == n {
                            outcome
                        } else {
                            earlier(sequence, i)
                        };
                    lemma_first_results(session, pfns, earlier, answers, n);
                    lemma_first_drop_calls(session, pfns, earlier, answers, n);
                    let calls = first_drop_calls(session, pfns, answers, n);
                    let call = Call::Drop(host_va, outcome);
                    assert(made(before, call, after));
                    lemma_one_more_call(made, surroundings, calls, before, call, after);
                    assert(first_drop_calls(session, pfns, answers, n + 1) == calls.push(call));
                }
                batch = page.record(outcome);
                proof {
                    assert(batch@.results =~= all_results(session, pfns, answers).take(n + 1));
                }
            },
            EvictStep::Respond(response, next) => {
                proof {
                    let all = all_results(session, pfns, answers);
                    assert(all.take(pfns.len() as int) =~= all);
                    assert(in_turn(made, surroundings, drop_calls(session, pfns, answers), at));
                }
                return (at, response, next);
            },
        }
    }
}

/// The bytes of a header, if there is one.
pub open spec fn header_bytes(answer: Option<[u8; COOP_EVICT_REQUEST_HEADER_BYTES]>) -> Option<
    Seq<u8>,
> {
    match answer {
        Some(header) => Some(header@),
        None => None,
    }
}

/// The bytes of a body, if there is one.
pub open spec fn body_bytes(answer: Option<Vec<u8>>) -> Option<Seq<u8>> {
    match answer {
        Some(body) => Some(body@),
        None => None,
    }
}

/// Whether `read_header` gave this header.
pub open spec fn header_read_by<
    S,
    H: Fn(S) -> (S, Option<[u8; COOP_EVICT_REQUEST_HEADER_BYTES]>),
>(read_header: H, from: S, header: Option<Seq<u8>>, to: S) -> bool {
    exists|answer: Option<[u8; COOP_EVICT_REQUEST_HEADER_BYTES]>|
        {
            &&& #[trigger] call_ensures(read_header, (from,), (to, answer))
            &&& header == header_bytes(answer)
        }
}

/// Whether `read_body`, asked for so many bytes, gave these.
pub open spec fn body_read_by<S, B: Fn(S, usize) -> (S, Option<Vec<u8>>)>(
    read_body: B,
    from: S,
    len: nat,
    body: Option<Seq<u8>>,
    to: S,
) -> bool {
    exists|asked: usize, answer: Option<Vec<u8>>|
        {
            &&& #[trigger] call_ensures(read_body, (from, asked), (to, answer))
            &&& asked == len
            &&& body == body_bytes(answer)
        }
}

/// Whether `write` was given these bytes, and answered so.
pub open spec fn written_by<S, W: Fn(S, &[u8]) -> (S, bool)>(
    write: W,
    from: S,
    bytes: Seq<u8>,
    written: bool,
    to: S,
) -> bool {
    exists|response: &[u8]|
        {
            &&& #[trigger] call_ensures(write, (from, response), (to, written))
            &&& response@ == bytes
        }
}

/// The calls that the functions of a conversation make.
pub open spec fn conversed_by<
    S,
    H: Fn(S) -> (S, Option<[u8; COOP_EVICT_REQUEST_HEADER_BYTES]>),
    B: Fn(S, usize) -> (S, Option<Vec<u8>>),
    W: Fn(S, &[u8]) -> (S, bool),
    M: Fn(S, u64) -> (S, Result<(), i32>),
>(read_header: H, read_body: B, write: W, madvise_page: M) -> Made<S, Call> {
    |from: S, call: Call, to: S|
        match call {
            Call::ReadHeader(header) => header_read_by(read_header, from, header, to),
            Call::ReadBody(len, body) => body_read_by(read_body, from, len, body, to),
            Call::Drop(_, _) => dropped_by(madvise_page)(from, call, to),
            Call::Write(bytes, written) => written_by(write, from, bytes, written, to),
        }
}

/// What one step of a conversation comes to.
pub ghost enum Step {
    /// A request was received whole, and answered.
    Answered(Round),
    /// The conversation ended.
    Ended(End),
}

/// Whether this is what a session that waits for a header can come to.
pub open spec fn is_step(session: SessionView, step: Step) -> bool {
    match step {
        Step::Answered(round) => is_round(session, round),
        Step::Ended(end) => {
            &&& end is NoHeader || end is Rejected || end is NoBody
            &&& is_end(session, end)
        },
    }
}

/// The calls of a step.
pub open spec fn step_calls(session: SessionView, step: Step) -> Seq<Call> {
    match step {
        Step::Answered(round) => round_calls(session, round),
        Step::Ended(end) => end_calls(end),
    }
}

/// The session that goes on after a step, if one does.
pub open spec fn after_step(session: SessionView, step: Step) -> Option<SessionView> {
    match step {
        Step::Answered(round) if round.written => next_session(session),
        _ => None,
    }
}

/// Serves one request of the peer. Returns the session that waits for the next, if the conversation
/// goes on.
///
/// A body of another length than was asked for counts as missing.
#[verifier::rlimit(30)]
pub fn serve_request<
    S,
    H: Fn(S) -> (S, Option<[u8; COOP_EVICT_REQUEST_HEADER_BYTES]>),
    B: Fn(S, usize) -> (S, Option<Vec<u8>>),
    W: Fn(S, &[u8]) -> (S, bool),
    M: Fn(S, u64) -> (S, Result<(), i32>),
>(
    surroundings: S,
    session: CooperationSession,
    read_header: &H,
    read_body: &B,
    write: &W,
    madvise_page: &M,
) -> (done: (S, Option<CooperationSession>))
    requires
        forall|at: S| #[trigger] call_requires(*read_header, (at,)),
        forall|at: S, len: usize| #[trigger] call_requires(*read_body, (at, len)),
        forall|at: S, response: &[u8]| #[trigger] call_requires(*write, (at, response)),
        forall|at: S, host_va: u64| #[trigger] call_requires(*madvise_page, (at, host_va)),
    ensures
        exists|step: Step|
            {
                &&& #[trigger] is_step(session@, step)
                &&& in_turn(
                    conversed_by(*read_header, *read_body, *write, *madvise_page),
                    surroundings,
                    step_calls(session@, step),
                    done.0,
                )
                &&& match done.1 {
                    Some(next) => after_step(session@, step) == Some(next@),
                    None => after_step(session@, step) is None,
                }
            },
{
    let ghost waiting = session@;
    let ghost made = conversed_by(*read_header, *read_body, *write, *madvise_page);
    let (at, answer) = read_header(surroundings);
    let ghost mut calls: Seq<Call> = Seq::empty();
    proof {
        let header = header_bytes(answer);
        let call = Call::ReadHeader(header);
        assert(header_read_by(*read_header, surroundings, header, at));
        assert(made(surroundings, call, at));
        lemma_one_call(made, surroundings, call, at);
        calls = seq![call];
    }
    let header = match answer {
        Some(header) => header,
        None => {
            proof {
                let step = Step::Ended(End::NoHeader);
                assert(is_step(waiting, step));
                assert(calls =~= step_calls(waiting, step));
            }
            return (at, None);
        },
    };
    let ghost read = header@;
    let pending = match session.receive_header(&header) {
        HeaderOutcome::Accepted(pending) => pending,
        HeaderOutcome::Rejected(response) => {
            let ghost before = at;
            let (at, written) = write(at, response.as_slice());
            proof {
                let call = Call::Write(response@, written);
                assert(written_by(*write, before, response@, written, at));
                assert(made(before, call, at));
                lemma_one_more_call(made, surroundings, calls, before, call, at);
                let step = Step::Ended(End::Rejected(read, response@, written));
                assert(is_step(waiting, step));
                assert(calls.push(call) =~= step_calls(waiting, step));
            }
            return (at, None);
        },
    };
    let len: usize = pending.body_len();
    let (at, body): (S, Vec<u8>) = if len == 0 {
        (at, Vec::new())
    } else {
        let ghost before = at;
        let (at, answer) = read_body(at, len);
        proof {
            let body = body_bytes(answer);
            let call = Call::ReadBody(len as nat, body);
            assert(body_read_by(*read_body, before, len as nat, body, at));
            assert(made(before, call, at));
            lemma_one_more_call(made, surroundings, calls, before, call, at);
            calls = calls.push(call);
            let step = Step::Ended(End::NoBody(read, body));
            assert(calls =~= step_calls(waiting, step));
            if body is None || body->Some_0.len() != len {
                assert(is_step(waiting, step));
            }
        }
        match answer {
            Some(body) if body.len() == len => (at, body),
            _ => {
                return (at, None);
            },
        }
    };
    let ghost bytes = body@;
    assert(calls =~= request_calls(read, bytes));
    let ghost before = at;
    let (at, response, next) = answer_request(at, pending, body.as_slice(), madvise_page);
    let ghost answers = choose|answers: Answers|
        {
            let drops = #[trigger] drop_calls(waiting, pfns_of(bytes), answers);
            &&& in_turn(dropped_by(*madvise_page), before, drops, at)
            &&& response@ == response_bytes(
                waiting.expected_sequence,
                0,
                all_results(waiting, pfns_of(bytes), answers),
            )
        };
    proof {
        let drops = drop_calls(waiting, pfns_of(bytes), answers);
        lemma_made_by_more(dropped_by(*madvise_page), made, before, drops, at);
        lemma_more_calls(made, surroundings, calls, before, drops, at);
        calls = calls + drops;
    }
    let ghost before = at;
    let (at, written) = write(at, response.as_slice());
    proof {
        let call = Call::Write(response@, written);
        assert(written_by(*write, before, response@, written, at));
        assert(made(before, call, at));
        lemma_one_more_call(made, surroundings, calls, before, call, at);
        let round = Round { header: read, body: bytes, answers, response: response@, written };
        let step = Step::Answered(round);
        assert(is_step(waiting, step));
        assert(calls.push(call) == step_calls(waiting, step));
    }
    if written {
        (at, next)
    } else {
        (at, None)
    }
}

/// Serves the requests of the peer until it closes its end, sends a request that is at fault, or
/// cannot be written to. Returns the surroundings as the conversation leaves them.
#[verifier::rlimit(30)]
pub fn cooperation_loop_with_madvise<
    S,
    H: Fn(S) -> (S, Option<[u8; COOP_EVICT_REQUEST_HEADER_BYTES]>),
    B: Fn(S, usize) -> (S, Option<Vec<u8>>),
    W: Fn(S, &[u8]) -> (S, bool),
    M: Fn(S, u64) -> (S, Result<(), i32>),
>(
    surroundings: S,
    session: CooperationSession,
    read_header: H,
    read_body: B,
    write: W,
    madvise_page: M,
) -> (left: S)
    requires
        forall|at: S| #[trigger] call_requires(read_header, (at,)),
        forall|at: S, len: usize| #[trigger] call_requires(read_body, (at, len)),
        forall|at: S, response: &[u8]| #[trigger] call_requires(write, (at, response)),
        forall|at: S, host_va: u64| #[trigger] call_requires(madvise_page, (at, host_va)),
    ensures
        exists|log: Log|
            {
                &&& #[trigger] is_log(session@, log)
                &&& in_turn(
                    conversed_by(read_header, read_body, write, madvise_page),
                    surroundings,
                    log.calls(session@),
                    left,
                )
            },
{
    let ghost start = session@;
    let ghost made = conversed_by(read_header, read_body, write, madvise_page);
    let ghost mut rounds: Seq<Round> = Seq::empty();
    let mut at = surroundings;
    let mut current = session;
    proof {
        assert(session_at(start, 0) == start);
        lemma_no_call(made, at);
    }
    loop
        invariant
            forall|at: S| #[trigger] call_requires(read_header, (at,)),
            forall|at: S, len: usize| #[trigger] call_requires(read_body, (at, len)),
            forall|at: S, response: &[u8]| #[trigger] call_requires(write, (at, response)),
            forall|at: S, host_va: u64| #[trigger] call_requires(madvise_page, (at, host_va)),
            start == session@,
            made == conversed_by(read_header, read_body, write, madvise_page),
            start.expected_sequence + rounds.len() <= u64::MAX,
            current@ == session_at(start, rounds.len() as int),
            are_rounds(start, rounds),
            in_turn(made, surroundings, rounds_calls(start, rounds), at),
        decreases u64::MAX - current@.expected_sequence,
    {
        let ghost waiting = current@;
        let ghost before = at;
        let (after, next) = serve_request(
            at,
            current,
            &read_header,
            &read_body,
            &write,
            &madvise_page,
        );
        at = after;
        let ghost step = choose|step: Step|
            {
                &&& #[trigger] is_step(waiting, step)
                &&& in_turn(made, before, step_calls(waiting, step), after)
                &&& match next {
                    Some(next) => after_step(waiting, step) == Some(next@),
                    None => after_step(waiting, step) is None,
                }
            };
        proof {
            lemma_more_calls(
                made,
                surroundings,
                rounds_calls(start, rounds),
                before,
                step_calls(waiting, step),
                after,
            );
        }
        match next {
            Some(next) => {
                proof {
                    let round = step->Answered_0;
                    lemma_one_more_round(start, rounds, round);
                    lemma_are_rounds(start, rounds, round);
                    rounds = rounds.push(round);
                }
                current = next;
            },
            None => {
                proof {
                    lemma_conversation_has_ended(start, rounds, step);
                }
                return at;
            },
        }
    }
}

/// Whether these are the requests of a conversation that goes on.
spec fn are_rounds(session: SessionView, rounds: Seq<Round>) -> bool {
    forall|k: int|
        0 <= k < rounds.len() ==> (#[trigger] rounds[k]).written && is_round(
            session_at(session, k),
            rounds[k],
        )
}

proof fn lemma_are_rounds(session: SessionView, rounds: Seq<Round>, round: Round)
    requires
        are_rounds(session, rounds),
        round.written,
        is_round(session_at(session, rounds.len() as int), round),
    ensures
        are_rounds(session, rounds.push(round)),
{
}

/// A conversation that goes on no further came to some log.
proof fn lemma_conversation_has_ended(session: SessionView, rounds: Seq<Round>, step: Step)
    requires
        session.expected_sequence + rounds.len() <= u64::MAX,
        are_rounds(session, rounds),
        is_step(session_at(session, rounds.len() as int), step),
        after_step(session_at(session, rounds.len() as int), step) is None,
    ensures
        exists|log: Log|
            {
                &&& #[trigger] is_log(session, log)
                &&& log.calls(session) == rounds_calls(session, rounds) + step_calls(
                    session_at(session, rounds.len() as int),
                    step,
                )
            },
{
    match step {
        Step::Ended(end) => {
            let log = Log { rounds, end };
            assert(is_log(session, log));
        },
        Step::Answered(round) => {
            let end = if round.written {
                End::LastSequence
            } else {
                End::NotWritten
            };
            let all = rounds.push(round);
            let log = Log { rounds: all, end };
            lemma_one_more_round(session, rounds, round);
            assert forall|k: int| 0 <= k < all.len() implies {
                &&& is_round(session_at(session, k), #[trigger] all[k])
                &&& all[k].written == (k < all.len() - 1 || !(end is NotWritten))
            } by {
                if k < rounds.len() {
                    assert(all[k] == rounds[k]);
                }
            }
            assert(is_log(session, log));
            assert(log.calls(session) =~= rounds_calls(session, all));
        },
    }
}

} // verus!

//! Which calls a conversation makes, with what they are given.

use vstd::prelude::*;

use crate::conversation::{all_results, Answers};
use crate::cooperation::{CooperationSession, PendingBody, SessionView};
use crate::evict::{
    header_of, page_decision, pfns_of, response_bytes, PageDecision,
    COOP_EVICT_REQUEST_HEADER_BYTES,
};
use crate::laws::frames::{
    law_header_fields_are_at_their_places, law_header_is_refused_for_its_first_fault,
};
use crate::log::{
    drop_calls, end_calls, first_drop_calls, is_log, is_round, request_calls, round_calls,
    rounds_calls, session_at, Call, End, Log, Round,
};
use crate::service::{
    after_step, answer_request, conversed_by, cooperation_loop_with_madvise, dropped_by, is_step,
    serve_request, step_calls, Step,
};
use crate::turns::{
    in_turn, is_chain, lemma_no_call, lemma_one_more_call, lemma_state_between, Made,
};

verus! {

/// No call leaves the state as it is, and one call more leads on from where the others led.
pub proof fn law_calls_lead_from_state_to_state<S, C>(
    made: Made<S, C>,
    from: S,
    calls: Seq<C>,
    call: C,
    to: S,
)
    ensures
        in_turn(made, from, Seq::<C>::empty(), to) <==> from == to,
        in_turn(made, from, calls.push(call), to) <==> exists|before: S|
            {
                &&& #[trigger] in_turn(made, from, calls, before)
                &&& made(before, call, to)
            },
{
    lemma_no_call(made, from);
    if in_turn(made, from, Seq::<C>::empty(), to) {
        let states = choose|states: Seq<S>|
            {
                &&& #[trigger] is_chain(made, states, Seq::<C>::empty())
                &&& states[0] == from
                &&& states.last() == to
            };
        assert(states.len() == 1);
    }
    if in_turn(made, from, calls.push(call), to) {
        assert(calls.push(call) =~= calls + seq![call]);
        let before = lemma_state_between(made, from, calls, seq![call], to);
        let states = choose|states: Seq<S>|
            {
                &&& #[trigger] is_chain(made, states, seq![call])
                &&& states[0] == before
                &&& states.last() == to
            };
        assert(made(states[0], seq![call][0], states[1]));
        assert(in_turn(made, from, calls, before) && made(before, call, to));
    }
    if exists|before: S|
        {
            &&& #[trigger] in_turn(made, from, calls, before)
            &&& made(before, call, to)
        } {
        let before = choose|before: S|
            {
                &&& #[trigger] in_turn(made, from, calls, before)
                &&& made(before, call, to)
            };
        lemma_one_more_call(made, from, calls, before, call, to);
    }
}

/// Each call of a conversation is a call of the function for it, with the same bytes, length or
/// address, and the same answer.
pub proof fn law_conversation_calls_its_functions<
    S,
    H: Fn(S) -> (S, Option<[u8; COOP_EVICT_REQUEST_HEADER_BYTES]>),
    B: Fn(S, usize) -> (S, Option<Vec<u8>>),
    W: Fn(S, &[u8]) -> (S, bool),
    M: Fn(S, u64) -> (S, Result<(), i32>),
>(
    read_header: H,
    read_body: B,
    write: W,
    madvise_page: M,
    from: S,
    to: S,
    bytes: Seq<u8>,
    len: nat,
    host_va: u64,
    outcome: Result<(), i32>,
    written: bool,
)
    ensures
        ({
            let made = conversed_by(read_header, read_body, write, madvise_page);
            &&& made(from, Call::ReadHeader(None), to) <==> call_ensures(
                read_header,
                (from,),
                (to, None),
            )
            &&& made(from, Call::ReadHeader(Some(bytes)), to) <==> exists|
                header: [u8; COOP_EVICT_REQUEST_HEADER_BYTES],
            |
                {
                    &&& #[trigger] call_ensures(read_header, (from,), (to, Some(header)))
                    &&& header@ == bytes
                }
            &&& made(from, Call::ReadBody(len, None), to) <==> exists|asked: usize|
                {
                    &&& #[trigger] call_ensures(read_body, (from, asked), (to, None))
                    &&& asked == len
                }
            &&& made(from, Call::ReadBody(len, Some(bytes)), to) <==> exists|
                asked: usize,
                body: Vec<u8>,
            |
                {
                    &&& #[trigger] call_ensures(read_body, (from, asked), (to, Some(body)))
                    &&& asked == len
                    &&& body@ == bytes
                }
            &&& made(from, Call::Drop(host_va, outcome), to) <==> call_ensures(
                madvise_page,
                (from, host_va),
                (to, outcome),
            )
            &&& dropped_by(madvise_page)(from, Call::Drop(host_va, outcome), to) <==> call_ensures(
                madvise_page,
                (from, host_va),
                (to, outcome),
            )
            &&& !dropped_by(madvise_page)(from, Call::ReadHeader(None), to)
            &&& !dropped_by(madvise_page)(from, Call::Write(bytes, written), to)
            &&& made(from, Call::Write(bytes, written), to) <==> exists|response: &[u8]|
                {
                    &&& #[trigger] call_ensures(write, (from, response), (to, written))
                    &&& response@ == bytes
                }
        }),
{
}

/// Without page-frame numbers no page is dropped. One number more adds one call, after the others,
/// exactly if its page is to be dropped: at the address that was decided, with the answer for it.
pub proof fn law_each_number_adds_its_drop(
    session: SessionView,
    pfns: Seq<u64>,
    answers: Answers,
    pfn: u64,
)
    ensures
        drop_calls(session, Seq::empty(), answers).len() == 0,
        match page_decision(session.errnos, session.regions, pfn) {
            PageDecision::Advise(host_va) => {
                let calls = drop_calls(session, pfns.push(pfn), answers);
                &&& calls.len() == drop_calls(session, pfns, answers).len() + 1
                &&& calls.drop_last() == drop_calls(session, pfns, answers)
                &&& calls.last() == Call::Drop(
                    host_va,
                    answers(session.expected_sequence, pfns.len() as int),
                )
            },
            PageDecision::Settled(_) => drop_calls(session, pfns.push(pfn), answers) == drop_calls(
                session,
                pfns,
                answers,
            ),
        },
{
    lemma_first_numbers(session, pfns, answers, pfn, pfns.len() as int);
    let calls = drop_calls(session, pfns.push(pfn), answers);
    if page_decision(session.errnos, session.regions, pfn) is Advise {
        assert(calls.drop_last() =~= drop_calls(session, pfns, answers));
    }
}

proof fn lemma_first_numbers(
    session: SessionView,
    pfns: Seq<u64>,
    answers: Answers,
    pfn: u64,
    n: int,
)
    requires
        n <= pfns.len(),
    ensures
        first_drop_calls(session, pfns.push(pfn), answers, n) == first_drop_calls(
            session,
            pfns,
            answers,
            n,
        ),
    decreases n,
{
    if n > 0 {
        lemma_first_numbers(session, pfns, answers, pfn, n - 1);
    }
}

/// A later session of a conversation has the same regions and error numbers, and a sequence number
/// that is greater by the number of requests in between.
pub proof fn law_sequence_numbers_count_requests(session: SessionView, count: int)
    requires
        0 <= count,
        session.expected_sequence + count <= 0xffff_ffff_ffff_ffff,
    ensures
        session_at(session, count).regions == session.regions,
        session_at(session, count).errnos == session.errnos,
        session_at(session, count).expected_sequence == session.expected_sequence + count,
{
}

/// A request that is served has a header of sixteen bytes: 1, 2, two zeros, the expected sequence
/// number and a count of at most 65536, least significant byte first; and eight bytes of body for
/// each. It is answered with its sequence number, without an error of the frame, and with the
/// result of each of its page-frame numbers.
pub proof fn law_request_is_served_by_its_bytes(session: SessionView, round: Round)
    ensures
        is_round(session, round) <==> {
            let header = round.header;
            let sequence = header[4] + 256 * header[5] + 65_536 * header[6] + 16_777_216 * header[7]
                + 4_294_967_296 * header[8] + 1_099_511_627_776 * header[9] + 281_474_976_710_656
                * header[10] + 72_057_594_037_927_936 * header[11];
            let count = header[12] + 256 * header[13] + 65_536 * header[14] + 16_777_216
                * header[15];
            &&& header.len() == 16
            &&& header[0] == 1 && header[1] == 2 && header[2] == 0 && header[3] == 0
            &&& sequence == session.expected_sequence
            &&& count <= 65_536
            &&& round.body.len() == 8 * count
            &&& round.response == response_bytes(
                session.expected_sequence,
                0,
                all_results(session, pfns_of(round.body), round.answers),
            )
        },
{
    if round.header.len() == 16 {
        law_header_fields_are_at_their_places(round.header);
        law_header_is_refused_for_its_first_fault(
            session.errnos,
            header_of(round.header),
            session.expected_sequence,
        );
    }
}

/// The first request of a conversation is read, header and body, where it has one; then its pages
/// are dropped; then its response is written; and then the conversation goes on with the next
/// sequence number. It does not where that response could not be written, nor where there is no
/// such number.
pub proof fn law_conversation_starts_with_its_first_request(session: SessionView, log: Log)
    requires
        is_log(session, log),
        log.rounds.len() > 0,
    ensures
        ({
            let round = log.rounds[0];
            let rest = Log { rounds: log.rounds.drop_first(), end: log.end };
            let next = session_at(session, 1);
            let header = seq![Call::ReadHeader(Some(round.header))];
            let body = if round.body.len() > 0 {
                seq![Call::ReadBody(round.body.len(), Some(round.body))]
            } else {
                Seq::empty()
            };
            let drops = drop_calls(session, pfns_of(round.body), round.answers);
            let write = seq![Call::Write(round.response, round.written)];
            let goes_on = round.written && session.expected_sequence < 0xffff_ffff_ffff_ffff;
            &&& is_round(session, round)
            &&& goes_on ==> is_log(next, rest) && log.calls(session) == header + body + drops
                + write + rest.calls(next)
            &&& !goes_on ==> log.calls(session) == header + body + drops + write
        }),
{
    let round = log.rounds[0];
    let rest = Log { rounds: log.rounds.drop_first(), end: log.end };
    let next = session_at(session, 1);
    assert(session_at(session, 0) == session);
    lemma_request_comes_first(session, log);
    if round.written && session.expected_sequence < 0xffff_ffff_ffff_ffff {
        lemma_conversation_goes_on(session, log);
    } else {
        assert(rest.rounds =~= Seq::empty());
        let calls = log.calls(session);
        assert(rest.calls(next) =~= Seq::empty());
        assert(calls + Seq::empty() =~= calls);
        lemma_request_alone(session, round);
    }
}

/// The calls of the first request come before those of the others.
proof fn lemma_request_comes_first(session: SessionView, log: Log)
    requires
        log.rounds.len() > 0,
    ensures
        ({
            let round = log.rounds[0];
            let rest = Log { rounds: log.rounds.drop_first(), end: log.end };
            let header = seq![Call::ReadHeader(Some(round.header))];
            let body = if round.body.len() > 0 {
                seq![Call::ReadBody(round.body.len(), Some(round.body))]
            } else {
                Seq::empty()
            };
            let drops = drop_calls(session, pfns_of(round.body), round.answers);
            let write = seq![Call::Write(round.response, round.written)];
            log.calls(session) == header + body + drops + write + rest.calls(
                session_at(session, 1),
            )
        }),
{
    let rest = Log { rounds: log.rounds.drop_first(), end: log.end };
    let next = session_at(session, 1);
    let first = round_calls(session, log.rounds[0]);
    lemma_request_alone(session, log.rounds[0]);
    let others = rounds_calls(next, rest.rounds);
    assert(log.calls(session) == (first + others) + end_calls(log.end));
    assert((first + others) + end_calls(log.end) =~= first + (others + end_calls(log.end)));
}

proof fn lemma_request_alone(session: SessionView, round: Round)
    ensures
        ({
            let header = seq![Call::ReadHeader(Some(round.header))];
            let body = if round.body.len() > 0 {
                seq![Call::ReadBody(round.body.len(), Some(round.body))]
            } else {
                Seq::empty()
            };
            let drops = drop_calls(session, pfns_of(round.body), round.answers);
            let write = seq![Call::Write(round.response, round.written)];
            round_calls(session, round) == header + body + drops + write
        }),
{
    let header = seq![Call::ReadHeader(Some(round.header))];
    let body = if round.body.len() > 0 {
        seq![Call::ReadBody(round.body.len(), Some(round.body))]
    } else {
        Seq::empty()
    };
    let drops = drop_calls(session, pfns_of(round.body), round.answers);
    let call = Call::Write(round.response, round.written);
    assert(request_calls(round.header, round.body) =~= header + body);
    assert((header + body + drops).push(call) =~= header + body + drops + seq![call]);
}

/// After a request whose response was written, the rest is a conversation of the next session.
proof fn lemma_conversation_goes_on(session: SessionView, log: Log)
    requires
        is_log(session, log),
        log.rounds.len() > 0,
        log.rounds[0].written,
        session.expected_sequence < u64::MAX,
    ensures
        is_log(
            session_at(session, 1),
            Log { rounds: log.rounds.drop_first(), end: log.end },
        ),
{
    let rest = Log { rounds: log.rounds.drop_first(), end: log.end };
    let next = session_at(session, 1);
    let count = rest.rounds.len() as int;
    assert forall|k: int| 0 <= k < count implies is_round(
        session_at(next, k),
        #[trigger] rest.rounds[k],
    ) by {
        assert(rest.rounds[k] == log.rounds[k + 1]);
        assert(session_at(next, k) == session_at(session, k + 1));
    }
    assert forall|k: int| 0 <= k < count implies (#[trigger] rest.rounds[k]).written == (k < count
        - 1 || !(rest.end is NotWritten)) by {
        assert(rest.rounds[k] == log.rounds[k + 1]);
    }
    if !(rest.end is NotWritten || rest.end is LastSequence) {
        assert(session_at(next, count) == session_at(session, count + 1));
    }
}

/// A conversation without a request that is served ends with one that is not: there is no header;
/// or a header that is at fault, which is answered with its own sequence number, the error of its
/// first fault and no results; or a header whose body is asked for, eight bytes for each page-frame
/// number that it announces, and is not read whole. Nothing follows, and no page is dropped.
pub proof fn law_conversation_ends_with_what_is_not_served(session: SessionView, log: Log)
    requires
        is_log(session, log),
        log.rounds.len() == 0,
    ensures
        ({
            let calls = log.calls(session);
            let errnos = session.errnos;
            &&& calls[0] matches Call::ReadHeader(answer)
            &&& match answer {
                None => calls.len() == 1,
                Some(header) => {
                    let sequence = header[4] + 256 * header[5] + 65_536 * header[6] + 16_777_216
                        * header[7] + 4_294_967_296 * header[8] + 1_099_511_627_776 * header[9]
                        + 281_474_976_710_656 * header[10] + 72_057_594_037_927_936 * header[11];
                    let count = header[12] + 256 * header[13] + 65_536 * header[14] + 16_777_216
                        * header[15];
                    let in_order = header[2] == 0 && header[3] == 0 && sequence
                        == session.expected_sequence;
                    &&& header.len() == 16
                    &&& calls.len() == 2
                    &&& if header[0] == 1 && header[1] == 2 && in_order && count <= 65_536 {
                        &&& calls[1] matches Call::ReadBody(len, body)
                        &&& count > 0
                        &&& len == 8 * count
                        &&& body matches Some(read) ==> read.len() != 8 * count
                    } else {
                        let errno = if header[0] != 1 {
                            errnos.eopnotsupp
                        } else if header[1] != 2 {
                            errnos.eprotonosupport
                        } else if !in_order {
                            errnos.eproto
                        } else {
                            errnos.e2big
                        };
                        &&& calls[1] matches Call::Write(response, _)
                        &&& response == response_bytes(sequence as u64, errno, Seq::empty())
                    }
                },
            }
        }),
{
    assert(session_at(session, 0) == session);
    let calls = log.calls(session);
    assert(calls =~= end_calls(log.end));
    match log.end {
        End::Rejected(header, _, _) => {
            law_header_fields_are_at_their_places(header);
            law_header_is_refused_for_its_first_fault(
                session.errnos,
                header_of(header),
                session.expected_sequence,
            );
        },
        End::NoBody(header, _) => {
            law_header_fields_are_at_their_places(header);
            law_header_is_refused_for_its_first_fault(
                session.errnos,
                header_of(header),
                session.expected_sequence,
            );
        },
        _ => {},
    }
}

/// A step that serves a request reads it, header and body, where it has one, drops its pages and
/// writes its response. The session goes on with the next sequence number where that was written,
/// and there is one.
pub proof fn law_step_serves_one_request(session: SessionView, round: Round)
    requires
        is_step(session, Step::Answered(round)),
    ensures
        ({
            let step = Step::Answered(round);
            let header = seq![Call::ReadHeader(Some(round.header))];
            let body = if round.body.len() > 0 {
                seq![Call::ReadBody(round.body.len(), Some(round.body))]
            } else {
                Seq::empty()
            };
            let drops = drop_calls(session, pfns_of(round.body), round.answers);
            let write = seq![Call::Write(round.response, round.written)];
            &&& is_round(session, round)
            &&& step_calls(session, step) == header + body + drops + write
            &&& match after_step(session, step) {
                Some(next) => {
                    &&& round.written
                    &&& next.expected_sequence == session.expected_sequence + 1
                    &&& next.regions == session.regions
                    &&& next.errnos == session.errnos
                },
                None => !round.written || session.expected_sequence == 0xffff_ffff_ffff_ffff,
            }
        }),
{
    lemma_request_alone(session, round);
}

/// A step that serves no request makes the calls of a conversation that ends with it, and the
/// session does not go on.
pub proof fn law_step_ends_the_conversation(session: SessionView, end: End)
    requires
        is_step(session, Step::Ended(end)),
    ensures
        ({
            let log = Log { rounds: Seq::empty(), end };
            &&& is_log(session, log)
            &&& step_calls(session, Step::Ended(end)) == log.calls(session)
            &&& after_step(session, Step::Ended(end)) is None
        }),
{
    let log = Log { rounds: Seq::empty(), end };
    assert(session_at(session, 0) == session);
    assert(log.calls(session) =~= step_calls(session, Step::Ended(end)));
}

/// Answering a request drops its pages, one after another, and makes no other call. The response
/// has the expected sequence number, no error of the frame, and the result of each page-frame
/// number. The session goes on with the next sequence number, where there is one.
pub proof fn law_request_is_answered<S, M: Fn(S, u64) -> (S, Result<(), i32>)>(
    surroundings: S,
    pending: PendingBody,
    body: &[u8],
    madvise_page: &M,
    done: (S, Vec<u8>, Option<CooperationSession>),
)
    requires
        body@.len() == 8 * pending@.count,
        call_ensures(answer_request::<S, M>, (surroundings, pending, body, madvise_page), done),
    ensures
        exists|answers: Answers|
            {
                let session = pending@.session;
                &&& in_turn(
                    dropped_by(*madvise_page),
                    surroundings,
                    #[trigger] drop_calls(pending@.session, pfns_of(body@), answers),
                    done.0,
                )
                &&& done.1@ == response_bytes(
                    session.expected_sequence,
                    0,
                    all_results(session, pfns_of(body@), answers),
                )
            },
        match done.2 {
            Some(next) => {
                &&& next@.expected_sequence == pending@.session.expected_sequence + 1
                &&& next@.regions == pending@.session.regions
                &&& next@.errnos == pending@.session.errnos
            },
            None => pending@.session.expected_sequence == 0xffff_ffff_ffff_ffff,
        },
{
}

/// Serving a request makes the calls of one step of the conversation, and no others, and gives back
/// the session that goes on after it.
pub proof fn law_one_step_is_taken<
    S,
    H: Fn(S) -> (S, Option<[u8; COOP_EVICT_REQUEST_HEADER_BYTES]>),
    B: Fn(S, usize) -> (S, Option<Vec<u8>>),
    W: Fn(S, &[u8]) -> (S, bool),
    M: Fn(S, u64) -> (S, Result<(), i32>),
>(
    surroundings: S,
    session: CooperationSession,
    read_header: &H,
    read_body: &B,
    write: &W,
    madvise_page: &M,
    done: (S, Option<CooperationSession>),
)
    requires
        call_ensures(
            serve_request::<S, H, B, W, M>,
            (surroundings, session, read_header, read_body, write, madvise_page),
            done,
        ),
    ensures
        exists|step: Step|
            {
                &&& #[trigger] is_step(session@, step)
                &&& in_turn(
                    conversed_by(*read_header, *read_body, *write, *madvise_page),
                    surroundings,
                    step_calls(session@, step),
                    done.0,
                )
                &&& match done.1 {
                    Some(next) => after_step(session@, step) == Some(next@),
                    None => after_step(session@, step) is None,
                }
            },
{
}

/// Holding a conversation makes its calls, from the first request to its end, and no others.
pub proof fn law_conversation_is_held<
    S,
    H: Fn(S) -> (S, Option<[u8; COOP_EVICT_REQUEST_HEADER_BYTES]>),
    B: Fn(S, usize) -> (S, Option<Vec<u8>>),
    W: Fn(S, &[u8]) -> (S, bool),
    M: Fn(S, u64) -> (S, Result<(), i32>),
>(
    surroundings: S,
    session: CooperationSession,
    read_header: H,
    read_body: B,
    write: W,
    madvise_page: M,
    left: S,
)
    requires
        call_ensures(
            cooperation_loop_with_madvise::<S, H, B, W, M>,
            (surroundings, session, read_header, read_body, write, madvise_page),
            left,
        ),
    ensures
        exists|log: Log|
            {
                &&& #[trigger] is_log(session@, log)
                &&& in_turn(
                    conversed_by(read_header, read_body, write, madvise_page),
                    surroundings,
                    log.calls(session@),
                    left,
                )
            },
{
}

} // verus!

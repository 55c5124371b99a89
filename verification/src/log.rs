//! The calls of a conversation: which are made, in which order, and with which answers.

use vstd::prelude::*;

use crate::conversation::{
    all_drops, all_results, law_every_page_is_answered, law_evictable_pages_are_dropped_once,
    lemma_concat_is_associative, lemma_followed_by_is_associative, transcript, Answers, Transcript,
};
use crate::cooperation::{next_session, SessionView};
use crate::evict::{
    header_fault, header_of, page_decision, pfns_of, response_bytes, PageDecision,
    COOP_EVICT_REQUEST_HEADER_BYTES, COOP_PFN_BYTES,
};

verus! {

/// A call that a conversation makes, with its answer.
pub ghost enum Call {
    /// A header is read, if there is one.
    ReadHeader(Option<Seq<u8>>),
    /// So many bytes of body are asked for, and these are read, if any.
    ReadBody(nat, Option<Seq<u8>>),
    /// The page at this address is dropped.
    Drop(u64, Result<(), i32>),
    /// These bytes are written, or cannot be.
    Write(Seq<u8>, bool),
}

/// The bytes that a call reads, as they were asked for.
pub open spec fn read_by(call: Call) -> Seq<u8> {
    match call {
        Call::ReadHeader(Some(header)) => header,
        Call::ReadBody(len, Some(body)) if body.len() == len => body,
        _ => Seq::empty(),
    }
}

/// What a call hands over to be written, and which page it drops.
pub open spec fn done_by(call: Call) -> Transcript {
    match call {
        Call::Drop(host_va, _) => Transcript { written: Seq::empty(), dropped: seq![host_va] },
        Call::Write(bytes, _) => Transcript { written: bytes, dropped: Seq::empty() },
        _ => Transcript::nothing(),
    }
}

/// The bytes that calls read, as they were asked for.
pub open spec fn read_in(calls: Seq<Call>) -> Seq<u8>
    decreases calls.len(),
{
    if calls.len() == 0 {
        Seq::empty()
    } else {
        read_in(calls.drop_last()) + read_by(calls.last())
    }
}

/// The bytes that calls hand over to be written, and the addresses of the pages that they drop.
pub open spec fn done_in(calls: Seq<Call>) -> Transcript
    decreases calls.len(),
{
    if calls.len() == 0 {
        Transcript::nothing()
    } else {
        done_in(calls.drop_last()).followed_by(done_by(calls.last()))
    }
}

pub(crate) proof fn lemma_nothing_more(done: Transcript)
    ensures
        done.followed_by(Transcript::nothing()) == done,
        Transcript::nothing().followed_by(done) == done,
{
    assert(done.written + Seq::empty() =~= done.written);
    assert(done.dropped + Seq::empty() =~= done.dropped);
    assert(Seq::empty() + done.written =~= done.written);
    assert(Seq::empty() + done.dropped =~= done.dropped);
}

pub(crate) proof fn lemma_calls_and_others(calls: Seq<Call>, others: Seq<Call>)
    ensures
        read_in(calls + others) == read_in(calls) + read_in(others),
        done_in(calls + others) == done_in(calls).followed_by(done_in(others)),
    decreases others.len(),
{
    if others.len() == 0 {
        assert(calls + others =~= calls);
        assert(read_in(calls) + Seq::empty() =~= read_in(calls));
        lemma_nothing_more(done_in(calls));
    } else {
        let all = calls + others;
        assert(all.drop_last() =~= calls + others.drop_last());
        lemma_calls_and_others(calls, others.drop_last());
        lemma_concat_is_associative(
            read_in(calls),
            read_in(others.drop_last()),
            read_by(others.last()),
        );
        lemma_followed_by_is_associative(
            done_in(calls),
            done_in(others.drop_last()),
            done_by(others.last()),
        );
    }
}

/// What one call adds.
pub(crate) proof fn lemma_single_call(call: Call)
    ensures
        read_in(seq![call]) == read_by(call),
        done_in(seq![call]) == done_by(call),
{
    assert(seq![call].drop_last() =~= Seq::empty());
    assert(read_in(Seq::empty()) =~= Seq::empty());
    assert(Seq::empty() + read_by(call) =~= read_by(call));
    assert(done_in(Seq::empty()) == Transcript::nothing());
    lemma_nothing_more(done_by(call));
}

/// The calls that drop the pages which the first `n` page-frame numbers of a request have evicted,
/// in their order.
pub open spec fn first_drop_calls(
    session: SessionView,
    pfns: Seq<u64>,
    answers: Answers,
    n: int,
) -> Seq<Call>
    decreases n,
{
    if n <= 0 {
        Seq::empty()
    } else {
        let earlier = first_drop_calls(session, pfns, answers, n - 1);
        match page_decision(session.errnos, session.regions, pfns[n - 1]) {
            PageDecision::Advise(host_va) => earlier.push(
                Call::Drop(host_va, answers(session.expected_sequence, n - 1)),
            ),
            PageDecision::Settled(_) => earlier,
        }
    }
}

/// The calls that drop the pages of a request.
pub open spec fn drop_calls(session: SessionView, pfns: Seq<u64>, answers: Answers) -> Seq<Call> {
    first_drop_calls(session, pfns, answers, pfns.len() as int)
}

/// Page-frame numbers that need no page to be dropped add no call.
pub(crate) proof fn lemma_settled_add_no_call(
    session: SessionView,
    pfns: Seq<u64>,
    answers: Answers,
    from: int,
    to: int,
)
    requires
        0 <= from <= to <= pfns.len(),
        forall|i: int|
            from <= i < to ==> page_decision(
                session.errnos,
                session.regions,
                #[trigger] pfns[i],
            ) is Settled,
    ensures
        first_drop_calls(session, pfns, answers, to) == first_drop_calls(
            session,
            pfns,
            answers,
            from,
        ),
    decreases to - from,
{
    if from < to {
        assert(page_decision(session.errnos, session.regions, pfns[to - 1]) is Settled);
        lemma_settled_add_no_call(session, pfns, answers, from, to - 1);
    }
}

/// What dropping one page comes to changes nothing about the calls before it.
pub(crate) proof fn lemma_first_drop_calls(
    session: SessionView,
    pfns: Seq<u64>,
    answers: Answers,
    others: Answers,
    n: int,
)
    requires
        forall|i: int|
            0 <= i < n ==> #[trigger] answers(session.expected_sequence, i) == others(
                session.expected_sequence,
                i,
            ),
    ensures
        first_drop_calls(session, pfns, answers, n) == first_drop_calls(session, pfns, others, n),
    decreases n,
{
    if n > 0 {
        assert(answers(session.expected_sequence, n - 1) == others(
            session.expected_sequence,
            n - 1,
        ));
        lemma_first_drop_calls(session, pfns, answers, others, n - 1);
    }
}

proof fn lemma_one_more_drop(session: SessionView, pfns: Seq<u64>, pfn: u64)
    ensures
        all_drops(session, pfns.push(pfn)) == (match page_decision(
            session.errnos,
            session.regions,
            pfn,
        ) {
            PageDecision::Advise(host_va) => all_drops(session, pfns).push(host_va),
            PageDecision::Settled(_) => all_drops(session, pfns),
        }),
    decreases pfns.len(),
{
    let all = pfns.push(pfn);
    if pfns.len() == 0 {
        assert(all.drop_first() =~= Seq::empty());
        assert(all_drops(session, all.drop_first()) =~= Seq::empty());
        if let PageDecision::Advise(host_va) = page_decision(
            session.errnos,
            session.regions,
            pfn,
        ) {
            assert(all_drops(session, all) =~= all_drops(session, pfns).push(host_va));
        }
    } else {
        assert(all.drop_first() =~= pfns.drop_first().push(pfn));
        lemma_one_more_drop(session, pfns.drop_first(), pfn);
        let rest = all_drops(session, pfns.drop_first());
        if let PageDecision::Advise(first) = page_decision(
            session.errnos,
            session.regions,
            pfns[0],
        ) {
            if let PageDecision::Advise(host_va) = page_decision(
                session.errnos,
                session.regions,
                pfn,
            ) {
                assert(seq![first] + rest.push(host_va) =~= (seq![first] + rest).push(host_va));
            }
        }
    }
}

/// The calls that drop pages drop those that are to be dropped, and do nothing else.
proof fn lemma_drop_calls_drop(session: SessionView, pfns: Seq<u64>, answers: Answers, n: int)
    requires
        0 <= n <= pfns.len(),
    ensures
        read_in(first_drop_calls(session, pfns, answers, n)) == Seq::<u8>::empty(),
        done_in(first_drop_calls(session, pfns, answers, n)) == (Transcript {
            written: Seq::empty(),
            dropped: all_drops(session, pfns.take(n)),
        }),
    decreases n,
{
    if n > 0 {
        let earlier = first_drop_calls(session, pfns, answers, n - 1);
        lemma_drop_calls_drop(session, pfns, answers, n - 1);
        assert(pfns.take(n) =~= pfns.take(n - 1).push(pfns[n - 1]));
        lemma_one_more_drop(session, pfns.take(n - 1), pfns[n - 1]);
        if let PageDecision::Advise(host_va) = page_decision(
            session.errnos,
            session.regions,
            pfns[n - 1],
        ) {
            let call = Call::Drop(host_va, answers(session.expected_sequence, n - 1));
            assert(earlier.push(call).drop_last() =~= earlier);
            let dropped = all_drops(session, pfns.take(n - 1));
            assert(dropped + seq![host_va] =~= dropped.push(host_va));
            assert(Seq::<u8>::empty() + Seq::<u8>::empty() =~= Seq::<u8>::empty());
        }
    } else {
        assert(pfns.take(0) =~= Seq::empty());
        assert(all_drops(session, pfns.take(0)) =~= Seq::empty());
    }
}

/// A request that was received whole: its header, its body, what dropping its pages came to, the
/// response, and whether that was written.
pub ghost struct Round {
    pub header: Seq<u8>,
    pub body: Seq<u8>,
    pub answers: Answers,
    pub response: Seq<u8>,
    pub written: bool,
}

/// The calls that read a request. An empty body is not asked for.
pub open spec fn request_calls(header: Seq<u8>, body: Seq<u8>) -> Seq<Call> {
    if body.len() == 0 {
        seq![Call::ReadHeader(Some(header))]
    } else {
        seq![Call::ReadHeader(Some(header)), Call::ReadBody(body.len(), Some(body))]
    }
}

/// The calls of a request: it is read, its pages are dropped, and one response is written.
pub open spec fn round_calls(session: SessionView, round: Round) -> Seq<Call> {
    (request_calls(round.header, round.body) + drop_calls(
        session,
        pfns_of(round.body),
        round.answers,
    )).push(Call::Write(round.response, round.written))
}

/// Whether a request carries what the session expects, and is answered with one result for each of
/// its page-frame numbers.
pub open spec fn is_round(session: SessionView, round: Round) -> bool {
    let header = header_of(round.header);
    &&& round.header.len() == COOP_EVICT_REQUEST_HEADER_BYTES
    &&& header_fault(session.errnos, header, session.expected_sequence) is None
    &&& round.body.len() == header.count * COOP_PFN_BYTES
    &&& round.response == response_bytes(
        session.expected_sequence,
        0,
        all_results(session, pfns_of(round.body), round.answers),
    )
}

/// Why a conversation ended.
pub ghost enum End {
    /// There was no further header.
    NoHeader,
    /// This header was rejected with this response, which was written or not.
    Rejected(Seq<u8>, Seq<u8>, bool),
    /// The body that this header announced was missing; what was read in its place, if anything,
    /// had another length.
    NoBody(Seq<u8>, Option<Seq<u8>>),
    /// The response to the last request could not be written.
    NotWritten,
    /// There is no sequence number after that of the last request.
    LastSequence,
}

/// The calls after the last request that was received whole.
pub open spec fn end_calls(end: End) -> Seq<Call> {
    match end {
        End::NoHeader => seq![Call::ReadHeader(None)],
        End::Rejected(header, response, written) => seq![
            Call::ReadHeader(Some(header)),
            Call::Write(response, written),
        ],
        End::NoBody(header, body) => seq![
            Call::ReadHeader(Some(header)),
            Call::ReadBody((header_of(header).count * COOP_PFN_BYTES) as nat, body),
        ],
        End::NotWritten => Seq::empty(),
        End::LastSequence => Seq::empty(),
    }
}

/// Whether a session that waits for a header ends so.
pub open spec fn is_end(session: SessionView, end: End) -> bool {
    match end {
        End::Rejected(bytes, response, _) => {
            let header = header_of(bytes);
            &&& bytes.len() == COOP_EVICT_REQUEST_HEADER_BYTES
            &&& header_fault(session.errnos, header, session.expected_sequence) matches Some(errno)
                && response == response_bytes(header.sequence, errno, Seq::empty())
        },
        End::NoBody(bytes, body) => {
            let header = header_of(bytes);
            &&& bytes.len() == COOP_EVICT_REQUEST_HEADER_BYTES
            &&& header_fault(session.errnos, header, session.expected_sequence) is None
            &&& header.count > 0
            &&& body matches Some(read) ==> read.len() != header.count * COOP_PFN_BYTES
        },
        _ => true,
    }
}

/// A conversation: the requests that were received whole, and why it ended.
pub ghost struct Log {
    pub rounds: Seq<Round>,
    pub end: End,
}

/// The session after some number of requests.
pub open spec fn session_at(session: SessionView, count: int) -> SessionView {
    SessionView { expected_sequence: (session.expected_sequence + count) as u64, ..session }
}

/// The calls of several requests, counted from that of the session on.
pub open spec fn rounds_calls(session: SessionView, rounds: Seq<Round>) -> Seq<Call>
    decreases rounds.len(),
{
    if rounds.len() == 0 {
        Seq::empty()
    } else {
        round_calls(session, rounds[0]) + rounds_calls(
            session_at(session, 1),
            rounds.drop_first(),
        )
    }
}

impl Log {
    /// All calls of the conversation, in their order.
    pub open spec fn calls(self, session: SessionView) -> Seq<Call> {
        rounds_calls(session, self.rounds) + end_calls(self.end)
    }

    /// What dropping the pages came to, where the first request has this sequence number.
    pub open spec fn answers(self, first: u64) -> Answers {
        |sequence: u64, i: int| (self.rounds[sequence - first].answers)(sequence, i)
    }
}

/// Whether this is what a conversation of the session can come to: each request carries the next
/// sequence number, each response but perhaps the last was written, and it ended for a reason.
pub open spec fn is_log(session: SessionView, log: Log) -> bool {
    let count = log.rounds.len() as int;
    &&& forall|k: int|
        0 <= k < count ==> is_round(session_at(session, k), #[trigger] log.rounds[k])
    &&& forall|k: int|
        0 <= k < count ==> (#[trigger] log.rounds[k]).written == (k < count - 1 || !(
        log.end is NotWritten))
    &&& is_end(session_at(session, count), log.end)
    &&& match log.end {
        End::LastSequence => session.expected_sequence + count == u64::MAX + 1,
        End::NotWritten => 0 < count <= u64::MAX + 1 - session.expected_sequence,
        _ => session.expected_sequence + count <= u64::MAX,
    }
}

/// Several requests, and one more.
pub(crate) proof fn lemma_one_more_round(session: SessionView, rounds: Seq<Round>, round: Round)
    requires
        session.expected_sequence + rounds.len() <= u64::MAX,
    ensures
        rounds_calls(session, rounds.push(round)) == rounds_calls(session, rounds) + round_calls(
            session_at(session, rounds.len() as int),
            round,
        ),
    decreases rounds.len(),
{
    let all = rounds.push(round);
    if rounds.len() == 0 {
        assert(all.drop_first() =~= Seq::empty());
        assert(rounds_calls(session_at(session, 1), Seq::empty()) =~= Seq::empty());
        assert(session_at(session, 0) == session);
        let calls = round_calls(session, round);
        assert(calls + Seq::empty() =~= calls);
        assert(Seq::empty() + calls =~= calls);
    } else {
        let next = session_at(session, 1);
        let tail = rounds.drop_first();
        assert(all.drop_first() =~= tail.push(round));
        lemma_one_more_round(next, tail, round);
        assert(session_at(next, tail.len() as int) == session_at(session, rounds.len() as int));
        let first = round_calls(session, rounds[0]);
        let rest = rounds_calls(next, tail);
        let last = round_calls(session_at(session, rounds.len() as int), round);
        assert(first + (rest + last) =~= (first + rest) + last);
    }
}

/// What the calls of a request read and do.
pub(crate) proof fn lemma_round_calls(session: SessionView, round: Round)
    ensures
        read_in(round_calls(session, round)) == round.header + round.body,
        done_in(round_calls(session, round)) == (Transcript {
            written: round.response,
            dropped: all_drops(session, pfns_of(round.body)),
        }),
{
    let pfns = pfns_of(round.body);
    let request = request_calls(round.header, round.body);
    let drops = drop_calls(session, pfns, round.answers);
    let write = seq![Call::Write(round.response, round.written)];
    let header = seq![Call::ReadHeader(Some(round.header))];
    lemma_single_call(header[0]);
    lemma_single_call(write[0]);
    if round.body.len() > 0 {
        let body = seq![Call::ReadBody(round.body.len(), Some(round.body))];
        lemma_single_call(body[0]);
        lemma_calls_and_others(header, body);
        assert(header + body =~= request);
    } else {
        assert(round.header + round.body =~= round.header);
    }
    lemma_nothing_more(Transcript::nothing());
    lemma_drop_calls_drop(session, pfns, round.answers, pfns.len() as int);
    assert(pfns.take(pfns.len() as int) =~= pfns);
    lemma_calls_and_others(request, drops);
    lemma_calls_and_others(request + drops, write);
    assert((request + drops) + write =~= round_calls(session, round));
    let dropped = all_drops(session, pfns);
    let read = round.header + round.body;
    assert((read + Seq::empty()) + Seq::empty() =~= read);
    assert((Seq::empty() + Seq::empty()) + round.response =~= round.response);
    assert((Seq::empty() + dropped) + Seq::empty() =~= dropped);
}

/// Whether two accounts of what dropping the pages of a request came to are the same.
pub open spec fn agree(answers: Answers, others: Answers, sequence: u64) -> bool {
    forall|i: int| #[trigger] answers(sequence, i) == others(sequence, i)
}

/// What a session reads of a request, and of what follows it.
pub(crate) proof fn lemma_round_is_at_the_start(round: Round, rest: Seq<u8>)
    requires
        round.header.len() == COOP_EVICT_REQUEST_HEADER_BYTES,
    ensures
        ({
            let input = (round.header + round.body) + rest;
            let end = (COOP_EVICT_REQUEST_HEADER_BYTES + round.body.len()) as int;
            &&& end <= input.len()
            &&& header_of(input) == header_of(round.header)
            &&& input.subrange(COOP_EVICT_REQUEST_HEADER_BYTES as int, end) == round.body
            &&& input.skip(end) == rest
        }),
{
    let input = (round.header + round.body) + rest;
    let end = (COOP_EVICT_REQUEST_HEADER_BYTES + round.body.len()) as int;
    assert(input.take(COOP_EVICT_REQUEST_HEADER_BYTES as int) =~= round.header);
    lemma_header_is_at_the_start(input);
    assert(input.subrange(COOP_EVICT_REQUEST_HEADER_BYTES as int, end) =~= round.body);
    assert(input.skip(end) =~= rest);
}

proof fn lemma_round_follows_its_transcript(
    session: SessionView,
    round: Round,
    rest: Seq<u8>,
    answers: Answers,
)
    requires
        is_round(session, round),
        agree(round.answers, answers, session.expected_sequence),
    ensures
        transcript(session, (round.header + round.body) + rest, answers) == (Transcript {
            written: round.response,
            dropped: all_drops(session, pfns_of(round.body)),
        }).followed_by(
            match next_session(session) {
                Some(next) => transcript(next, rest, answers),
                None => Transcript::nothing(),
            },
        ),
{
    let pfns = pfns_of(round.body);
    lemma_round_is_at_the_start(round, rest);
    law_every_page_is_answered(session, pfns, answers);
    law_evictable_pages_are_dropped_once(session, pfns, answers);
    assert(all_results(session, pfns, round.answers) =~= all_results(session, pfns, answers));
    reveal(transcript);
}

/// A header is read from the first bytes alone.
pub(crate) proof fn lemma_header_is_at_the_start(input: Seq<u8>)
    requires
        input.len() >= COOP_EVICT_REQUEST_HEADER_BYTES,
    ensures
        header_of(input.take(COOP_EVICT_REQUEST_HEADER_BYTES as int)) == header_of(input),
{
}

proof fn lemma_rounds_follow_their_transcript(
    session: SessionView,
    rounds: Seq<Round>,
    rest: Seq<u8>,
    answers: Answers,
)
    requires
        session.expected_sequence + rounds.len() <= u64::MAX + 1,
        forall|k: int|
            0 <= k < rounds.len() ==> {
                let at = session_at(session, k);
                &&& is_round(at, #[trigger] rounds[k])
                &&& agree(rounds[k].answers, answers, at.expected_sequence)
            },
    ensures
        transcript(session, read_in(rounds_calls(session, rounds)) + rest, answers) == done_in(
            rounds_calls(session, rounds),
        ).followed_by(
            if session.expected_sequence + rounds.len() <= u64::MAX {
                transcript(session_at(session, rounds.len() as int), rest, answers)
            } else {
                Transcript::nothing()
            },
        ),
    decreases rounds.len(),
{
    assert(session_at(session, 0) == session);
    if rounds.len() == 0 {
        assert(Seq::<u8>::empty() + rest =~= rest);
        lemma_nothing_more(transcript(session, rest, answers));
    } else {
        let tail = rounds.drop_first();
        let next = session_at(session, 1);
        let first = round_calls(session, rounds[0]);
        let others = rounds_calls(next, tail);
        lemma_round_calls(session, rounds[0]);
        lemma_calls_and_others(first, others);
        lemma_concat_is_associative(read_in(first), read_in(others), rest);
        lemma_round_follows_its_transcript(session, rounds[0], read_in(others) + rest, answers);
        if session.expected_sequence < u64::MAX {
            assert forall|k: int| 0 <= k < tail.len() implies {
                let at = session_at(next, k);
                &&& is_round(at, #[trigger] tail[k])
                &&& agree(tail[k].answers, answers, at.expected_sequence)
            } by {
                assert(tail[k] == rounds[k + 1]);
                assert(session_at(next, k) == session_at(session, k + 1));
            }
            lemma_rounds_follow_their_transcript(next, tail, rest, answers);
            let after = if session.expected_sequence + rounds.len() <= u64::MAX {
                transcript(session_at(session, rounds.len() as int), rest, answers)
            } else {
                Transcript::nothing()
            };
            assert(session_at(next, tail.len() as int) == session_at(session, rounds.len() as int));
            lemma_followed_by_is_associative(done_in(first), done_in(others), after);
        } else {
            assert(tail =~= Seq::empty());
            lemma_nothing_more(done_in(first));
        }
    }
}

/// What a conversation does is what the session does for a peer that sends what was read, whatever
/// answers are taken for requests that were not received.
proof fn lemma_log_follows_transcript(session: SessionView, log: Log, answers: Answers)
    requires
        is_log(session, log),
        forall|k: int|
            0 <= k < log.rounds.len() ==> agree(
                (#[trigger] log.rounds[k]).answers,
                answers,
                session_at(session, k).expected_sequence,
            ),
    ensures
        transcript(session, read_in(log.calls(session)), answers) == done_in(log.calls(session)),
{
    let count = log.rounds.len() as int;
    let next = session_at(session, count);
    let rounds = rounds_calls(session, log.rounds);
    let end = end_calls(log.end);
    lemma_calls_and_others(rounds, end);
    lemma_rounds_follow_their_transcript(session, log.rounds, read_in(end), answers);
    lemma_nothing_more(Transcript::nothing());
    match log.end {
        End::NoHeader => {
            lemma_single_call(end[0]);
            assert(end =~= seq![end[0]]);
        },
        End::Rejected(_, response, _) => {
            lemma_single_call(end[0]);
            lemma_single_call(end[1]);
            lemma_calls_and_others(seq![end[0]], seq![end[1]]);
            assert(seq![end[0]] + seq![end[1]] =~= end);
            lemma_nothing_more(Transcript { written: response, dropped: Seq::empty() });
            assert(read_in(seq![end[0]]) + Seq::empty() =~= read_in(seq![end[0]]));
        },
        End::NoBody(_, _) => {
            lemma_single_call(end[0]);
            lemma_single_call(end[1]);
            lemma_calls_and_others(seq![end[0]], seq![end[1]]);
            assert(seq![end[0]] + seq![end[1]] =~= end);
            assert(read_in(seq![end[0]]) + Seq::empty() =~= read_in(seq![end[0]]));
        },
        _ => {},
    }
    reveal(transcript);
    if session.expected_sequence + count <= u64::MAX {
        assert(transcript(next, read_in(end), answers) == done_in(end));
    }
}

/// What a conversation does is what its session does for a peer that sends what was read.
pub proof fn law_conversation_follows_its_transcript(session: SessionView, log: Log)
    requires
        is_log(session, log),
    ensures
        ({
            let calls = log.calls(session);
            let answers = log.answers(session.expected_sequence);
            transcript(session, read_in(calls), answers) == done_in(calls)
        }),
{
    let answers = log.answers(session.expected_sequence);
    assert forall|k: int| 0 <= k < log.rounds.len() implies agree(
        (#[trigger] log.rounds[k]).answers,
        answers,
        session_at(session, k).expected_sequence,
    ) by {}
    lemma_log_follows_transcript(session, log, answers);
}

/// The same bytes give the same conversation: where two of them read the same, and dropping a page
/// comes to the same in both, they write the same and drop the same pages in the same order.
pub proof fn law_same_bytes_give_the_same_conversation(session: SessionView, log: Log, other: Log)
    requires
        is_log(session, log),
        is_log(session, other),
        read_in(log.calls(session)) == read_in(other.calls(session)),
        forall|k: int|
            0 <= k < log.rounds.len() && k < other.rounds.len() ==> agree(
                (#[trigger] log.rounds[k]).answers,
                other.rounds[k].answers,
                session_at(session, k).expected_sequence,
            ),
    ensures
        done_in(log.calls(session)) == done_in(other.calls(session)),
{
    let first = session.expected_sequence;
    let answers: Answers = |sequence: u64, i: int|
        if sequence - first < log.rounds.len() {
            log.answers(first)(sequence, i)
        } else {
            other.answers(first)(sequence, i)
        };
    assert forall|k: int| 0 <= k < log.rounds.len() implies agree(
        (#[trigger] log.rounds[k]).answers,
        answers,
        session_at(session, k).expected_sequence,
    ) by {}
    assert forall|k: int| 0 <= k < other.rounds.len() implies agree(
        (#[trigger] other.rounds[k]).answers,
        answers,
        session_at(session, k).expected_sequence,
    ) by {
        if k < log.rounds.len() {
            let sequence = session_at(session, k).expected_sequence;
            let one = log.rounds[k];
            assert(agree(one.answers, other.rounds[k].answers, sequence));
            assert forall|i: int| #[trigger] (other.rounds[k].answers)(sequence, i) == answers(
                sequence,
                i,
            ) by {
                assert((one.answers)(sequence, i) == (other.rounds[k].answers)(sequence, i));
            }
        }
    }
    lemma_log_follows_transcript(session, log, answers);
    lemma_log_follows_transcript(session, other, answers);
}

} // verus!

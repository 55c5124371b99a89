//! What holds of whole conversations: of all that a session writes, and of every page that it
//! drops, in answer to all that the peer sends.

use vstd::prelude::*;

use crate::cooperation::{next_session, settle, BatchView, SessionView};
use crate::errno::Errnos;
use crate::evict::{
    advice_errno, covering, covers, header_fault, header_of, host_address, page_decision, pfns_of,
    response_bytes, response_header, result_record, result_records, CooperationRegion, EvictHeader,
    PageDecision, COOP_EVICT_REQUEST_HEADER_BYTES, COOP_EVICT_RESPONSE_HEADER_BYTES,
    COOP_EVICT_RESULT_BYTES, COOP_FRAME_VERSION, COOP_MAX_EVICT_PFNS, COOP_OP_EVICT,
    COOP_OP_EVICT_RESULT, COOP_PAGE_SIZE, COOP_PFN_BYTES,
};
use crate::wire::{
    i32_at, i32_le, lemma_i32_read_back, lemma_u16_read_back, lemma_u32_read_back,
    lemma_u64_read_back, u16_at, u16_le, u32_at, u32_le, u64_at, u64_le,
};

verus! {

/// What the platform answers when a page is dropped: for the request with a sequence number, and
/// the position of the page-frame number in it.
pub type Answers = spec_fn(u64, int) -> Result<(), i32>;

/// The result of one page-frame number, given what dropping its page would come to.
pub open spec fn page_errno(session: SessionView, pfn: u64, outcome: Result<(), i32>) -> i32 {
    match page_decision(session.errnos, session.regions, pfn) {
        PageDecision::Settled(errno) => errno,
        PageDecision::Advise(_) => advice_errno(session.errnos, outcome),
    }
}

/// One result for each page-frame number of a request, in its order.
pub open spec fn all_results(session: SessionView, pfns: Seq<u64>, answers: Answers) -> Seq<
    (u64, i32),
> {
    Seq::new(
        pfns.len(),
        |i: int| (pfns[i], page_errno(session, pfns[i], answers(session.expected_sequence, i))),
    )
}

/// The addresses of the pages of a request that are to be dropped, in its order.
pub open spec fn all_drops(session: SessionView, pfns: Seq<u64>) -> Seq<u64>
    decreases pfns.len(),
{
    if pfns.len() == 0 {
        Seq::empty()
    } else {
        match page_decision(session.errnos, session.regions, pfns[0]) {
            PageDecision::Settled(_) => all_drops(session, pfns.drop_first()),
            PageDecision::Advise(host_va) => seq![host_va] + all_drops(session, pfns.drop_first()),
        }
    }
}

/// A batch after the page that it waits for was dropped.
pub open spec fn after_drop(batch: BatchView, answers: Answers) -> BatchView {
    let results = settle(batch);
    let at = results.len() as int;
    let outcome = answers(batch.session.expected_sequence, at);
    BatchView {
        results: results.push((batch.pfns[at], advice_errno(batch.session.errnos, outcome))),
        ..batch
    }
}

/// The results that a batch responds with, once each page that it asks for was dropped.
pub open spec fn worked_off(batch: BatchView, answers: Answers) -> Seq<(u64, i32)>
    decreases batch.pfns.len() - batch.results.len(),
    via worked_off_ends
{
    if settle(batch).len() < batch.pfns.len() {
        worked_off(after_drop(batch, answers), answers)
    } else {
        settle(batch)
    }
}

/// The addresses of the pages that a batch asks to be dropped, one after another.
pub open spec fn dropped(batch: BatchView, answers: Answers) -> Seq<u64>
    decreases batch.pfns.len() - batch.results.len(),
    via dropped_ends
{
    let at = settle(batch).len() as int;
    if at < batch.pfns.len() {
        match page_decision(batch.session.errnos, batch.session.regions, batch.pfns[at]) {
            PageDecision::Advise(host_va) => seq![host_va] + dropped(
                after_drop(batch, answers),
                answers,
            ),
            PageDecision::Settled(_) => Seq::empty(),
        }
    } else {
        Seq::empty()
    }
}

#[via_fn]
proof fn worked_off_ends(batch: BatchView, answers: Answers) {
    lemma_settle_extends(batch);
}

#[via_fn]
proof fn dropped_ends(batch: BatchView, answers: Answers) {
    lemma_settle_extends(batch);
}

/// Settling adds results and keeps those that are there, up to the first page to be dropped.
proof fn lemma_settle_extends(batch: BatchView)
    ensures
        batch.results.len() <= settle(batch).len(),
        settle(batch).take(batch.results.len() as int) == batch.results,
        batch.results.len() <= batch.pfns.len() ==> settle(batch).len() <= batch.pfns.len(),
        settle(batch).len() < batch.pfns.len() ==> page_decision(
            batch.session.errnos,
            batch.session.regions,
            batch.pfns[settle(batch).len() as int],
        ) is Advise,
        forall|i: int|
            #![trigger settle(batch)[i]]
            batch.results.len() <= i < settle(batch).len() ==> {
                &&& settle(batch)[i].0 == batch.pfns[i]
                &&& page_decision(batch.session.errnos, batch.session.regions, batch.pfns[i])
                    == PageDecision::Settled(settle(batch)[i].1)
            },
    decreases batch.pfns.len() - batch.results.len(),
{
    if batch.results.len() < batch.pfns.len() {
        let pfn = batch.pfns[batch.results.len() as int];
        match page_decision(batch.session.errnos, batch.session.regions, pfn) {
            PageDecision::Settled(errno) => {
                let next = BatchView { results: batch.results.push((pfn, errno)), ..batch };
                lemma_settle_extends(next);
                let n = batch.results.len() as int;
                assert(settle(next).take(n) =~= settle(next).take(n + 1).take(n));
                assert(next.results.take(n) =~= batch.results);
                assert(settle(next)[n] == settle(next).take(n + 1)[n]);
            },
            PageDecision::Advise(_) => {
                assert(batch.results.take(batch.results.len() as int) =~= batch.results);
            },
        }
    } else {
        assert(batch.results.take(batch.results.len() as int) =~= batch.results);
    }
}

/// A response is written only once every page of the request was dealt with: it holds exactly one
/// result for each page-frame number, in the order of the request, and what came of one page
/// hides nothing of the others.
pub proof fn law_every_page_is_answered(session: SessionView, pfns: Seq<u64>, answers: Answers)
    ensures
        worked_off(BatchView { session, pfns, results: Seq::empty() }, answers) == all_results(
            session,
            pfns,
            answers,
        ),
{
    let batch = BatchView { session, pfns, results: Seq::empty() };
    assert(batch.results =~= all_results(session, pfns, answers).take(0));
    lemma_worked_off(batch, answers);
}

/// The results of a batch are the first of all of them, and stay so when it is settled.
pub(crate) proof fn lemma_settled_is_prefix(batch: BatchView, answers: Answers)
    requires
        batch.results.len() <= batch.pfns.len(),
        batch.results == all_results(batch.session, batch.pfns, answers).take(
            batch.results.len() as int,
        ),
    ensures
        batch.results.len() <= settle(batch).len() <= batch.pfns.len(),
        settle(batch) == all_results(batch.session, batch.pfns, answers).take(
            settle(batch).len() as int,
        ),
        forall|i: int|
            batch.results.len() <= i < settle(batch).len() ==> page_decision(
                batch.session.errnos,
                batch.session.regions,
                #[trigger] batch.pfns[i],
            ) is Settled,
{
    let all = all_results(batch.session, batch.pfns, answers);
    let settled = settle(batch);
    let n = batch.results.len() as int;
    lemma_settle_extends(batch);
    assert forall|i: int| 0 <= i < settled.len() implies settled[i] == #[trigger] all[i] by {
        if i < n {
            assert(settled[i] == settled.take(n)[i]);
            assert(all.take(n)[i] == all[i]);
        }
    }
    assert(settled =~= all.take(settled.len() as int));
    assert forall|i: int| n <= i < settled.len() implies page_decision(
        batch.session.errnos,
        batch.session.regions,
        #[trigger] batch.pfns[i],
    ) is Settled by {
        assert(settled[i].0 == batch.pfns[i]);
    }
}

/// What dropping one page comes to decides nothing about the results before it.
pub(crate) proof fn lemma_first_results(
    session: SessionView,
    pfns: Seq<u64>,
    answers: Answers,
    others: Answers,
    n: int,
)
    requires
        0 <= n <= pfns.len(),
        forall|i: int|
            0 <= i < n ==> #[trigger] answers(session.expected_sequence, i) == others(
                session.expected_sequence,
                i,
            ),
    ensures
        all_results(session, pfns, answers).take(n) == all_results(session, pfns, others).take(n),
{
    assert(all_results(session, pfns, answers).take(n) =~= all_results(
        session,
        pfns,
        others,
    ).take(n));
}

proof fn lemma_worked_off(batch: BatchView, answers: Answers)
    requires
        batch.results.len() <= batch.pfns.len(),
        batch.results == all_results(batch.session, batch.pfns, answers).take(
            batch.results.len() as int,
        ),
    ensures
        worked_off(batch, answers) == all_results(batch.session, batch.pfns, answers),
    decreases batch.pfns.len() - batch.results.len(),
{
    let all = all_results(batch.session, batch.pfns, answers);
    let settled = settle(batch);
    lemma_settle_extends(batch);
    lemma_settled_is_prefix(batch, answers);
    if settled.len() < batch.pfns.len() {
        let next = after_drop(batch, answers);
        assert(next.results =~= all.take(settled.len() as int + 1));
        lemma_worked_off(next, answers);
    } else {
        assert(settled =~= all);
    }
}

/// Each page-frame number of a request that names an evictable page has that page dropped, once
/// and in its turn, and no other page is dropped.
pub proof fn law_evictable_pages_are_dropped_once(
    session: SessionView,
    pfns: Seq<u64>,
    answers: Answers,
)
    ensures
        dropped(BatchView { session, pfns, results: Seq::empty() }, answers) == all_drops(
            session,
            pfns,
        ),
{
    let batch = BatchView { session, pfns, results: Seq::empty() };
    lemma_dropped(batch, answers);
    assert(pfns.skip(0) =~= pfns);
}

proof fn lemma_dropped(batch: BatchView, answers: Answers)
    requires
        batch.results.len() <= batch.pfns.len(),
    ensures
        dropped(batch, answers) == all_drops(
            batch.session,
            batch.pfns.skip(batch.results.len() as int),
        ),
    decreases batch.pfns.len() - batch.results.len(),
{
    let n = batch.results.len() as int;
    let m = settle(batch).len() as int;
    lemma_settle_extends(batch);
    assert forall|i: int| n <= i < m implies page_decision(
        batch.session.errnos,
        batch.session.regions,
        #[trigger] batch.pfns[i],
    ) is Settled by {
        assert(settle(batch)[i].0 == batch.pfns[i]);
    }
    lemma_settled_drop_nothing(batch.session, batch.pfns, n, m);
    if m < batch.pfns.len() {
        lemma_dropped(after_drop(batch, answers), answers);
        assert(batch.pfns.skip(m)[0] == batch.pfns[m]);
        assert(batch.pfns.skip(m).drop_first() =~= batch.pfns.skip(m + 1));
    }
}

/// Page-frame numbers that need no page to be dropped add nothing to the addresses.
proof fn lemma_settled_drop_nothing(session: SessionView, pfns: Seq<u64>, from: int, to: int)
    requires
        0 <= from <= to <= pfns.len(),
        forall|i: int|
            from <= i < to ==> page_decision(
                session.errnos,
                session.regions,
                #[trigger] pfns[i],
            ) is Settled,
    ensures
        all_drops(session, pfns.skip(from)) == all_drops(session, pfns.skip(to)),
    decreases to - from,
{
    if from < to {
        assert(pfns.skip(from)[0] == pfns[from]);
        assert(pfns.skip(from).drop_first() =~= pfns.skip(from + 1));
        lemma_settled_drop_nothing(session, pfns, from + 1, to);
    }
}

/// The header of a request, as the peer writes it.
#[verifier::opaque]
pub open spec fn request_header(header: EvictHeader) -> Seq<u8> {
    seq![header.op, header.version] + u16_le(header.reserved) + u64_le(header.sequence) + u32_le(
        header.count,
    )
}

/// Page-frame numbers, as the peer writes them.
pub open spec fn pfn_bytes(pfns: Seq<u64>) -> Seq<u8>
    decreases pfns.len(),
{
    if pfns.len() == 0 {
        Seq::empty()
    } else {
        pfn_bytes(pfns.drop_last()) + u64_le(pfns.last())
    }
}

/// The header of a request that is not at fault.
pub open spec fn good_header(sequence: u64, count: u32) -> EvictHeader {
    EvictHeader {
        op: COOP_OP_EVICT,
        version: COOP_FRAME_VERSION,
        reserved: 0,
        sequence,
        count,
    }
}

/// A request to evict `pfns`.
pub open spec fn request_bytes(sequence: u64, pfns: Seq<u64>) -> Seq<u8> {
    request_header(good_header(sequence, pfns.len() as u32)) + pfn_bytes(pfns)
}

/// What a session does: the bytes that it writes, and the addresses of the pages that it has
/// dropped.
pub ghost struct Transcript {
    pub written: Seq<u8>,
    pub dropped: Seq<u64>,
}

impl Transcript {
    /// The transcript of a session that does nothing more.
    pub open spec fn nothing() -> Transcript {
        Transcript { written: Seq::empty(), dropped: Seq::empty() }
    }

    /// This transcript, and then another.
    pub open spec fn followed_by(self, next: Transcript) -> Transcript {
        Transcript { written: self.written + next.written, dropped: self.dropped + next.dropped }
    }
}

/// All that a session does for a peer that sends `input` and then closes its end.
#[verifier::opaque]
pub open spec fn transcript(session: SessionView, input: Seq<u8>, answers: Answers) -> Transcript
    decreases input.len(),
{
    let header = header_of(input);
    let end = COOP_EVICT_REQUEST_HEADER_BYTES + header.count * COOP_PFN_BYTES;
    if input.len() < COOP_EVICT_REQUEST_HEADER_BYTES {
        Transcript::nothing()
    } else {
        match header_fault(session.errnos, header, session.expected_sequence) {
            Some(errno) => Transcript {
                written: response_bytes(header.sequence, errno, Seq::empty()),
                dropped: Seq::empty(),
            },
            None => if input.len() < end {
                Transcript::nothing()
            } else {
                let pfns = pfns_of(input.subrange(COOP_EVICT_REQUEST_HEADER_BYTES as int, end));
                let batch = BatchView { session, pfns, results: Seq::empty() };
                Transcript {
                    written: response_bytes(
                        session.expected_sequence,
                        0,
                        worked_off(batch, answers),
                    ),
                    dropped: dropped(batch, answers),
                }.followed_by(
                    match next_session(session) {
                        Some(next) => transcript(next, input.skip(end), answers),
                        None => Transcript::nothing(),
                    },
                )
            },
        }
    }
}

/// What a session does for one request that carries the expected sequence number.
pub open spec fn answer(session: SessionView, pfns: Seq<u64>, answers: Answers) -> Transcript {
    Transcript {
        written: response_bytes(
            session.expected_sequence,
            0,
            all_results(session, pfns, answers),
        ),
        dropped: all_drops(session, pfns),
    }
}

proof fn lemma_request_header_read_back(header: EvictHeader, rest: Seq<u8>)
    ensures
        request_header(header).len() == COOP_EVICT_REQUEST_HEADER_BYTES,
        header_of(request_header(header) + rest) == header,
{
    reveal(request_header);
    let bytes = request_header(header) + rest;
    assert(bytes.subrange(2, 4) =~= u16_le(header.reserved));
    assert(bytes.subrange(4, 12) =~= u64_le(header.sequence));
    assert(bytes.subrange(12, 16) =~= u32_le(header.count));
    lemma_u16_read_back(bytes, 2, header.reserved);
    lemma_u64_read_back(bytes, 4, header.sequence);
    lemma_u32_read_back(bytes, 12, header.count);
}

proof fn lemma_pfns_read_back(pfns: Seq<u64>)
    ensures
        pfn_bytes(pfns).len() == pfns.len() * COOP_PFN_BYTES,
        pfns_of(pfn_bytes(pfns)) == pfns,
    decreases pfns.len(),
{
    let bytes = pfn_bytes(pfns);
    if pfns.len() > 0 {
        let init = pfns.drop_last();
        let n = init.len() as int;
        lemma_pfns_read_back(init);
        assert(bytes.subrange(n * COOP_PFN_BYTES, n * COOP_PFN_BYTES + 8) =~= u64_le(pfns.last()));
        lemma_u64_read_back(bytes, n * COOP_PFN_BYTES, pfns.last());
        assert forall|i: int| 0 <= i < n implies #[trigger] pfns_of(bytes)[i] == pfns[i] by {
            assert(pfns_of(pfn_bytes(init))[i] == init[i]);
        }
        assert(pfns_of(bytes) =~= pfns);
    } else {
        assert(pfns_of(bytes) =~= pfns);
    }
}

pub(crate) proof fn lemma_request_read_back(sequence: u64, pfns: Seq<u64>, rest: Seq<u8>)
    requires
        pfns.len() <= COOP_MAX_EVICT_PFNS,
    ensures
        ({
            let input = request_bytes(sequence, pfns) + rest;
            let end = COOP_EVICT_REQUEST_HEADER_BYTES + pfns.len() * COOP_PFN_BYTES;
            &&& input.len() == end + rest.len()
            &&& header_of(input) == good_header(sequence, pfns.len() as u32)
            &&& pfns_of(input.subrange(COOP_EVICT_REQUEST_HEADER_BYTES as int, end)) == pfns
            &&& input.skip(end) == rest
        }),
{
    let header = good_header(sequence, pfns.len() as u32);
    let input = request_bytes(sequence, pfns) + rest;
    let end = COOP_EVICT_REQUEST_HEADER_BYTES + pfns.len() * COOP_PFN_BYTES;
    lemma_request_header_read_back(header, pfn_bytes(pfns) + rest);
    lemma_concat_is_associative(request_header(header), pfn_bytes(pfns), rest);
    lemma_pfns_read_back(pfns);
    assert(input.subrange(COOP_EVICT_REQUEST_HEADER_BYTES as int, end) =~= pfn_bytes(pfns));
    assert(input.skip(end) =~= rest);
}

/// A request that carries the expected sequence number is answered with one result for each of
/// its page-frame numbers, in its order, its evictable pages are dropped, and the conversation
/// goes on with what the peer sends after it. A request without page-frame numbers is answered
/// too, and counts as any other.
pub proof fn law_request_is_answered(
    session: SessionView,
    pfns: Seq<u64>,
    rest: Seq<u8>,
    answers: Answers,
)
    requires
        pfns.len() <= COOP_MAX_EVICT_PFNS,
    ensures
        transcript(session, request_bytes(session.expected_sequence, pfns) + rest, answers)
            == answer(session, pfns, answers).followed_by(
            match next_session(session) {
                Some(next) => transcript(next, rest, answers),
                None => Transcript::nothing(),
            },
        ),
{
    reveal(transcript);
    lemma_request_read_back(session.expected_sequence, pfns, rest);
    law_every_page_is_answered(session, pfns, answers);
    law_evictable_pages_are_dropped_once(session, pfns, answers);
}

/// Which pages are dropped is decided by the bytes that the peer sends, whatever dropping them
/// comes to.
pub proof fn law_bytes_alone_decide_what_is_dropped(
    session: SessionView,
    input: Seq<u8>,
    answers: Answers,
    others: Answers,
)
    ensures
        transcript(session, input, answers).dropped == transcript(session, input, others).dropped,
    decreases input.len(),
{
    reveal(transcript);
    let header = header_of(input);
    let end = COOP_EVICT_REQUEST_HEADER_BYTES + header.count * COOP_PFN_BYTES;
    if COOP_EVICT_REQUEST_HEADER_BYTES <= end <= input.len() && header_fault(
        session.errnos,
        header,
        session.expected_sequence,
    ) is None {
        let pfns = pfns_of(input.subrange(COOP_EVICT_REQUEST_HEADER_BYTES as int, end));
        law_evictable_pages_are_dropped_once(session, pfns, answers);
        law_evictable_pages_are_dropped_once(session, pfns, others);
        if let Some(next) = next_session(session) {
            law_bytes_alone_decide_what_is_dropped(next, input.skip(end), answers, others);
        }
    }
}

/// The requests of a peer that counts them from `sequence` on.
pub open spec fn requests_from(sequence: u64, requests: Seq<Seq<u64>>) -> Seq<u8>
    decreases requests.len(),
{
    if requests.len() == 0 {
        Seq::empty()
    } else {
        request_bytes(sequence, requests[0]) + requests_from(
            (sequence + 1) as u64,
            requests.drop_first(),
        )
    }
}

/// One answer for each of several requests, counted from that of the session on.
pub open spec fn answers_from(
    session: SessionView,
    requests: Seq<Seq<u64>>,
    answers: Answers,
) -> Transcript
    decreases requests.len(),
{
    if requests.len() == 0 {
        Transcript::nothing()
    } else {
        answer(session, requests[0], answers).followed_by(
            answers_from(
                SessionView {
                    expected_sequence: (session.expected_sequence + 1) as u64,
                    ..session
                },
                requests.drop_first(),
                answers,
            ),
        )
    }
}

pub(crate) proof fn lemma_concat_is_associative(a: Seq<u8>, b: Seq<u8>, c: Seq<u8>)
    ensures
        (a + b) + c == a + (b + c),
{
    assert((a + b) + c =~= a + (b + c));
}

pub(crate) proof fn lemma_followed_by_is_associative(a: Transcript, b: Transcript, c: Transcript)
    ensures
        a.followed_by(b).followed_by(c) == a.followed_by(b.followed_by(c)),
{
    assert((a.written + b.written) + c.written =~= a.written + (b.written + c.written));
    assert((a.dropped + b.dropped) + c.dropped =~= a.dropped + (b.dropped + c.dropped));
}

/// Requests that carry consecutive sequence numbers, beginning with the expected one, are answered
/// one by one, each response echoing the number of its request; then the session is where the
/// count of the requests has brought it.
pub proof fn law_requests_are_answered_in_sequence(
    session: SessionView,
    requests: Seq<Seq<u64>>,
    rest: Seq<u8>,
    answers: Answers,
)
    requires
        session.expected_sequence + requests.len() <= u64::MAX,
        forall|i: int|
            0 <= i < requests.len() ==> (#[trigger] requests[i]).len() <= COOP_MAX_EVICT_PFNS,
    ensures
        transcript(
            session,
            requests_from(session.expected_sequence, requests) + rest,
            answers,
        ) == answers_from(session, requests, answers).followed_by(
            transcript(
                SessionView {
                    expected_sequence: (session.expected_sequence + requests.len()) as u64,
                    ..session
                },
                rest,
                answers,
            ),
        ),
    decreases requests.len(),
{
    let sequence = session.expected_sequence;
    if requests.len() == 0 {
        let after = transcript(session, rest, answers);
        assert(requests_from(sequence, requests) + rest =~= rest);
        assert(Seq::<u8>::empty() + after.written =~= after.written);
        assert(Seq::<u64>::empty() + after.dropped =~= after.dropped);
    } else {
        let next = SessionView { expected_sequence: (sequence + 1) as u64, ..session };
        let last = SessionView {
            expected_sequence: (sequence + requests.len()) as u64,
            ..session
        };
        let tail = requests.drop_first();
        let tail_bytes = requests_from(next.expected_sequence, tail);
        assert(requests[0].len() <= COOP_MAX_EVICT_PFNS);
        lemma_concat_is_associative(request_bytes(sequence, requests[0]), tail_bytes, rest);
        law_request_is_answered(session, requests[0], tail_bytes + rest, answers);
        assert forall|i: int| 0 <= i < tail.len() implies (#[trigger] tail[i]).len()
            <= COOP_MAX_EVICT_PFNS by {
            assert(tail[i] == requests[i + 1]);
        }
        law_requests_are_answered_in_sequence(next, tail, rest, answers);
        lemma_followed_by_is_associative(
            answer(session, requests[0], answers),
            answers_from(next, tail, answers),
            transcript(last, rest, answers),
        );
    }
}

/// A request at fault is answered with its own sequence number, the error and no results. That is
/// the end: no page is dropped, and what follows its header, be it a body or another request, is
/// neither answered nor even looked at.
pub proof fn law_faulty_request_ends_the_conversation(
    session: SessionView,
    header: EvictHeader,
    rest: Seq<u8>,
    answers: Answers,
)
    requires
        header_fault(session.errnos, header, session.expected_sequence) is Some,
    ensures
        transcript(session, request_header(header) + rest, answers) == (Transcript {
            written: response_bytes(
                header.sequence,
                header_fault(session.errnos, header, session.expected_sequence)->0,
                Seq::empty(),
            ),
            dropped: Seq::empty(),
        }),
{
    reveal(transcript);
    lemma_request_header_read_back(header, rest);
}

/// A request that the peer does not finish is not answered, and none of its pages is dropped.
pub proof fn law_truncated_request_is_not_answered(
    session: SessionView,
    pfns: Seq<u64>,
    sent: int,
    answers: Answers,
)
    requires
        pfns.len() <= COOP_MAX_EVICT_PFNS,
        0 <= sent < request_bytes(session.expected_sequence, pfns).len(),
    ensures
        transcript(
            session,
            request_bytes(session.expected_sequence, pfns).take(sent),
            answers,
        ) == Transcript::nothing(),
{
    reveal(transcript);
    let header = good_header(session.expected_sequence, pfns.len() as u32);
    let input = request_bytes(session.expected_sequence, pfns).take(sent);
    lemma_pfns_read_back(pfns);
    lemma_request_header_read_back(header, pfn_bytes(pfns));
    if sent >= COOP_EVICT_REQUEST_HEADER_BYTES {
        let rest = input.skip(COOP_EVICT_REQUEST_HEADER_BYTES as int);
        assert(input =~= request_header(header) + rest);
        lemma_request_header_read_back(header, rest);
    }
}

/// The receiver of a response finds in it all that it was made of: the kind and version of the
/// frame, the sequence number, the error of the frame, and the records, as many as the header
/// announces, at their places.
pub proof fn law_response_is_read_back(
    sequence: u64,
    frame_errno: i32,
    results: Seq<(u64, i32)>,
)
    requires
        results.len() <= u32::MAX,
    ensures
        ({
            let response = response_bytes(sequence, frame_errno, results);
            &&& response.len() == COOP_EVICT_RESPONSE_HEADER_BYTES + results.len()
                * COOP_EVICT_RESULT_BYTES
            &&& response[0] == COOP_OP_EVICT_RESULT
            &&& response[1] == COOP_FRAME_VERSION
            &&& u16_at(response, 2) == 0
            &&& u64_at(response, 4) == sequence
            &&& i32_at(response, 12) == frame_errno
            &&& u32_at(response, 16) == results.len()
            &&& forall|i: int|
                #![trigger results[i]]
                0 <= i < results.len() ==> {
                    let at = COOP_EVICT_RESPONSE_HEADER_BYTES + i * COOP_EVICT_RESULT_BYTES;
                    &&& u64_at(response, at) == results[i].0
                    &&& i32_at(response, at + 8) == results[i].1
                }
        }),
{
    let response = response_bytes(sequence, frame_errno, results);
    let count = results.len() as u32;
    let header = response_header(sequence, frame_errno, count);
    lemma_records_length(results);
    assert(header.len() == COOP_EVICT_RESPONSE_HEADER_BYTES);
    assert(response.subrange(2, 4) =~= u16_le(0));
    assert(response.subrange(4, 12) =~= u64_le(sequence));
    assert(response.subrange(12, 16) =~= i32_le(frame_errno));
    assert(response.subrange(16, 20) =~= u32_le(count));
    lemma_u16_read_back(response, 2, 0);
    lemma_u64_read_back(response, 4, sequence);
    lemma_i32_read_back(response, 12, frame_errno);
    lemma_u32_read_back(response, 16, count);
    assert forall|i: int| #![trigger results[i]] 0 <= i < results.len() implies {
        let at = COOP_EVICT_RESPONSE_HEADER_BYTES + i * COOP_EVICT_RESULT_BYTES;
        &&& u64_at(response, at) == results[i].0
        &&& i32_at(response, at + 8) == results[i].1
    } by {
        let at = COOP_EVICT_RESPONSE_HEADER_BYTES + i * COOP_EVICT_RESULT_BYTES;
        let record = result_record(results[i]);
        lemma_record_place(results, i);
        assert(response.subrange(at, at + COOP_EVICT_RESULT_BYTES) =~= record) by {
            assert(response.subrange(at, at + COOP_EVICT_RESULT_BYTES) =~= result_records(
                results,
            ).subrange(i * COOP_EVICT_RESULT_BYTES, (i + 1) * COOP_EVICT_RESULT_BYTES));
        }
        assert(response.subrange(at, at + 8) =~= record.subrange(0, 8));
        assert(response.subrange(at + 8, at + 12) =~= record.subrange(8, 12));
        assert(record.subrange(0, 8) =~= u64_le(results[i].0));
        assert(record.subrange(8, 12) =~= i32_le(results[i].1));
        lemma_u64_read_back(response, at, results[i].0);
        lemma_i32_read_back(response, at + 8, results[i].1);
    }
}

proof fn lemma_records_length(results: Seq<(u64, i32)>)
    ensures
        result_records(results).len() == results.len() * COOP_EVICT_RESULT_BYTES,
    decreases results.len(),
{
    if results.len() > 0 {
        lemma_records_length(results.drop_last());
    }
}

/// Where the record of one page stands among the records.
proof fn lemma_record_place(results: Seq<(u64, i32)>, i: int)
    requires
        0 <= i < results.len(),
    ensures
        result_records(results).len() == results.len() * COOP_EVICT_RESULT_BYTES,
        result_records(results).subrange(
            i * COOP_EVICT_RESULT_BYTES,
            (i + 1) * COOP_EVICT_RESULT_BYTES,
        ) == result_record(results[i]),
    decreases results.len(),
{
    let init = results.drop_last();
    let from = i * COOP_EVICT_RESULT_BYTES;
    let to = (i + 1) * COOP_EVICT_RESULT_BYTES;
    lemma_records_length(results);
    lemma_records_length(init);
    if i < init.len() {
        lemma_record_place(init, i);
        assert(result_records(results).subrange(from, to) =~= result_records(init).subrange(
            from,
            to,
        ));
    } else {
        assert(result_records(results).subrange(from, to) =~= result_record(results[i]));
    }
}

/// Two responses with the same bytes have the same sequence number, error and results.
pub proof fn law_responses_are_told_apart(
    sequence1: u64,
    frame_errno1: i32,
    results1: Seq<(u64, i32)>,
    sequence2: u64,
    frame_errno2: i32,
    results2: Seq<(u64, i32)>,
)
    requires
        results1.len() <= u32::MAX,
        results2.len() <= u32::MAX,
        response_bytes(sequence1, frame_errno1, results1) == response_bytes(
            sequence2,
            frame_errno2,
            results2,
        ),
    ensures
        sequence1 == sequence2,
        frame_errno1 == frame_errno2,
        results1 == results2,
{
    law_response_is_read_back(sequence1, frame_errno1, results1);
    law_response_is_read_back(sequence2, frame_errno2, results2);
    assert forall|i: int| 0 <= i < results1.len() implies results1[i] == results2[i] by {
        assert(results1[i].0 == results2[i].0);
        assert(results1[i].1 == results2[i].1);
    }
    assert(results1 =~= results2);
}

/// The region that decides about a page is the first that covers it.
pub proof fn law_first_covering_region_decides(
    regions: Seq<CooperationRegion>,
    pfn: u64,
    region: CooperationRegion,
)
    ensures
        covering(regions, pfn) == Some(region) <==> exists|i: int|
            {
                &&& 0 <= i < regions.len()
                &&& #[trigger] regions[i] == region
                &&& covers(region, pfn)
                &&& forall|j: int| 0 <= j < i ==> !covers(#[trigger] regions[j], pfn)
            },
        covering(regions, pfn) is None <==> forall|i: int|
            0 <= i < regions.len() ==> !covers(#[trigger] regions[i], pfn),
    decreases regions.len(),
{
    if regions.len() > 0 {
        let tail = regions.drop_first();
        law_first_covering_region_decides(tail, pfn, region);
        if !covers(regions[0], pfn) {
            assert forall|i: int|
                0 <= i < regions.len() && (forall|k: int|
                    0 <= k < tail.len() ==> !covers(#[trigger] tail[k], pfn)) implies !covers(
                #[trigger] regions[i],
                pfn,
            ) by {
                if i > 0 {
                    assert(tail[i - 1] == regions[i]);
                }
            }
            assert forall|k: int| 0 <= k < tail.len() && (forall|i: int|
                0 <= i < regions.len() ==> !covers(#[trigger] regions[i], pfn)) implies !covers(
                #[trigger] tail[k],
                pfn,
            ) by {
                assert(tail[k] == regions[k + 1]);
            }
            if covering(regions, pfn) == Some(region) {
                let k = choose|k: int|
                    {
                        &&& 0 <= k < tail.len()
                        &&& #[trigger] tail[k] == region
                        &&& covers(region, pfn)
                        &&& forall|j: int| 0 <= j < k ==> !covers(#[trigger] tail[j], pfn)
                    };
                assert(regions[k + 1] == region);
                assert forall|j: int| 0 <= j < k + 1 implies !covers(
                    #[trigger] regions[j],
                    pfn,
                ) by {
                    if j > 0 {
                        assert(tail[j - 1] == regions[j]);
                    }
                }
            }
            if exists|i: int|
                {
                    &&& 0 <= i < regions.len()
                    &&& #[trigger] regions[i] == region
                    &&& covers(region, pfn)
                    &&& forall|j: int| 0 <= j < i ==> !covers(#[trigger] regions[j], pfn)
                } {
                let i = choose|i: int|
                    {
                        &&& 0 <= i < regions.len()
                        &&& #[trigger] regions[i] == region
                        &&& covers(region, pfn)
                        &&& forall|j: int| 0 <= j < i ==> !covers(#[trigger] regions[j], pfn)
                    };
                assert(tail[i - 1] == region);
                assert forall|j: int| 0 <= j < i - 1 implies !covers(#[trigger] tail[j], pfn) by {
                    assert(tail[j] == regions[j + 1]);
                }
            }
        }
    }
}

/// A page that is dropped is one whole page of a private region: the one that stands in the
/// mapping where the guest's page stands in the region.
pub proof fn law_dropped_page_lies_in_a_private_region(
    errnos: Errnos,
    regions: Seq<CooperationRegion>,
    pfn: u64,
    host_va: u64,
)
    requires
        page_decision(errnos, regions, pfn) == PageDecision::Advise(host_va),
    ensures
        exists|i: int|
            {
                &&& 0 <= i < regions.len()
                &&& covers(#[trigger] regions[i], pfn)
                &&& !regions[i].shared
                &&& regions[i].host_virt_addr <= host_va
                &&& host_va + COOP_PAGE_SIZE <= regions[i].host_virt_addr + regions[i].len
                &&& host_va - regions[i].host_virt_addr == pfn * COOP_PAGE_SIZE
                    - regions[i].guest_phys_addr
            },
{
    let region = covering(regions, pfn)->0;
    law_first_covering_region_decides(regions, pfn, region);
    let i = choose|i: int|
        {
            &&& 0 <= i < regions.len()
            &&& #[trigger] regions[i] == region
            &&& covers(region, pfn)
            &&& forall|j: int| 0 <= j < i ==> !covers(#[trigger] regions[j], pfn)
        };
    assert(covers(regions[i], pfn));
}

/// The result of a page is zero exactly if the page was dropped and that succeeded, and a positive
/// error number in every other case.
pub proof fn law_zero_means_evicted(session: SessionView, pfn: u64, outcome: Result<(), i32>)
    requires
        session.errnos.valid(),
    ensures
        page_errno(session, pfn, outcome) >= 0,
        page_errno(session, pfn, outcome) == 0 <==> {
            &&& page_decision(session.errnos, session.regions, pfn) is Advise
            &&& outcome is Ok
        },
{
}

/// The error of a page that is not dropped tells why: it belongs to a shared region, or it is out
/// of range, of all regions or, in a private one, of the host's addresses.
pub proof fn law_page_error_tells_why(errnos: Errnos, regions: Seq<CooperationRegion>, pfn: u64)
    requires
        errnos.valid(),
    ensures
        ({
            let decision = page_decision(errnos, regions, pfn);
            let region = covering(regions, pfn);
            &&& decision == PageDecision::Settled(errnos.eopnotsupp) <==> {
                region matches Some(region) && region.shared
            }
            &&& decision == PageDecision::Settled(errnos.erange) <==> match region {
                None => true,
                Some(region) => !region.shared && host_address(region, pfn) > u64::MAX,
            }
            &&& decision matches PageDecision::Settled(errno) ==> errno == errnos.eopnotsupp
                || errno == errnos.erange
        }),
{
    let all = seq![
        errnos.e2big,
        errnos.eio,
        errnos.eopnotsupp,
        errnos.eproto,
        errnos.eprotonosupport,
        errnos.erange,
    ];
    assert(all[2] != all[5]);
}

/// The error of a refused frame is positive and tells the fault: an unsupported opcode, another
/// version, reserved bits or an unexpected sequence number, a count that is too large.
pub proof fn law_frame_error_tells_the_fault(
    errnos: Errnos,
    header: EvictHeader,
    expected_sequence: u64,
)
    requires
        errnos.valid(),
    ensures
        ({
            let fault = header_fault(errnos, header, expected_sequence);
            let evict = header.op == COOP_OP_EVICT;
            let current = evict && header.version == COOP_FRAME_VERSION;
            let in_turn = current && header.reserved == 0 && header.sequence == expected_sequence;
            &&& fault matches Some(errno) ==> errno > 0
            &&& fault == Some(errnos.eopnotsupp) <==> !evict
            &&& fault == Some(errnos.eprotonosupport) <==> evict && !current
            &&& fault == Some(errnos.eproto) <==> current && !in_turn
            &&& fault == Some(errnos.e2big) <==> in_turn && header.count > COOP_MAX_EVICT_PFNS
            &&& fault is None <==> in_turn && header.count <= COOP_MAX_EVICT_PFNS
        }),
{
    let all = seq![
        errnos.e2big,
        errnos.eio,
        errnos.eopnotsupp,
        errnos.eproto,
        errnos.eprotonosupport,
        errnos.erange,
    ];
    assert(all[0] != all[2] && all[0] != all[3] && all[0] != all[4]);
    assert(all[2] != all[3] && all[2] != all[4] && all[3] != all[4]);
}

} // verus!

//! Conversations with a peer whose bytes all arrive.

use vstd::prelude::*;

use crate::conversation::{
    all_drops, all_results, lemma_concat_is_associative, lemma_followed_by_is_associative,
    lemma_request_read_back, page_errno, request_bytes, Answers, Transcript,
};
use crate::cooperation::{next_session, SessionView};
use crate::evict::{
    advice_errno, header_fault, header_of, page_decision, pfns_of, response_bytes, PageDecision,
    COOP_EVICT_REQUEST_HEADER_BYTES, COOP_MAX_EVICT_PFNS, COOP_PFN_BYTES,
};
use crate::log::{
    done_by, done_in, drop_calls, end_calls, first_drop_calls, is_end, is_log, is_round,
    lemma_calls_and_others, lemma_header_is_at_the_start, lemma_nothing_more, lemma_round_calls,
    lemma_round_is_at_the_start, lemma_single_call, read_by, read_in, request_calls, round_calls,
    rounds_calls, session_at, Call, End, Log, Round,
};
use crate::turns::{in_turn, is_chain, lemma_state_between, Made};

verus! {

/// A peer that sends some bytes and then closes its end for writing, and the memory that it has
/// evicted.
pub ghost struct Peer {
    /// The bytes that it sends and that were not read yet.
    pub sends: Seq<u8>,
    /// The bytes that it was sent.
    pub receives: Seq<u8>,
    /// The addresses of the pages that were dropped.
    pub dropped: Seq<u64>,
}

/// What dropping a page comes to.
pub type Drops = spec_fn(u64) -> Result<(), i32>;

/// What a call does where such a peer is at the other end: what it sends is read in whole, as long
/// as there is enough of it, what is written arrives, and dropping a page comes to what `drops`
/// tells.
pub open spec fn on_peer(drops: Drops) -> Made<Peer, Call> {
    |before: Peer, call: Call, after: Peer|
        match call {
            Call::ReadHeader(header) => is_read(
                before,
                COOP_EVICT_REQUEST_HEADER_BYTES as nat,
                header,
                after,
            ),
            Call::ReadBody(len, body) => is_read(before, len, body, after),
            Call::Drop(host_va, answer) => {
                &&& answer == drops(host_va)
                &&& after == (Peer { dropped: before.dropped.push(host_va), ..before })
            },
            Call::Write(bytes, written) => {
                &&& written
                &&& after == (Peer { receives: before.receives + bytes, ..before })
            },
        }
}

/// Whether these are the next `len` bytes that the peer sends, or none where there are too few.
pub open spec fn is_read(before: Peer, len: nat, bytes: Option<Seq<u8>>, after: Peer) -> bool {
    &&& after == (Peer { sends: after.sends, ..before })
    &&& if before.sends.len() < len {
        bytes is None
    } else {
        &&& bytes == Some(before.sends.take(len as int))
        &&& after.sends == before.sends.skip(len as int)
    }
}

/// Whether a read came to nothing.
spec fn is_missing(call: Call) -> bool {
    match call {
        Call::ReadHeader(header) => header is None,
        Call::ReadBody(_, body) => body is None,
        _ => false,
    }
}

/// Whether no read of these calls came to nothing.
spec fn all_read(calls: Seq<Call>) -> bool {
    forall|k: int| 0 <= k < calls.len() ==> !is_missing(#[trigger] calls[k])
}

/// What calls read and do is what the peer sends less and receives more.
proof fn lemma_calls_on_peer(drops: Drops, before: Peer, calls: Seq<Call>, after: Peer)
    requires
        in_turn(on_peer(drops), before, calls, after),
    ensures
        after.receives == before.receives + done_in(calls).written,
        after.dropped == before.dropped + done_in(calls).dropped,
        all_read(calls) ==> before.sends == read_in(calls) + after.sends,
    decreases calls.len(),
{
    let states = choose|states: Seq<Peer>|
        {
            &&& #[trigger] is_chain(on_peer(drops), states, calls)
            &&& states[0] == before
            &&& states.last() == after
        };
    if calls.len() == 0 {
        assert(before.receives + Seq::empty() =~= before.receives);
        assert(before.dropped + Seq::empty() =~= before.dropped);
        assert(Seq::empty() + before.sends =~= before.sends);
    } else {
        let earlier = calls.drop_last();
        let last = calls.last();
        let between = states[states.len() - 2];
        assert(is_chain(on_peer(drops), states.drop_last(), earlier)) by {
            assert forall|k: int| 0 <= k < earlier.len() implies on_peer(drops)(
                states.drop_last()[k],
                #[trigger] earlier[k],
                states.drop_last()[k + 1],
            ) by {
                assert(calls[k] == earlier[k]);
            }
        }
        assert(on_peer(drops)(between, calls[calls.len() - 1], after));
        lemma_calls_on_peer(drops, before, earlier, between);
        let done = done_in(earlier);
        assert(before.receives + done.written + done_by(last).written =~= before.receives + (
        done.written + done_by(last).written));
        assert(before.dropped + done.dropped + done_by(last).dropped =~= before.dropped + (
        done.dropped + done_by(last).dropped));
        assert(after.receives =~= between.receives + done_by(last).written);
        assert(after.dropped =~= between.dropped + done_by(last).dropped);
        if all_read(calls) {
            assert forall|k: int| 0 <= k < earlier.len() implies !is_missing(
                #[trigger] earlier[k],
            ) by {
                assert(calls[k] == earlier[k]);
            }
            assert(between.sends =~= read_by(last) + after.sends);
            assert(read_in(earlier) + (read_by(last) + after.sends) =~= (read_in(earlier)
                + read_by(last)) + after.sends);
        }
    }
}

/// Whether a call was answered as such a peer answers it: what was written arrived, and dropping a
/// page came to what `drops` tells.
spec fn is_told(drops: Drops, call: Call) -> bool {
    match call {
        Call::Drop(host_va, answer) => answer == drops(host_va),
        Call::Write(_, written) => written,
        _ => true,
    }
}

/// Whether these calls were answered so.
spec fn as_told(drops: Drops, calls: Seq<Call>) -> bool {
    forall|k: int| 0 <= k < calls.len() ==> is_told(drops, #[trigger] calls[k])
}

proof fn lemma_as_told(drops: Drops, before: Peer, calls: Seq<Call>, after: Peer)
    requires
        in_turn(on_peer(drops), before, calls, after),
    ensures
        as_told(drops, calls),
{
    let states = choose|states: Seq<Peer>|
        {
            &&& #[trigger] is_chain(on_peer(drops), states, calls)
            &&& states[0] == before
            &&& states.last() == after
        };
    assert forall|k: int| 0 <= k < calls.len() implies is_told(
        drops,
        #[trigger] calls[k],
    ) by {
        assert(on_peer(drops)(states[k], calls[k], states[k + 1]));
    }
}

/// Whether `answers` has what dropping the pages of a request comes to.
pub open spec fn drops_are(
    drops: Drops,
    session: SessionView,
    pfns: Seq<u64>,
    answers: Answers,
) -> bool {
    forall|i: int|
        0 <= i < pfns.len() ==> match page_decision(
            session.errnos,
            session.regions,
            #[trigger] pfns[i],
        ) {
            PageDecision::Advise(host_va) => answers(session.expected_sequence, i) == drops(
                host_va,
            ),
            PageDecision::Settled(_) => true,
        }
}

proof fn lemma_drops_as_told(
    drops: Drops,
    session: SessionView,
    pfns: Seq<u64>,
    answers: Answers,
    n: int,
)
    requires
        0 <= n <= pfns.len(),
        as_told(drops, first_drop_calls(session, pfns, answers, n)),
    ensures
        all_read(first_drop_calls(session, pfns, answers, n)),
        drops_are(drops, session, pfns.take(n), answers),
    decreases n,
{
    if n > 0 {
        let calls = first_drop_calls(session, pfns, answers, n);
        let earlier = first_drop_calls(session, pfns, answers, n - 1);
        assert forall|k: int| 0 <= k < earlier.len() implies is_told(
            drops,
            #[trigger] earlier[k],
        ) by {
            assert(calls[k] == earlier[k]);
        }
        lemma_drops_as_told(drops, session, pfns, answers, n - 1);
        assert forall|k: int| 0 <= k < calls.len() implies !is_missing(
                #[trigger] calls[k],
            ) by {
            if k < earlier.len() {
                assert(calls[k] == earlier[k]);
            }
        }
        assert forall|i: int| 0 <= i < n implies match page_decision(
            session.errnos,
            session.regions,
            #[trigger] pfns.take(n)[i],
        ) {
            PageDecision::Advise(host_va) => answers(session.expected_sequence, i) == drops(
                host_va,
            ),
            PageDecision::Settled(_) => true,
        } by {
            if i < n - 1 {
                assert(pfns.take(n)[i] == pfns.take(n - 1)[i]);
            } else if page_decision(session.errnos, session.regions, pfns[i]) is Advise {
                assert(calls[calls.len() - 1] == calls.last());
            }
        }
    }
}

proof fn lemma_round_as_told(drops: Drops, session: SessionView, round: Round)
    requires
        as_told(drops, round_calls(session, round)),
    ensures
        round.written,
        all_read(round_calls(session, round)),
        drops_are(drops, session, pfns_of(round.body), round.answers),
{
    let pfns = pfns_of(round.body);
    let calls = round_calls(session, round);
    let request = request_calls(round.header, round.body);
    let dropping = drop_calls(session, pfns, round.answers);
    assert(calls[calls.len() - 1] == Call::Write(round.response, round.written));
    assert forall|k: int| 0 <= k < dropping.len() implies is_told(
        drops,
        #[trigger] dropping[k],
    ) by {
        assert(calls[request.len() + k] == dropping[k]);
    }
    lemma_drops_as_told(drops, session, pfns, round.answers, pfns.len() as int);
    assert(pfns.take(pfns.len() as int) =~= pfns);
    assert forall|k: int| 0 <= k < calls.len() implies !is_missing(
                #[trigger] calls[k],
            ) by {
        if k < request.len() {
            assert(calls[k] == request[k]);
        } else if k < request.len() + dropping.len() {
            assert(calls[k] == dropping[k - request.len()]);
        }
    }
}

proof fn lemma_rounds_as_told(drops: Drops, session: SessionView, rounds: Seq<Round>)
    requires
        session.expected_sequence + rounds.len() <= u64::MAX + 1,
        as_told(drops, rounds_calls(session, rounds)),
    ensures
        all_read(rounds_calls(session, rounds)),
        forall|k: int|
            0 <= k < rounds.len() ==> (#[trigger] rounds[k]).written && drops_are(
                drops,
                session_at(session, k),
                pfns_of(rounds[k].body),
                rounds[k].answers,
            ),
    decreases rounds.len(),
{
    if rounds.len() > 0 {
        let next = session_at(session, 1);
        let tail = rounds.drop_first();
        let calls = rounds_calls(session, rounds);
        let first = round_calls(session, rounds[0]);
        let rest = rounds_calls(next, tail);
        assert forall|k: int| 0 <= k < first.len() implies is_told(
            drops,
            #[trigger] first[k],
        ) by {
            assert(calls[k] == first[k]);
        }
        assert forall|k: int| 0 <= k < rest.len() implies is_told(
            drops,
            #[trigger] rest[k],
        ) by {
            assert(calls[first.len() + k] == rest[k]);
        }
        lemma_round_as_told(drops, session, rounds[0]);
        assert(session_at(session, 0) == session);
        if tail.len() > 0 {
            lemma_rounds_as_told(drops, next, tail);
        }
        assert forall|k: int| 0 <= k < calls.len() implies !is_missing(
                #[trigger] calls[k],
            ) by {
            if k < first.len() {
                assert(calls[k] == first[k]);
            } else {
                assert(calls[k] == rest[k - first.len()]);
            }
        }
        assert forall|k: int| 0 <= k < rounds.len() implies (#[trigger] rounds[k]).written
            && drops_are(
            drops,
            session_at(session, k),
            pfns_of(rounds[k].body),
            rounds[k].answers,
        ) by {
            if k > 0 {
                assert(rounds[k] == tail[k - 1]);
                assert(session_at(next, k - 1) == session_at(session, k));
            }
        }
    }
}

/// The result of one page-frame number.
pub open spec fn page_errno_with(session: SessionView, pfn: u64, drops: Drops) -> i32 {
    match page_decision(session.errnos, session.regions, pfn) {
        PageDecision::Settled(errno) => errno,
        PageDecision::Advise(host_va) => advice_errno(session.errnos, drops(host_va)),
    }
}

/// One result for each page-frame number of a request, in its order.
pub open spec fn results_with(session: SessionView, pfns: Seq<u64>, drops: Drops) -> Seq<
    (u64, i32),
> {
    Seq::new(pfns.len(), |i: int| (pfns[i], page_errno_with(session, pfns[i], drops)))
}

/// All that is done for a peer that sends `input`: it is decided by these bytes, and by what
/// dropping a page comes to.
#[verifier::opaque]
pub open spec fn served(session: SessionView, input: Seq<u8>, drops: Drops) -> Transcript
    decreases input.len(),
{
    let header = header_of(input);
    let end = COOP_EVICT_REQUEST_HEADER_BYTES + header.count * COOP_PFN_BYTES;
    if input.len() < COOP_EVICT_REQUEST_HEADER_BYTES {
        Transcript::nothing()
    } else {
        match header_fault(session.errnos, header, session.expected_sequence) {
            Some(errno) => Transcript {
                written: response_bytes(header.sequence, errno, Seq::empty()),
                dropped: Seq::empty(),
            },
            None => if input.len() < end {
                Transcript::nothing()
            } else {
                let pfns = pfns_of(input.subrange(COOP_EVICT_REQUEST_HEADER_BYTES as int, end));
                Transcript {
                    written: response_bytes(
                        session.expected_sequence,
                        0,
                        results_with(session, pfns, drops),
                    ),
                    dropped: all_drops(session, pfns),
                }.followed_by(
                    match next_session(session) {
                        Some(next) => served(next, input.skip(end), drops),
                        None => Transcript::nothing(),
                    },
                )
            },
        }
    }
}

/// A request that carries the expected sequence number is served, and then what follows it.
pub proof fn law_request_is_served(
    session: SessionView,
    pfns: Seq<u64>,
    rest: Seq<u8>,
    drops: Drops,
)
    requires
        pfns.len() <= COOP_MAX_EVICT_PFNS,
    ensures
        served(session, request_bytes(session.expected_sequence, pfns) + rest, drops) == (
        Transcript {
            written: response_bytes(
                session.expected_sequence,
                0,
                results_with(session, pfns, drops),
            ),
            dropped: all_drops(session, pfns),
        }).followed_by(
            match next_session(session) {
                Some(next) => served(next, rest, drops),
                None => Transcript::nothing(),
            },
        ),
{
    reveal(served);
    lemma_request_read_back(session.expected_sequence, pfns, rest);
}

/// Fewer bytes than a header are not answered.
pub proof fn law_cut_off_header_is_not_served(session: SessionView, input: Seq<u8>, drops: Drops)
    requires
        input.len() < COOP_EVICT_REQUEST_HEADER_BYTES,
    ensures
        served(session, input, drops) == Transcript::nothing(),
{
    reveal(served);
}

proof fn lemma_results_with(
    session: SessionView,
    pfns: Seq<u64>,
    answers: Answers,
    drops: Drops,
)
    requires
        drops_are(drops, session, pfns, answers),
    ensures
        all_results(session, pfns, answers) == results_with(session, pfns, drops),
{
    assert forall|i: int| 0 <= i < pfns.len() implies page_errno(
        session,
        pfns[i],
        answers(session.expected_sequence, i),
    ) == #[trigger] page_errno_with(session, pfns[i], drops) by {}
    assert(all_results(session, pfns, answers) =~= results_with(session, pfns, drops));
}

proof fn lemma_round_is_served(session: SessionView, round: Round, rest: Seq<u8>, drops: Drops)
    requires
        is_round(session, round),
        drops_are(drops, session, pfns_of(round.body), round.answers),
    ensures
        served(session, (round.header + round.body) + rest, drops) == (Transcript {
            written: round.response,
            dropped: all_drops(session, pfns_of(round.body)),
        }).followed_by(
            match next_session(session) {
                Some(next) => served(next, rest, drops),
                None => Transcript::nothing(),
            },
        ),
{
    lemma_round_is_at_the_start(round, rest);
    lemma_results_with(session, pfns_of(round.body), round.answers, drops);
    reveal(served);
}

proof fn lemma_rounds_are_served(
    session: SessionView,
    rounds: Seq<Round>,
    rest: Seq<u8>,
    drops: Drops,
)
    requires
        session.expected_sequence + rounds.len() <= u64::MAX + 1,
        forall|k: int|
            0 <= k < rounds.len() ==> {
                let at = session_at(session, k);
                &&& is_round(at, #[trigger] rounds[k])
                &&& drops_are(drops, at, pfns_of(rounds[k].body), rounds[k].answers)
            },
    ensures
        served(session, read_in(rounds_calls(session, rounds)) + rest, drops) == done_in(
            rounds_calls(session, rounds),
        ).followed_by(
            if session.expected_sequence + rounds.len() <= u64::MAX {
                served(session_at(session, rounds.len() as int), rest, drops)
            } else {
                Transcript::nothing()
            },
        ),
    decreases rounds.len(),
{
    assert(session_at(session, 0) == session);
    if rounds.len() == 0 {
        assert(Seq::<u8>::empty() + rest =~= rest);
        lemma_nothing_more(served(session, rest, drops));
    } else {
        let tail = rounds.drop_first();
        let next = session_at(session, 1);
        let first = round_calls(session, rounds[0]);
        let others = rounds_calls(next, tail);
        lemma_round_calls(session, rounds[0]);
        lemma_calls_and_others(first, others);
        lemma_concat_is_associative(read_in(first), read_in(others), rest);
        lemma_round_is_served(session, rounds[0], read_in(others) + rest, drops);
        if session.expected_sequence < u64::MAX {
            assert forall|k: int| 0 <= k < tail.len() implies {
                let at = session_at(next, k);
                &&& is_round(at, #[trigger] tail[k])
                &&& drops_are(drops, at, pfns_of(tail[k].body), tail[k].answers)
            } by {
                assert(tail[k] == rounds[k + 1]);
                assert(session_at(next, k) == session_at(session, k + 1));
            }
            lemma_rounds_are_served(next, tail, rest, drops);
            let after = if session.expected_sequence + rounds.len() <= u64::MAX {
                served(session_at(session, rounds.len() as int), rest, drops)
            } else {
                Transcript::nothing()
            };
            assert(session_at(next, tail.len() as int) == session_at(session, rounds.len() as int));
            lemma_followed_by_is_associative(done_in(first), done_in(others), after);
        } else {
            assert(tail =~= Seq::empty());
            lemma_nothing_more(done_in(first));
        }
    }
}

/// A peer gets what its bytes are served with, and nothing else, and the pages that they name are
/// dropped, and no others: each whole request with the next sequence number is answered once, in
/// its turn; one that is at fault is rejected, and nothing after it is answered; one that is cut
/// off is not answered.
pub proof fn law_peer_is_served(
    drops: Drops,
    session: SessionView,
    log: Log,
    before: Peer,
    after: Peer,
)
    requires
        is_log(session, log),
        in_turn(on_peer(drops), before, log.calls(session), after),
    ensures
        after.receives == before.receives + served(session, before.sends, drops).written,
        after.dropped == before.dropped + served(session, before.sends, drops).dropped,
{
    let calls = log.calls(session);
    let count = log.rounds.len() as int;
    let next = session_at(session, count);
    let rounds = rounds_calls(session, log.rounds);
    let end = end_calls(log.end);
    let between = lemma_state_between(on_peer(drops), before, rounds, end, after);
    lemma_as_told(drops, before, rounds, between);
    lemma_rounds_as_told(drops, session, log.rounds);
    lemma_calls_on_peer(drops, before, calls, after);
    lemma_calls_on_peer(drops, before, rounds, between);
    lemma_rounds_are_served(session, log.rounds, between.sends, drops);
    lemma_calls_and_others(rounds, end);
    lemma_end_on_peer(drops, next, log.end, between, after);
    if log.end is NotWritten {
        assert(log.rounds[count - 1].written);
    }
}

/// What is left of what the peer sends is not answered, but for a header that is rejected.
proof fn lemma_end_on_peer(
    drops: Drops,
    session: SessionView,
    end: End,
    before: Peer,
    after: Peer,
)
    requires
        is_end(session, end),
        in_turn(on_peer(drops), before, end_calls(end), after),
    ensures
        end is NoHeader || end is Rejected || end is NoBody ==> served(
            session,
            before.sends,
            drops,
        ) == done_in(end_calls(end)),
        end is NotWritten || end is LastSequence ==> done_in(end_calls(end))
            == Transcript::nothing(),
{
    let calls = end_calls(end);
    let states = choose|states: Seq<Peer>|
        {
            &&& #[trigger] is_chain(on_peer(drops), states, calls)
            &&& states[0] == before
            &&& states.last() == after
        };
    reveal(served);
    match end {
        End::NoHeader => {
            assert(on_peer(drops)(states[0], calls[0], states[1]));
            lemma_single_call(calls[0]);
            assert(calls =~= seq![calls[0]]);
        },
        End::Rejected(header, response, _) => {
            assert(on_peer(drops)(states[0], calls[0], states[1]));
            lemma_header_is_at_the_start(before.sends);
            lemma_two_calls(calls);
            assert(Seq::empty() + response =~= response);
            assert(Seq::<u64>::empty() + Seq::<u64>::empty() =~= Seq::<u64>::empty());
        },
        End::NoBody(header, body) => {
            assert(on_peer(drops)(states[0], calls[0], states[1]));
            assert(on_peer(drops)(states[1], calls[1], states[2]));
            lemma_header_is_at_the_start(before.sends);
            lemma_two_calls(calls);
            assert(Seq::<u8>::empty() + Seq::<u8>::empty() =~= Seq::<u8>::empty());
            assert(Seq::<u64>::empty() + Seq::<u64>::empty() =~= Seq::<u64>::empty());
        },
        _ => {},
    }
}

proof fn lemma_two_calls(calls: Seq<Call>)
    requires
        calls.len() == 2,
    ensures
        done_in(calls) == done_by(calls[0]).followed_by(done_by(calls[1])),
{
    lemma_single_call(calls[0]);
    lemma_single_call(calls[1]);
    lemma_calls_and_others(seq![calls[0]], seq![calls[1]]);
    assert(seq![calls[0]] + seq![calls[1]] =~= calls);
}

} // verus!

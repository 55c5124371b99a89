//! What the steps of a conversation lead to.
//!
//! Each law is about the result of one step, whatever the peer sent and the platform answered.

use vstd::prelude::*;

use crate::cooperation::{
    settle, AdvisedPage, CooperationSession, EvictBatch, EvictStep, HeaderOutcome, PendingBody,
};
use crate::errno::Errnos;
use crate::evict::{
    header_of, page_decision, response_bytes, CooperationRegion, PageDecision,
    COOP_EVICT_REQUEST_HEADER_BYTES,
};
use crate::laws::frames::{
    law_body_holds_one_number_in_eight_bytes, law_header_fields_are_at_their_places,
    law_header_is_refused_for_its_first_fault,
};
use crate::laws::pages::law_batch_goes_on_to_its_next_page;

verus! {

/// A session starts with the regions that it is given, and expects sequence number one.
pub proof fn law_session_starts_with_its_regions(
    errnos: Errnos,
    regions: Vec<CooperationRegion>,
    session: CooperationSession,
)
    requires
        call_ensures(CooperationSession::new, (errnos, regions), session),
    ensures
        session@.errnos == errnos,
        session@.regions == regions@,
        session@.expected_sequence == 1,
{
}

/// A header is accepted exactly if its first byte is 1, its second 2, the next two zero, the next
/// eight the expected sequence number and the last four a count of at most 65536, least significant
/// byte first; and then so many page-frame numbers are expected. Any other is answered with its own
/// sequence number, the error of its first fault and no results.
pub proof fn law_header_is_accepted_by_its_bytes(
    session: CooperationSession,
    header: &[u8; COOP_EVICT_REQUEST_HEADER_BYTES],
    outcome: HeaderOutcome,
)
    requires
        call_ensures(CooperationSession::receive_header, (session, header), outcome),
    ensures
        ({
            let sequence = header@[4] + 256 * header@[5] + 65_536 * header@[6] + 16_777_216
                * header@[7] + 4_294_967_296 * header@[8] + 1_099_511_627_776 * header@[9]
                + 281_474_976_710_656 * header@[10] + 72_057_594_037_927_936 * header@[11];
            let count = header@[12] + 256 * header@[13] + 65_536 * header@[14] + 16_777_216
                * header@[15];
            let in_order = header@[2] == 0 && header@[3] == 0 && sequence
                == session@.expected_sequence;
            let errnos = session@.errnos;
            match outcome {
                HeaderOutcome::Accepted(pending) => {
                    &&& header@[0] == 1 && header@[1] == 2 && in_order && count <= 65_536
                    &&& pending@.count == count
                    &&& pending@.session == session@
                },
                HeaderOutcome::Rejected(response) => {
                    let errno = if header@[0] != 1 {
                        errnos.eopnotsupp
                    } else if header@[1] != 2 {
                        errnos.eprotonosupport
                    } else if !in_order {
                        errnos.eproto
                    } else {
                        errnos.e2big
                    };
                    &&& !(header@[0] == 1 && header@[1] == 2 && in_order && count <= 65_536)
                    &&& response@ == response_bytes(sequence as u64, errno, Seq::empty())
                },
            }
        }),
{
    law_header_fields_are_at_their_places(header@);
    law_header_is_refused_for_its_first_fault(
        session@.errnos,
        header_of(header@),
        session@.expected_sequence,
    );
}

/// Eight bytes are expected for each page-frame number.
pub proof fn law_body_has_eight_bytes_for_each_number(pending: &PendingBody, len: usize)
    requires
        call_ensures(PendingBody::body_len, (pending,), len),
    ensures
        len == 8 * pending@.count,
{
}

/// The body is taken apart into its numbers, and none of them has a result yet.
pub proof fn law_body_is_taken_apart(pending: PendingBody, body: &[u8], batch: EvictBatch)
    requires
        body@.len() == 8 * pending@.count,
        call_ensures(PendingBody::receive_body, (pending, body), batch),
    ensures
        batch@.session == pending@.session,
        batch@.results.len() == 0,
        batch@.pfns.len() == pending@.count,
        forall|i: int|
            0 <= i < batch@.pfns.len() ==> #[trigger] batch@.pfns[i] == body@[8 * i] + 256 * body@[8
                * i + 1] + 65_536 * body@[8 * i + 2] + 16_777_216 * body@[8 * i + 3] + 4_294_967_296
                * body@[8 * i + 4] + 1_099_511_627_776 * body@[8 * i + 5] + 281_474_976_710_656
                * body@[8 * i + 6] + 72_057_594_037_927_936 * body@[8 * i + 7],
{
    law_body_holds_one_number_in_eight_bytes(body@);
}

/// The results of a batch stay, and each number after them up to the next that has a page dropped
/// gets the result that was decided about it. That page is then to be dropped. Where there is none,
/// all results are answered without an error of the frame, and the session goes on with the next
/// sequence number, unless there is none.
pub proof fn law_batch_goes_on_number_by_number(batch: EvictBatch, step: EvictStep)
    requires
        batch@.results.len() <= batch@.pfns.len(),
        call_ensures(EvictBatch::next_step, (batch,), step),
    ensures
        ({
            let session = batch@.session;
            let n = batch@.results.len() as int;
            let decision = |i: int|
                page_decision(session.errnos, session.regions, batch@.pfns[i]);
            match step {
                EvictStep::Advise(page) => {
                    let results = page@.batch.results;
                    &&& page@.batch.session == session
                    &&& page@.batch.pfns == batch@.pfns
                    &&& n <= results.len() < batch@.pfns.len()
                    &&& results.take(n) == batch@.results
                    &&& forall|i: int|
                        n <= i < results.len() ==> {
                            &&& (#[trigger] results[i]).0 == batch@.pfns[i]
                            &&& decision(i) == PageDecision::Settled(results[i].1)
                        }
                    &&& decision(results.len() as int) == PageDecision::Advise(page@.host_va)
                },
                EvictStep::Respond(response, next) => exists|results: Seq<(u64, i32)>|
                    {
                        &&& results.len() == batch@.pfns.len()
                        &&& results.take(n) == batch@.results
                        &&& forall|i: int|
                            n <= i < results.len() ==> {
                                &&& (#[trigger] results[i]).0 == batch@.pfns[i]
                                &&& decision(i) == PageDecision::Settled(results[i].1)
                            }
                        &&& response@ == #[trigger] response_bytes(
                            session.expected_sequence,
                            0,
                            results,
                        )
                        &&& match next {
                            None => session.expected_sequence == 0xffff_ffff_ffff_ffff,
                            Some(after) => {
                                &&& after@.expected_sequence == session.expected_sequence + 1
                                &&& after@.regions == session.regions
                                &&& after@.errnos == session.errnos
                            },
                        }
                    },
            }
        }),
{
    let settled = settle(batch@);
    law_batch_goes_on_to_its_next_page(batch@);
    assert(settled.take(batch@.results.len() as int) =~= batch@.results);
    assert(response_bytes(batch@.session.expected_sequence, 0, settled) == response_bytes(
        batch@.session.expected_sequence,
        0,
        settled,
    ));
}

/// The page that is to be dropped is the one that was decided about.
pub proof fn law_advised_page_is_dropped(page: &AdvisedPage, host_va: u64)
    requires
        call_ensures(AdvisedPage::host_va, (page,), host_va),
    ensures
        host_va == page@.host_va,
{
}

/// What came of dropping a page becomes the result of the number that is next: zero where the page
/// was dropped, the platform's number where that is positive, and that of an input/output error
/// otherwise. All else stays.
pub proof fn law_dropped_page_gets_its_result(
    page: AdvisedPage,
    outcome: Result<(), i32>,
    batch: EvictBatch,
)
    requires
        call_ensures(AdvisedPage::record, (page, outcome), batch),
    ensures
        ({
            let before = page@.batch;
            &&& batch@.session == before.session
            &&& batch@.pfns == before.pfns
            &&& batch@.results.len() == before.results.len() + 1
            &&& batch@.results.drop_last() == before.results
            &&& batch@.results.last().0 == before.pfns[before.results.len() as int]
            &&& match outcome {
                Ok(()) => batch@.results.last().1 == 0,
                Err(errno) => batch@.results.last().1 == (if errno > 0 {
                    errno
                } else {
                    before.session.errnos.eio
                }),
            }
        }),
{
    assert(batch@.results.drop_last() =~= page@.batch.results);
}

} // verus!

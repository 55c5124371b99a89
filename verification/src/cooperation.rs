//! The servicing of EVICT requests after the handoff.
//!
//! The peer's requests and the answers to them form a conversation on one socket. Each type here
//! is a point of it, and each of its methods takes what came next and gives the point after that:
//! a [`CooperationSession`] waits for a header, a [`PendingBody`] for the page-frame numbers that
//! the header announced, an [`EvictBatch`] works through them, and an [`AdvisedPage`] waits for
//! what came of dropping one page. Reading, writing and dropping pages are the caller's part.

use vstd::prelude::*;

use crate::errno::Errnos;
use crate::evict::{
    self, advice_result, decode_pfns, encode_evict_response, evict_one_pfn, CooperationRegion,
    EvictHeader, PageDecision, COOP_EVICT_REQUEST_HEADER_BYTES, COOP_MAX_EVICT_PFNS, COOP_PFN_BYTES,
};

verus! {

/// What a session knows: the error numbers, the regions, and the sequence number that the next
/// request must carry.
pub ghost struct SessionView {
    pub errnos: Errnos,
    pub regions: Seq<CooperationRegion>,
    pub expected_sequence: u64,
}

/// A conversation that waits for the header of a request.
#[derive(Debug)]
pub struct CooperationSession {
    errnos: Errnos,
    regions: Vec<CooperationRegion>,
    expected_sequence: u64,
}

impl View for CooperationSession {
    type V = SessionView;

    closed spec fn view(&self) -> SessionView {
        SessionView {
            errnos: self.errnos,
            regions: self.regions@,
            expected_sequence: self.expected_sequence,
        }
    }
}

/// A request whose header was accepted, and which waits for its body.
pub ghost struct PendingView {
    pub session: SessionView,
    pub count: nat,
}

/// A conversation that waits for the body of a request.
#[derive(Debug)]
pub struct PendingBody {
    session: CooperationSession,
    count: usize,
}

impl View for PendingBody {
    type V = PendingView;

    closed spec fn view(&self) -> PendingView {
        PendingView { session: self.session@, count: self.count as nat }
    }
}

/// A request in the works: its page-frame numbers, and the results of the first of them.
pub ghost struct BatchView {
    pub session: SessionView,
    pub pfns: Seq<u64>,
    pub results: Seq<(u64, i32)>,
}

/// A conversation that works through the page-frame numbers of a request.
#[derive(Debug)]
pub struct EvictBatch {
    session: CooperationSession,
    pfns: Vec<u64>,
    results: Vec<(u64, i32)>,
}

impl View for EvictBatch {
    type V = BatchView;

    closed spec fn view(&self) -> BatchView {
        BatchView { session: self.session@, pfns: self.pfns@, results: self.results@ }
    }
}

/// A request in the works that waits for a page to be dropped, and the address of that page.
pub ghost struct AdvisedView {
    pub batch: BatchView,
    pub host_va: u64,
}

/// A conversation that waits for what came of dropping one page.
#[derive(Debug)]
pub struct AdvisedPage {
    batch: EvictBatch,
    host_va: u64,
}

impl View for AdvisedPage {
    type V = AdvisedView;

    closed spec fn view(&self) -> AdvisedView {
        AdvisedView { batch: self.batch@, host_va: self.host_va }
    }
}

/// What the header of a request leads to.
#[derive(Debug)]
pub enum HeaderOutcome {
    /// This response is to be written, and the connection closed.
    Rejected(Vec<u8>),
    /// The body is to be read.
    Accepted(PendingBody),
}

/// What is next for a request in the works.
#[derive(Debug)]
pub enum EvictStep {
    /// A page is to be dropped.
    Advise(AdvisedPage),
    /// This response is to be written; then the conversation goes on, or the connection is closed
    /// where it does not.
    Respond(Vec<u8>, Option<CooperationSession>),
}

/// The session after a request was answered. Sequence numbers end with the largest `u64`.
pub open spec fn next_session(session: SessionView) -> Option<SessionView> {
    if session.expected_sequence < u64::MAX {
        Some(
            SessionView {
                expected_sequence: (session.expected_sequence + 1) as u64,
                ..session
            },
        )
    } else {
        None
    }
}

/// The results of a batch, with those of the page-frame numbers that come next and need no page
/// to be dropped.
pub open spec fn settle(batch: BatchView) -> Seq<(u64, i32)>
    decreases batch.pfns.len() - batch.results.len(),
{
    if batch.results.len() >= batch.pfns.len() {
        batch.results
    } else {
        let pfn = batch.pfns[batch.results.len() as int];
        match evict::page_decision(batch.session.errnos, batch.session.regions, pfn) {
            PageDecision::Settled(errno) => settle(
                BatchView { results: batch.results.push((pfn, errno)), ..batch },
            ),
            PageDecision::Advise(_) => batch.results,
        }
    }
}

impl CooperationSession {
    /// Starts the conversation. The first request carries sequence number one.
    pub fn new(errnos: Errnos, regions: Vec<CooperationRegion>) -> (session: CooperationSession)
        ensures
            session@ == (SessionView { errnos, regions: regions@, expected_sequence: 1 }),
    {
        CooperationSession { errnos, regions, expected_sequence: 1 }
    }

    /// Takes the header of a request. One that is at fault is answered with its own sequence
    /// number, the error and no results.
    pub fn receive_header(self, header: &[u8; COOP_EVICT_REQUEST_HEADER_BYTES]) -> (outcome:
        HeaderOutcome)
        ensures
            match evict::header_fault(
                self@.errnos,
                evict::header_of(header@),
                self@.expected_sequence,
            ) {
                Some(errno) => outcome matches HeaderOutcome::Rejected(response) && response@
                    == evict::response_bytes(
                    evict::header_of(header@).sequence,
                    errno,
                    Seq::empty(),
                ),
                None => outcome matches HeaderOutcome::Accepted(pending) && pending@ == (
                PendingView {
                    session: self@,
                    count: evict::header_of(header@).count as nat,
                }),
            },
    {
        let header = EvictHeader::decode(header);
        match header.fault(&self.errnos, self.expected_sequence) {
            Some(errno) => {
                let results: Vec<(u64, i32)> = Vec::new();
                assert(results@ =~= Seq::empty());
                HeaderOutcome::Rejected(
                    encode_evict_response(header.sequence, errno, results.as_slice()),
                )
            },
            None => HeaderOutcome::Accepted(
                PendingBody { session: self, count: header.count as usize },
            ),
        }
    }
}

impl PendingBody {
    #[verifier::type_invariant]
    spec fn inv(self) -> bool {
        self.count <= COOP_MAX_EVICT_PFNS
    }

    /// How many bytes of body the request has.
    pub fn body_len(&self) -> (len: usize)
        ensures
            len == self@.count * COOP_PFN_BYTES,
    {
        proof {
            use_type_invariant(self);
        }
        self.count * COOP_PFN_BYTES
    }

    /// Takes the body of the request.
    pub fn receive_body(self, body: &[u8]) -> (batch: EvictBatch)
        requires
            body@.len() == self@.count * COOP_PFN_BYTES,
        ensures
            batch@ == (BatchView {
                session: self@.session,
                pfns: evict::pfns_of(body@),
                results: Seq::empty(),
            }),
    {
        proof {
            use_type_invariant(&self);
        }
        let pfns = decode_pfns(body);
        let results: Vec<(u64, i32)> = Vec::with_capacity(pfns.len());
        EvictBatch { session: self.session, pfns, results }
    }
}

impl EvictBatch {
    #[verifier::type_invariant]
    spec fn inv(self) -> bool {
        self.results@.len() <= self.pfns@.len() <= COOP_MAX_EVICT_PFNS
    }

    /// Goes on to the next page that is to be dropped, or to the response where none is left.
    pub fn next_step(self) -> (step: EvictStep)
        ensures
            ({
                let session = self@.session;
                let results = settle(self@);
                if results.len() < self@.pfns.len() {
                    &&& step matches EvictStep::Advise(page)
                    &&& page@.batch == (BatchView { results, ..self@ })
                    &&& evict::page_decision(
                        session.errnos,
                        session.regions,
                        self@.pfns[results.len() as int],
                    ) == PageDecision::Advise(page@.host_va)
                } else {
                    &&& step matches EvictStep::Respond(response, next)
                    &&& response@ == evict::response_bytes(session.expected_sequence, 0, results)
                    &&& match next {
                        Some(after) => next_session(session) == Some(after@),
                        None => next_session(session) is None,
                    }
                }
            }),
    {
        proof {
            use_type_invariant(&self);
        }
        let ghost start = self@;
        let session = self.session;
        let pfns = self.pfns;
        let mut results = self.results;
        while results.len() < pfns.len()
            invariant
                results@.len() <= pfns@.len() <= COOP_MAX_EVICT_PFNS,
                start == self@,
                start.session == session@,
                start.pfns == pfns@,
                settle(start) == settle(BatchView { results: results@, ..start }),
            decreases pfns@.len() - results@.len(),
        {
            let pfn: u64 = pfns[results.len()];
            match evict_one_pfn(&session.errnos, session.regions.as_slice(), pfn) {
                PageDecision::Settled(errno) => results.push((pfn, errno)),
                PageDecision::Advise(host_va) => {
                    return EvictStep::Advise(
                        AdvisedPage { batch: EvictBatch { session, pfns, results }, host_va },
                    );
                },
            }
        }
        let response = encode_evict_response(session.expected_sequence, 0, results.as_slice());
        let next = match session.expected_sequence.checked_add(1) {
            Some(expected_sequence) => Some(CooperationSession { expected_sequence, ..session }),
            None => None,
        };
        EvictStep::Respond(response, next)
    }
}

impl AdvisedPage {
    #[verifier::type_invariant]
    spec fn inv(self) -> bool {
        self.batch.results@.len() < self.batch.pfns@.len() <= COOP_MAX_EVICT_PFNS
    }

    /// The host virtual address of the page that is to be dropped.
    pub fn host_va(&self) -> (host_va: u64)
        ensures
            host_va == self@.host_va,
    {
        self.host_va
    }

    /// Takes what came of dropping the page.
    pub fn record(self, outcome: Result<(), i32>) -> (batch: EvictBatch)
        ensures
            batch@ == (BatchView {
                results: self@.batch.results.push(
                    (
                        self@.batch.pfns[self@.batch.results.len() as int],
                        evict::advice_errno(self@.batch.session.errnos, outcome),
                    ),
                ),
                ..self@.batch
            }),
    {
        proof {
            use_type_invariant(&self);
        }
        let EvictBatch { session, pfns, mut results } = self.batch;
        let errno: i32 = advice_result(&session.errnos, outcome);
        results.push((pfns[results.len()], errno));
        EvictBatch { session, pfns, results }
    }
}

} // verus!

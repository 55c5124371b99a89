//! Handoff of guest memory to an external page-fault servicing process.
//!
//! A virtual machine monitor registers every guest RAM region with one `userfaultfd` descriptor,
//! right after guest memory is created, and sends the descriptor over a Unix socket together with
//! metadata: a 4-byte little-endian length prefix, then a JSON document. The peer acknowledges the
//! handoff with a single byte before the machine boots. Then the same socket carries sequenced
//! EVICT requests; each is answered only after every requested page was dropped, with the error
//! number of each page.
//!
//! This crate decides: what to try, what to fall back to, what to report, what to write, and when
//! to close. It does so step by step, on what came of the step before; the system calls are the
//! caller's part. Every failure on the way to the acknowledgement fails the handoff.
//!
//! - [`creation`], [`registration`] and [`handoff`] are the steps of a handoff, and [`perform`]
//!   runs them; [`course`] states what they come to together, and [`calls`] which calls are made.
//! - [`evict`] has the frames of the requests and responses, and what is done about one page;
//!   [`cooperation`] the steps of serving them, which [`service`] runs; [`conversation`] states
//!   what holds of all that is written and dropped, [`log`] which calls are made, and [`peer`] what
//!   the peer gets.
//! - [`turns`] says what it is for calls to be made one after another.
//! - [`laws`] tells what all of these do in the fields, bytes and numbers that go in and come out.
//! - [`metadata`], [`error`], [`errno`], [`wire`] and [`text`] have what these are made of.

pub mod calls;
pub mod conversation;
pub mod cooperation;
pub mod course;
pub mod creation;
pub mod errno;
pub mod error;
pub mod evict;
pub mod handoff;
pub mod laws;
pub mod log;
pub mod metadata;
pub mod peer;
pub mod perform;
pub mod registration;
pub mod service;
pub mod text;
pub mod turns;
pub mod wire;

pub use cooperation::{
    AdvisedPage, CooperationSession, EvictBatch, EvictStep, HeaderOutcome, PendingBody,
};
pub use creation::{
    begin_uffd_handoff, minor_open_flags, Creation, DescriptorOptions, MinorCreation,
    MinorNegotiation, PlainCreation, UffdioApi, UFFDIO_API_REQUEST,
};
pub use errno::Errnos;
pub use error::UffdHandoffError;
pub use evict::{
    advice_result, decode_pfns, encode_evict_response, evict_one_pfn, madvise_outcome,
    CooperationRegion, EvictHeader, PageDecision, COOP_EVICT_REQUEST_HEADER_BYTES,
    COOP_EVICT_RESPONSE_HEADER_BYTES, COOP_EVICT_RESULT_BYTES, COOP_FRAME_VERSION,
    COOP_MAX_EVICT_PFNS, COOP_OP_EVICT, COOP_OP_EVICT_RESULT, COOP_PAGE_SIZE,
};
pub use handoff::{
    send_outcome, AcknowledgedHandoff, ConnectedHandoff, DescribedHandoff, FramedHandoff,
    RegisteredRegions, SendOutcome, SentHandoff,
};
pub use metadata::{
    cooperation_regions, describe_handoff, frame_document, UffdHandoffMetadata, UffdHandoffRegion,
    UffdHandoffRegionSource, UFFD_HANDOFF_ACK, UFFD_HANDOFF_PROTOCOL, UFFD_HANDOFF_VERSION,
};
pub use perform::{
    create_uffd, create_uffd_minor, deliver_uffd_handoff, perform_uffd_handoff, register_regions,
};
pub use registration::{RegisterMode, RegisterRequest, Registration, RegistrationStep};
pub use service::{answer_request, cooperation_loop_with_madvise, serve_request};

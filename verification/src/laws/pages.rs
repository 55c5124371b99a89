//! What is done about the pages of a request.

use vstd::prelude::*;

use crate::conversation::{all_drops, all_results, page_errno, Answers};
use crate::cooperation::{next_session, settle, BatchView, SessionView};
use crate::errno::Errnos;
use crate::evict::{
    advice_errno, covering, covers, page_decision, CooperationRegion, PageDecision,
};

verus! {

/// What is decided about a page that lies whole inside a region, and inside none before it: it is
/// dropped at its place in the host's mapping of that region. It is not where the region is shared,
/// or where that place lies beyond the address space.
///
/// A region that ends beyond the guest's address space has no pages.
pub proof fn law_page_inside_a_region_is_dropped_at_its_place(
    errnos: Errnos,
    regions: Seq<CooperationRegion>,
    pfn: u64,
    i: int,
)
    requires
        0 <= i < regions.len(),
        regions[i].guest_phys_addr + regions[i].len <= 0xffff_ffff_ffff_ffff,
        regions[i].guest_phys_addr <= pfn * 4096,
        pfn * 4096 + 4096 <= regions[i].guest_phys_addr + regions[i].len,
        forall|j: int|
            0 <= j < i ==> {
                ||| pfn * 4096 < (#[trigger] regions[j]).guest_phys_addr
                ||| pfn * 4096 + 4096 > regions[j].guest_phys_addr + regions[j].len
                ||| regions[j].guest_phys_addr + regions[j].len > 0xffff_ffff_ffff_ffff
            },
    ensures
        ({
            let region = regions[i];
            let place = region.host_virt_addr + pfn * 4096 - region.guest_phys_addr;
            let decision = page_decision(errnos, regions, pfn);
            &&& region.shared ==> decision == PageDecision::Settled(errnos.eopnotsupp)
            &&& !region.shared && place <= 0xffff_ffff_ffff_ffff ==> {
                &&& decision matches PageDecision::Advise(host_va)
                &&& host_va == place
            }
            &&& !region.shared && place > 0xffff_ffff_ffff_ffff ==> decision
                == PageDecision::Settled(errnos.erange)
        }),
    decreases i,
{
    if i > 0 {
        assert(!covers(regions[0], pfn));
        let rest = regions.drop_first();
        assert forall|j: int| 0 <= j < i - 1 implies {
            ||| pfn * 4096 < (#[trigger] rest[j]).guest_phys_addr
            ||| pfn * 4096 + 4096 > rest[j].guest_phys_addr + rest[j].len
            ||| rest[j].guest_phys_addr + rest[j].len > 0xffff_ffff_ffff_ffff
        } by {
            assert(rest[j] == regions[j + 1]);
        }
        law_page_inside_a_region_is_dropped_at_its_place(errnos, rest, pfn, i - 1);
    }
}

/// A page that lies whole inside a private region whose mapping ends inside the address space, and
/// that no region before it overlaps, is dropped.
pub proof fn law_page_of_a_private_region_is_dropped(
    errnos: Errnos,
    regions: Seq<CooperationRegion>,
    pfn: u64,
    i: int,
)
    requires
        0 <= i < regions.len(),
        !regions[i].shared,
        regions[i].guest_phys_addr + regions[i].len <= 0xffff_ffff_ffff_ffff,
        regions[i].host_virt_addr + regions[i].len <= 0xffff_ffff_ffff_ffff,
        regions[i].guest_phys_addr <= pfn * 4096,
        pfn * 4096 + 4096 <= regions[i].guest_phys_addr + regions[i].len,
        forall|j: int|
            0 <= j < i ==> {
                ||| pfn * 4096 + 4096 <= (#[trigger] regions[j]).guest_phys_addr
                ||| regions[j].guest_phys_addr + regions[j].len <= pfn * 4096
            },
    ensures
        page_decision(errnos, regions, pfn) matches PageDecision::Advise(host_va) && host_va
            == regions[i].host_virt_addr + pfn * 4096 - regions[i].guest_phys_addr,
{
    assert forall|j: int| 0 <= j < i implies {
        ||| pfn * 4096 < (#[trigger] regions[j]).guest_phys_addr
        ||| pfn * 4096 + 4096 > regions[j].guest_phys_addr + regions[j].len
        ||| regions[j].guest_phys_addr + regions[j].len > 0xffff_ffff_ffff_ffff
    } by {}
    law_page_inside_a_region_is_dropped_at_its_place(errnos, regions, pfn, i);
}

/// A page that lies whole inside no region is out of range.
pub proof fn law_page_outside_every_region_is_out_of_range(
    errnos: Errnos,
    regions: Seq<CooperationRegion>,
    pfn: u64,
)
    requires
        forall|j: int|
            0 <= j < regions.len() ==> {
                ||| pfn * 4096 < (#[trigger] regions[j]).guest_phys_addr
                ||| pfn * 4096 + 4096 > regions[j].guest_phys_addr + regions[j].len
                ||| regions[j].guest_phys_addr + regions[j].len > 0xffff_ffff_ffff_ffff
            },
    ensures
        page_decision(errnos, regions, pfn) == PageDecision::Settled(errnos.erange),
    decreases regions.len(),
{
    if regions.len() > 0 {
        assert(!covers(regions[0], pfn));
        let rest = regions.drop_first();
        assert forall|j: int| 0 <= j < rest.len() implies {
            ||| pfn * 4096 < (#[trigger] rest[j]).guest_phys_addr
            ||| pfn * 4096 + 4096 > rest[j].guest_phys_addr + rest[j].len
            ||| rest[j].guest_phys_addr + rest[j].len > 0xffff_ffff_ffff_ffff
        } by {
            assert(rest[j] == regions[j + 1]);
        }
        law_page_outside_every_region_is_out_of_range(errnos, rest, pfn);
    }
}

/// Two page-frame numbers that have pages of one region dropped have them dropped as far apart as
/// the numbers are, in pages of 4096 bytes.
pub proof fn law_pages_lie_in_the_host_as_in_the_guest(
    errnos: Errnos,
    region: CooperationRegion,
    pfn: u64,
    other: u64,
)
    requires
        page_decision(errnos, seq![region], pfn) is Advise,
        page_decision(errnos, seq![region], other) is Advise,
    ensures
        page_decision(errnos, seq![region], other)->Advise_0 - page_decision(
            errnos,
            seq![region],
            pfn,
        )->Advise_0 == 4096 * (other - pfn),
{
    reveal_with_fuel(covering, 2);
}

/// The number in a response is zero where the page was dropped, the platform's where that is
/// positive, and that of an input/output error otherwise.
pub proof fn law_result_tells_what_dropping_came_to(errnos: Errnos, outcome: Result<(), i32>)
    ensures
        outcome is Ok ==> advice_errno(errnos, outcome) == 0,
        outcome matches Err(errno) ==> {
            &&& errno > 0 ==> advice_errno(errnos, outcome) == errno
            &&& errno <= 0 ==> advice_errno(errnos, outcome) == errnos.eio
        },
{
}

/// A response has as many results as the request has page-frame numbers, and result `i` names
/// number `i` and tells what came of its page, by what was decided about it.
pub proof fn law_result_belongs_to_its_number(
    session: SessionView,
    pfns: Seq<u64>,
    answers: Answers,
    i: int,
)
    requires
        0 <= i < pfns.len(),
    ensures
        all_results(session, pfns, answers).len() == pfns.len(),
        all_results(session, pfns, answers)[i].0 == pfns[i],
        match page_decision(session.errnos, session.regions, pfns[i]) {
            PageDecision::Settled(errno) => all_results(session, pfns, answers)[i].1 == errno,
            PageDecision::Advise(_) => match answers(session.expected_sequence, i) {
                Ok(()) => all_results(session, pfns, answers)[i].1 == 0,
                Err(errno) => all_results(session, pfns, answers)[i].1 == (if errno > 0 {
                    errno
                } else {
                    session.errnos.eio
                }),
            },
        },
        match page_decision(session.errnos, session.regions, pfns[i]) {
            PageDecision::Settled(errno) => page_errno(
                session,
                pfns[i],
                answers(session.expected_sequence, i),
            ) == errno,
            PageDecision::Advise(_) => true,
        },
{
}

/// Without page-frame numbers no page is dropped; one number more has one page more dropped, after
/// the others, exactly if its page is to be.
pub proof fn law_each_number_drops_its_page(session: SessionView, pfns: Seq<u64>, pfn: u64)
    ensures
        all_drops(session, Seq::empty()) == Seq::<u64>::empty(),
        match page_decision(session.errnos, session.regions, pfn) {
            PageDecision::Advise(host_va) => all_drops(session, pfns.push(pfn)) == all_drops(
                session,
                pfns,
            ).push(host_va),
            PageDecision::Settled(_) => all_drops(session, pfns.push(pfn)) == all_drops(
                session,
                pfns,
            ),
        },
    decreases pfns.len(),
{
    let all = pfns.push(pfn);
    if pfns.len() == 0 {
        assert(all.drop_first() =~= Seq::empty());
        assert(pfns =~= Seq::empty());
        assert(all_drops(session, all.drop_first()) =~= Seq::empty());
        if let PageDecision::Advise(host_va) = page_decision(
            session.errnos,
            session.regions,
            pfn,
        ) {
            assert(all_drops(session, all) =~= all_drops(session, pfns).push(host_va));
        }
    } else {
        let rest = pfns.drop_first();
        assert(all.drop_first() =~= rest.push(pfn));
        law_each_number_drops_its_page(session, rest, pfn);
        match page_decision(session.errnos, session.regions, pfns[0]) {
            PageDecision::Advise(first) => {
                if let PageDecision::Advise(host_va) = page_decision(
                    session.errnos,
                    session.regions,
                    pfn,
                ) {
                    assert(seq![first] + all_drops(session, rest).push(host_va) =~= (seq![first]
                        + all_drops(session, rest)).push(host_va));
                }
            },
            PageDecision::Settled(_) => {},
        }
    }
}

/// A request is followed by the next sequence number, on the same regions; the largest number by
/// none.
pub proof fn law_next_request_has_the_next_number(session: SessionView)
    ensures
        session.expected_sequence == 0xffff_ffff_ffff_ffff ==> next_session(session) is None,
        session.expected_sequence < 0xffff_ffff_ffff_ffff ==> {
            &&& next_session(session) matches Some(next)
            &&& next.expected_sequence == session.expected_sequence + 1
            &&& next.regions == session.regions
            &&& next.errnos == session.errnos
        },
{
}

/// A batch that goes on to its next page keeps its results and adds those of the page-frame numbers
/// that need no page to be dropped, up to the first that needs one.
pub proof fn law_batch_goes_on_to_its_next_page(batch: BatchView)
    requires
        batch.results.len() <= batch.pfns.len(),
    ensures
        ({
            let n = batch.results.len() as int;
            let settled = settle(batch);
            let decision = |i: int|
                page_decision(batch.session.errnos, batch.session.regions, batch.pfns[i]);
            &&& n <= settled.len() <= batch.pfns.len()
            &&& forall|i: int| 0 <= i < n ==> settled[i] == #[trigger] batch.results[i]
            &&& forall|i: int|
                #![trigger settled[i]]
                n <= i < settled.len() ==> {
                    &&& settled[i].0 == batch.pfns[i]
                    &&& decision(i) == PageDecision::Settled(settled[i].1)
                }
            &&& settled.len() < batch.pfns.len() ==> decision(settled.len() as int) is Advise
        }),
    decreases batch.pfns.len() - batch.results.len(),
{
    if batch.results.len() < batch.pfns.len() {
        let pfn = batch.pfns[batch.results.len() as int];
        if let PageDecision::Settled(errno) = page_decision(
            batch.session.errnos,
            batch.session.regions,
            pfn,
        ) {
            let next = BatchView { results: batch.results.push((pfn, errno)), ..batch };
            law_batch_goes_on_to_its_next_page(next);
            assert forall|i: int| 0 <= i < batch.results.len() implies settle(batch)[i]
                == #[trigger] batch.results[i] by {
                assert(next.results[i] == batch.results[i]);
            }
            assert(next.results[batch.results.len() as int] == (pfn, errno));
        }
    }
}

/// The numbers of the errors are positive and differ from one another, and are those of Linux.
pub proof fn law_error_numbers_are_told_apart(errnos: Errnos)
    ensures
        errnos.of_linux() ==> {
            &&& errnos.e2big == 7
            &&& errnos.eio == 5
            &&& errnos.erange == 34
            &&& errnos.eopnotsupp == 95 || errnos.eopnotsupp == 122 || errnos.eopnotsupp == 45
            &&& errnos.eproto == 71 || errnos.eproto == 86
            &&& errnos.eprotonosupport == errnos.eopnotsupp - 2
        },
        errnos.valid() ==> {
            &&& 0 < errnos.e2big && 0 < errnos.eio && 0 < errnos.eopnotsupp
            &&& 0 < errnos.eproto && 0 < errnos.eprotonosupport && 0 < errnos.erange
            &&& errnos.e2big != errnos.eio && errnos.e2big != errnos.eopnotsupp
            &&& errnos.e2big != errnos.eproto && errnos.e2big != errnos.eprotonosupport
            &&& errnos.e2big != errnos.erange && errnos.eio != errnos.eopnotsupp
            &&& errnos.eio != errnos.eproto && errnos.eio != errnos.eprotonosupport
            &&& errnos.eio != errnos.erange && errnos.eopnotsupp != errnos.eproto
            &&& errnos.eopnotsupp != errnos.eprotonosupport && errnos.eopnotsupp != errnos.erange
            &&& errnos.eproto != errnos.eprotonosupport && errnos.eproto != errnos.erange
            &&& errnos.eprotonosupport != errnos.erange
        },
{
    if errnos.valid() {
        let numbers = seq![
            errnos.e2big,
            errnos.eio,
            errnos.eopnotsupp,
            errnos.eproto,
            errnos.eprotonosupport,
            errnos.erange,
        ];
        assert(numbers[0] == errnos.e2big && numbers[1] == errnos.eio);
        assert(numbers[2] == errnos.eopnotsupp && numbers[3] == errnos.eproto);
        assert(numbers[4] == errnos.eprotonosupport && numbers[5] == errnos.erange);
    }
}

} // verus!

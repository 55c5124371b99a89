//! Calls that are made one after another.
//!
//! A function that makes a call from outside takes the state of what lies outside and gives it
//! back, so that there is one such state at a time. What the calls were, and that there were no
//! others, is then told by how they lead from the first state to the last.

use vstd::prelude::*;

verus! {

/// Whether a call, with its answer, leads from one state to another.
pub type Made<S, C> = spec_fn(S, C, S) -> bool;

/// Whether each of the calls leads from the state before it to the state after it.
pub open spec fn is_chain<S, C>(made: Made<S, C>, states: Seq<S>, calls: Seq<C>) -> bool {
    &&& states.len() == calls.len() + 1
    &&& forall|k: int|
        0 <= k < calls.len() ==> made(states[k], #[trigger] calls[k], states[k + 1])
}

/// Whether these calls, one after another and no others, lead from one state to another.
pub open spec fn in_turn<S, C>(made: Made<S, C>, from: S, calls: Seq<C>, to: S) -> bool {
    exists|states: Seq<S>|
        {
            &&& #[trigger] is_chain(made, states, calls)
            &&& states[0] == from
            &&& states.last() == to
        }
}

/// Without a call the state stays.
pub(crate) proof fn lemma_no_call<S, C>(made: Made<S, C>, state: S)
    ensures
        in_turn(made, state, Seq::<C>::empty(), state),
{
    assert(is_chain(made, seq![state], Seq::<C>::empty()));
}

/// One call more.
pub(crate) proof fn lemma_one_more_call<S, C>(
    made: Made<S, C>,
    from: S,
    calls: Seq<C>,
    before: S,
    call: C,
    after: S,
)
    requires
        in_turn(made, from, calls, before),
        made(before, call, after),
    ensures
        in_turn(made, from, calls.push(call), after),
{
    let states = choose|states: Seq<S>|
        {
            &&& #[trigger] is_chain(made, states, calls)
            &&& states[0] == from
            &&& states.last() == before
        };
    let all = calls.push(call);
    let longer = states.push(after);
    assert forall|k: int| 0 <= k < all.len() implies made(
        longer[k],
        #[trigger] all[k],
        longer[k + 1],
    ) by {
        if k < calls.len() {
            assert(all[k] == calls[k]);
        }
    }
    assert(is_chain(made, longer, all));
}

/// One call alone.
pub(crate) proof fn lemma_one_call<S, C>(made: Made<S, C>, before: S, call: C, after: S)
    requires
        made(before, call, after),
    ensures
        in_turn(made, before, seq![call], after),
{
    lemma_no_call(made, before);
    lemma_one_more_call(made, before, Seq::empty(), before, call, after);
    assert(Seq::empty().push(call) =~= seq![call]);
}

/// Calls, and then others.
pub(crate) proof fn lemma_more_calls<S, C>(
    made: Made<S, C>,
    from: S,
    calls: Seq<C>,
    between: S,
    others: Seq<C>,
    to: S,
)
    requires
        in_turn(made, from, calls, between),
        in_turn(made, between, others, to),
    ensures
        in_turn(made, from, calls + others, to),
{
    let first = choose|states: Seq<S>|
        {
            &&& #[trigger] is_chain(made, states, calls)
            &&& states[0] == from
            &&& states.last() == between
        };
    let second = choose|states: Seq<S>|
        {
            &&& #[trigger] is_chain(made, states, others)
            &&& states[0] == between
            &&& states.last() == to
        };
    let all = calls + others;
    let states = first + second.drop_first();
    assert forall|k: int| 0 <= k < all.len() implies made(
        states[k],
        #[trigger] all[k],
        states[k + 1],
    ) by {
        if k < calls.len() {
            assert(all[k] == calls[k]);
        } else {
            assert(all[k] == others[k - calls.len()]);
        }
    }
    assert(is_chain(made, states, all));
}

/// Calls that some functions make are calls that these and others make.
pub(crate) proof fn lemma_made_by_more<S, C>(
    made: Made<S, C>,
    more: Made<S, C>,
    from: S,
    calls: Seq<C>,
    to: S,
)
    requires
        in_turn(made, from, calls, to),
        forall|before: S, call: C, after: S|
            #![trigger more(before, call, after)]
            made(before, call, after) ==> more(before, call, after),
    ensures
        in_turn(more, from, calls, to),
{
    let states = choose|states: Seq<S>|
        {
            &&& #[trigger] is_chain(made, states, calls)
            &&& states[0] == from
            &&& states.last() == to
        };
    assert(is_chain(more, states, calls));
}

/// Calls, and then others, have a state between them.
pub(crate) proof fn lemma_state_between<S, C>(
    made: Made<S, C>,
    from: S,
    calls: Seq<C>,
    others: Seq<C>,
    to: S,
) -> (between: S)
    requires
        in_turn(made, from, calls + others, to),
    ensures
        in_turn(made, from, calls, between),
        in_turn(made, between, others, to),
{
    let all = calls + others;
    let states = choose|states: Seq<S>|
        {
            &&& #[trigger] is_chain(made, states, all)
            &&& states[0] == from
            &&& states.last() == to
        };
    let n = calls.len() as int;
    let first = states.take(n + 1);
    let second = states.skip(n);
    assert forall|k: int| 0 <= k < calls.len() implies made(
        first[k],
        #[trigger] calls[k],
        first[k + 1],
    ) by {
        assert(all[k] == calls[k]);
    }
    assert forall|k: int| 0 <= k < others.len() implies made(
        second[k],
        #[trigger] others[k],
        second[k + 1],
    ) by {
        assert(all[n + k] == others[k]);
    }
    assert(is_chain(made, first, calls));
    assert(is_chain(made, second, others));
    states[n]
}

/// Where each call does to some view of the state what `seen` tells, so do all of them in turn.
pub proof fn law_calls_are_seen_in_turn<S, V, C>(
    made: Made<S, C>,
    seen: Made<V, C>,
    view: spec_fn(S) -> V,
    from: S,
    calls: Seq<C>,
    to: S,
)
    requires
        in_turn(made, from, calls, to),
        forall|before: S, call: C, after: S| #[trigger]
            made(before, call, after) ==> seen(view(before), call, view(after)),
    ensures
        in_turn(seen, view(from), calls, view(to)),
{
    let states = choose|states: Seq<S>|
        {
            &&& #[trigger] is_chain(made, states, calls)
            &&& states[0] == from
            &&& states.last() == to
        };
    let views = Seq::new(states.len(), |k: int| view(states[k]));
    assert forall|k: int| 0 <= k < calls.len() implies seen(
        views[k],
        #[trigger] calls[k],
        views[k + 1],
    ) by {
        assert(made(states[k], calls[k], states[k + 1]));
    }
    assert(is_chain(seen, views, calls));
}

} // verus!

use vstd::prelude::*;

use crate::error::Error;
use crate::machine::{candidates, step, survivors};
use crate::resource::{
    closes_session, matched_pair, same_session, Event, ResourceModel, ResourceState, ResourceTransition,
};

verus! {

/// An open session of operator `id` with the given kind exists.
pub open spec fn has_open(r: ResourceModel, t: ResourceTransition, id: usize) -> bool {
    exists|i: int|
        0 <= i < r.open.len() && (#[trigger] r.open[i]).event_type == t && r.open[i].human_resource_id
            == id
}

proof fn lemma_no_candidates(s: Seq<Event>, e: Event)
    requires
        forall|i: int| 0 <= i < s.len() ==> !closes_session(e, #[trigger] s[i]),
    ensures
        candidates(s, e) == Seq::<Event>::empty(),
        survivors(s, e) == s,
    decreases s.len(),
{
    reveal(Seq::filter);
    if s.len() > 0 {
        let d = s.drop_last();
        assert forall|i: int| 0 <= i < d.len() implies !closes_session(e, #[trigger] d[i]) by {
            assert(d[i] == s[i]);
        }
        lemma_no_candidates(d, e);
        assert(d.push(s.last()) =~= s);
    } else {
        assert(s.filter(|x: Event| closes_session(e, x)) =~= Seq::<Event>::empty());
    }
}

proof fn lemma_one_candidate(s: Seq<Event>, e: Event, k: int)
    requires
        0 <= k < s.len(),
        closes_session(e, s[k]),
        forall|i: int| 0 <= i < s.len() && i != k ==> !closes_session(e, #[trigger] s[i]),
    ensures
        candidates(s, e) == seq![s[k]],
        survivors(s, e) == s.remove(k),
    decreases s.len(),
{
    reveal(Seq::filter);
    let d = s.drop_last();
    if k == s.len() - 1 {
        assert forall|i: int| 0 <= i < d.len() implies !closes_session(e, #[trigger] d[i]) by {
            assert(d[i] == s[i]);
        }
        lemma_no_candidates(d, e);
        assert(s.remove(k) =~= d);
        assert(Seq::<Event>::empty().push(s[k]) =~= seq![s[k]]);
    } else {
        assert forall|i: int| 0 <= i < d.len() && i != k implies !closes_session(
            e,
            #[trigger] d[i],
        ) by {
            assert(d[i] == s[i]);
        }
        lemma_one_candidate(d, e, k);
        assert(s.remove(k) =~= d.remove(k).push(s.last()));
    }
}

/// Under the invariants a Stop of the current state has at most one
/// candidate: the open session of its operator, if there is one.
proof fn lemma_close_shape(r: ResourceModel, e: Event)
    requires
        r.wf(),
        e.event_type == ResourceTransition::Stop(r.state),
    ensures
        has_open(r, ResourceTransition::Start(r.state), e.human_resource_id) ==> {
            let k = choose|k: int|
                0 <= k < r.open.len() && (#[trigger] r.open[k]).event_type
                    == ResourceTransition::Start(r.state) && r.open[k].human_resource_id
                    == e.human_resource_id;
            &&& candidates(r.open, e) == seq![r.open[k]]
            &&& survivors(r.open, e) == r.open.remove(k)
        },
        !has_open(r, ResourceTransition::Start(r.state), e.human_resource_id) ==> candidates(
            r.open,
            e,
        ) == Seq::<Event>::empty(),
{
    if has_open(r, ResourceTransition::Start(r.state), e.human_resource_id) {
        let k = choose|k: int|
            0 <= k < r.open.len() && (#[trigger] r.open[k]).event_type == ResourceTransition::Start(
                r.state,
            ) && r.open[k].human_resource_id == e.human_resource_id;
        assert forall|i: int| 0 <= i < r.open.len() && i != k implies !closes_session(
            e,
            #[trigger] r.open[i],
        ) by {}
        lemma_one_candidate(r.open, e, k);
    } else {
        assert forall|i: int| 0 <= i < r.open.len() implies !closes_session(
            e,
            #[trigger] r.open[i],
        ) by {
            if closes_session(e, r.open[i]) {
                assert(r.open[i].event_type == ResourceTransition::Start(r.state));
            }
        }
        lemma_no_candidates(r.open, e);
    }
}

/// Every event that `step` accepts keeps the occupancy invariants.
pub proof fn lemma_step_keeps_wf(r: ResourceModel, e: Event)
    requires
        r.wf(),
    ensures
        step(r, e) is Ok ==> step(r, e)->Ok_0.wf(),
{
    match e.event_type {
        ResourceTransition::Start(t) => {},
        ResourceTransition::Stop(t) => {
            if t == r.state && step(r, e) is Ok {
                lemma_close_shape(r, e);
                if r.state == ResourceState::Inactive {
                    assert(candidates(r.open, e) == Seq::<Event>::empty());
                }
                let k = choose|k: int|
                    0 <= k < r.open.len() && (#[trigger] r.open[k]).event_type
                        == ResourceTransition::Start(r.state) && r.open[k].human_resource_id
                        == e.human_resource_id;
                let next = step(r, e)->Ok_0;
                assert(next.closed =~= r.closed.push(r.open[k]).push(e));
                assert forall|j: int| 0 <= j < next.closed.len() / 2 implies #[trigger] matched_pair(
                    next.closed[2 * j],
                    next.closed[2 * j + 1],
                ) by {
                    if j < r.closed.len() / 2 {
                        assert(matched_pair(r.closed[2 * j], r.closed[2 * j + 1]));
                    }
                }
            }
        },
    }
}

/// From Inactive, a Start of any state but Inactive is accepted and makes
/// that state the resource's state.
pub proof fn lemma_start_from_inactive(r: ResourceModel, e: Event, s: ResourceState)
    requires
        r.wf(),
        r.state == ResourceState::Inactive,
        s != ResourceState::Inactive,
        e.event_type == ResourceTransition::Start(s),
    ensures
        step(r, e) is Ok,
        step(r, e)->Ok_0.state == s,
        step(r, e)->Ok_0.open == seq![e],
{
    assert(r.open.push(e) =~= seq![e]);
}

/// Once a Start is accepted, the same Start of the same operator is refused
/// as a duplicate session, while the same Start of an operator with no such
/// session open is accepted.
pub proof fn lemma_start_twice(r: ResourceModel, e: Event, other: Event)
    requires
        r.wf(),
        e.event_type is Start,
        step(r, e) is Ok,
        other.event_type == e.event_type,
    ensures
        other.human_resource_id == e.human_resource_id ==> step(step(r, e)->Ok_0, other) == Err::<
            ResourceModel,
            Error,
        >(
            Error::WrongTransitionError {
                current_state: step(r, e)->Ok_0.state,
                transition: other.event_type,
                human_resource_id: other.human_resource_id,
            },
        ),
        other.human_resource_id != e.human_resource_id && !has_open(
            r,
            other.event_type,
            other.human_resource_id,
        ) ==> step(step(r, e)->Ok_0, other) is Ok,
{
    let next = step(r, e)->Ok_0;
    assert(next.open[r.open.len() as int] == e);
    if other.human_resource_id != e.human_resource_id && !has_open(
        r,
        other.event_type,
        other.human_resource_id,
    ) {
        assert forall|i: int| 0 <= i < next.open.len() implies !same_session(
            other,
            #[trigger] next.open[i],
        ) by {
            if i < r.open.len() {
                assert(next.open[i] == r.open[i]);
            }
        }
    }
}

/// A Stop is accepted exactly when its operator has a matching Start open;
/// then that Start and the Stop are appended to the history, in this order,
/// and the Start leaves the open sessions.
pub proof fn lemma_stop_closes_pair(r: ResourceModel, e: Event, s: ResourceState)
    requires
        r.wf(),
        e.event_type == ResourceTransition::Stop(s),
    ensures
        step(r, e) is Ok <==> has_open(r, ResourceTransition::Start(s), e.human_resource_id),
        step(r, e) is Ok ==> exists|k: int|
            0 <= k < r.open.len() && (#[trigger] r.open[k]).event_type
                == ResourceTransition::Start(s) && r.open[k].human_resource_id
                == e.human_resource_id && step(r, e)->Ok_0.open == r.open.remove(k) && step(
                r,
                e,
            )->Ok_0.closed == r.closed + seq![r.open[k], e],
{
    if s == r.state {
        lemma_close_shape(r, e);
        if has_open(r, ResourceTransition::Start(s), e.human_resource_id) {
            let k = choose|k: int|
                0 <= k < r.open.len() && (#[trigger] r.open[k]).event_type
                    == ResourceTransition::Start(r.state) && r.open[k].human_resource_id
                    == e.human_resource_id;
            assert(seq![r.open[k]].push(e) =~= seq![r.open[k], e]);
        }
    } else {
        if has_open(r, ResourceTransition::Start(s), e.human_resource_id) {
            let k = choose|k: int|
                0 <= k < r.open.len() && (#[trigger] r.open[k]).event_type
                    == ResourceTransition::Start(s) && r.open[k].human_resource_id
                    == e.human_resource_id;
            assert(r.open[k].event_type == ResourceTransition::Start(r.state));
        }
    }
}

/// A Stop that closes the last open session makes the resource Inactive;
/// one that leaves other sessions open keeps its state.
pub proof fn lemma_stop_state(r: ResourceModel, e: Event)
    requires
        r.wf(),
        e.event_type is Stop,
        step(r, e) is Ok,
    ensures
        r.open.len() == 1 ==> step(r, e)->Ok_0.state == ResourceState::Inactive,
        r.open.len() > 1 ==> step(r, e)->Ok_0.state == r.state,
{
    lemma_close_shape(r, e);
    if r.state == ResourceState::Inactive {
        assert(candidates(r.open, e) == Seq::<Event>::empty());
    }
}

/// A Start of another state than the current one, while the resource is
/// not Inactive, is refused as a transition error.
pub proof fn lemma_cross_state_start(r: ResourceModel, e: Event, s: ResourceState)
    requires
        r.state != ResourceState::Inactive,
        s != r.state,
        e.event_type == ResourceTransition::Start(s),
    ensures
        step(r, e) == Err::<ResourceModel, Error>(
            Error::TransitionError { current_state: r.state, transition: e.event_type },
        ),
{
}

} // verus!

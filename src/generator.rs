use vstd::prelude::*;

use crate::laws::{lemma_start_from_inactive, lemma_step_keeps_wf, lemma_stop_closes_pair, lemma_stop_state};
use crate::machine::{lemma_filter_push, replay, step, Machine};
use crate::outside::{current_time, random_below};
use crate::resource::{same_session, Event, ResourceModel, ResourceState, ResourceTransition, Timestamp};

verus! {

/// The operator id that Blocked sessions carry: they belong to no operator of the pool.
pub const BLOCKED_OPERATOR: usize = 0;

/// The one resource that generated events are about.
pub const GENERATED_RESOURCE: usize = 1;

/// The operators with an open session, in the order the sessions opened.
pub open spec fn working_ids(r: ResourceModel) -> Seq<usize> {
    r.open.map_values(|e: Event| e.human_resource_id)
}

/// The operators of the pool with no open session.
pub open spec fn free_ids(r: ResourceModel, pool: Seq<usize>) -> Seq<usize> {
    pool.filter(|id: usize| !working_ids(r).contains(id))
}

/// The transition the generator picks for a roll: from Inactive one of the
/// three Starts; in Setup or Production a Start or a Stop of that state,
/// whichever has an operator to take it (both: the roll decides); in Blocked
/// the Stop of Blocked.
pub open spec fn planned_transition(r: ResourceModel, pool: Seq<usize>, roll: usize) -> ResourceTransition {
    if r.state == ResourceState::Inactive {
        if roll % 3 == 0 {
            ResourceTransition::Start(ResourceState::Production)
        } else if roll % 3 == 1 {
            ResourceTransition::Start(ResourceState::Setup)
        } else {
            ResourceTransition::Start(ResourceState::Blocked)
        }
    } else if r.state == ResourceState::Setup || r.state == ResourceState::Production {
        if working_ids(r).len() > 0 && free_ids(r, pool).len() > 0 {
            if roll % 2 == 0 {
                ResourceTransition::Start(r.state)
            } else {
                ResourceTransition::Stop(r.state)
            }
        } else if working_ids(r).len() > 0 {
            ResourceTransition::Stop(r.state)
        } else {
            ResourceTransition::Start(r.state)
        }
    } else {
        ResourceTransition::Stop(ResourceState::Blocked)
    }
}

/// The operators a generated transition may be given: the Blocked sentinel
/// for Blocked, a free operator for a Start, a working one for a Stop.
pub open spec fn eligible_ids(r: ResourceModel, pool: Seq<usize>, t: ResourceTransition) -> Seq<usize> {
    if t.target() == ResourceState::Blocked {
        seq![BLOCKED_OPERATOR]
    } else {
        match t {
            ResourceTransition::Start(_) => free_ids(r, pool),
            ResourceTransition::Stop(_) => working_ids(r),
        }
    }
}

/// The event the generator builds from a roll for the transition and a
/// pick among the eligible operators.
pub open spec fn generated_event(
    r: ResourceModel,
    pool: Seq<usize>,
    roll: usize,
    pick: usize,
    start: Timestamp,
) -> Event {
    let t = planned_transition(r, pool, roll);
    let ids = eligible_ids(r, pool, t);
    Event {
        event_type: t,
        start,
        workcenter_resource_id: GENERATED_RESOURCE,
        human_resource_id: ids[pick as int % ids.len() as int],
    }
}

/// The generator may produce `e` from `r`, for some roll and pick.
pub open spec fn generable(r: ResourceModel, pool: Seq<usize>, e: Event) -> bool {
    exists|roll: usize, pick: usize| e == #[trigger] generated_event(r, pool, roll, pick, e.start)
}

/// The resource after `e`, or `r` itself where `e` is refused.
pub open spec fn after(r: ResourceModel, e: Event) -> ResourceModel {
    match step(r, e) {
        Ok(next) => next,
        Err(_) => r,
    }
}

/// Each event of `es` is one the generator may produce from the resource
/// that the events before it lead to.
pub open spec fn generated_history(r: ResourceModel, pool: Seq<usize>, es: Seq<Event>) -> bool
    decreases es.len(),
{
    es.len() == 0 || (generable(r, pool, es[0]) && generated_history(
        after(r, es[0]),
        pool,
        es.drop_first(),
    ))
}

/// A resource the generator can work on: the invariants hold, and a Blocked
/// resource has exactly the one Blocked session of the sentinel operator.
pub open spec fn generator_ready(r: ResourceModel) -> bool {
    &&& r.wf()
    &&& r.state == ResourceState::Blocked ==> r.open.len() == 1 && r.open[0].human_resource_id
        == BLOCKED_OPERATOR
}

proof fn lemma_working_ids(r: ResourceModel, i: int)
    requires
        0 <= i < r.open.len(),
    ensures
        working_ids(r).len() == r.open.len(),
        working_ids(r)[i] == r.open[i].human_resource_id,
{
}

proof fn lemma_eligible_nonempty(r: ResourceModel, pool: Seq<usize>, roll: usize)
    requires
        generator_ready(r),
        pool.len() > 0,
    ensures
        eligible_ids(r, pool, planned_transition(r, pool, roll)).len() > 0,
{
    broadcast use Seq::lemma_filter_contains;

    if r.state == ResourceState::Inactive {
        assert(!working_ids(r).contains(pool[0]));
        assert(free_ids(r, pool).contains(pool[0]));
    } else if r.state != ResourceState::Blocked {
        lemma_working_ids(r, 0);
    }
}

/// What the generator produces is accepted, and leaves a resource the
/// generator can go on with.
pub proof fn lemma_generated_step(r: ResourceModel, pool: Seq<usize>, roll: usize, pick: usize, start: Timestamp)
    requires
        generator_ready(r),
        pool.len() > 0,
    ensures
        step(r, generated_event(r, pool, roll, pick, start)) is Ok,
        generator_ready(step(r, generated_event(r, pool, roll, pick, start))->Ok_0),
{
    broadcast use Seq::lemma_filter_pred;

    let e = generated_event(r, pool, roll, pick, start);
    let t = planned_transition(r, pool, roll);
    let ids = eligible_ids(r, pool, t);
    lemma_eligible_nonempty(r, pool, roll);
    let j = pick as int % ids.len() as int;
    lemma_step_keeps_wf(r, e);
    if r.state == ResourceState::Inactive {
        lemma_start_from_inactive(r, e, t.target());
    } else if r.state == ResourceState::Blocked {
        assert(r.open[0].event_type == ResourceTransition::Start(ResourceState::Blocked));
        lemma_stop_closes_pair(r, e, ResourceState::Blocked);
        lemma_stop_state(r, e);
    } else {
        lemma_working_ids(r, 0);
        match t {
            ResourceTransition::Start(s) => {
                assert(!working_ids(r).contains(e.human_resource_id));
                assert forall|i: int| 0 <= i < r.open.len() implies !same_session(e, #[trigger] r.open[i]) by {
                    lemma_working_ids(r, i);
                }
            },
            ResourceTransition::Stop(s) => {
                lemma_working_ids(r, j);
                assert(r.open[j].event_type == ResourceTransition::Start(s));
                lemma_stop_closes_pair(r, e, s);
                lemma_stop_state(r, e);
            },
        }
    }
}

/// Every history the generator may produce is accepted whole when it is
/// replayed, which is what importing it does.
pub proof fn lemma_generated_history_replays(r: ResourceModel, pool: Seq<usize>, es: Seq<Event>)
    requires
        generator_ready(r),
        pool.len() > 0,
        generated_history(r, pool, es),
    ensures
        replay(r, es).1 is Ok,
        generator_ready(replay(r, es).0),
    decreases es.len(),
{
    if es.len() > 0 {
        let e = es[0];
        let (roll, pick) = choose|roll: usize, pick: usize|
            e == #[trigger] generated_event(r, pool, roll, pick, e.start);
        lemma_generated_step(r, pool, roll, pick, e.start);
        lemma_generated_history_replays(after(r, e), pool, es.drop_first());
    }
}

proof fn lemma_extend_history(r: ResourceModel, pool: Seq<usize>, h: Seq<Event>, e: Event)
    requires
        replay(r, h).1 is Ok,
        generated_history(r, pool, h),
        step(replay(r, h).0, e) is Ok,
        generable(replay(r, h).0, pool, e),
    ensures
        replay(r, h.push(e)) == (step(replay(r, h).0, e)->Ok_0, Ok::<(), crate::error::Error>(())),
        generated_history(r, pool, h.push(e)),
    decreases h.len(),
{
    let he = h.push(e);
    if h.len() == 0 {
        assert(he.drop_first() =~= Seq::<Event>::empty());
        assert(he[0] == e);
        let next = step(r, e)->Ok_0;
        assert(replay(next, he.drop_first()) == (next, Ok::<(), crate::error::Error>(())));
        assert(generated_history(after(r, e), pool, he.drop_first()));
    } else {
        assert(step(r, h[0]) is Ok);
        let next = step(r, h[0])->Ok_0;
        assert(he.drop_first() =~= h.drop_first().push(e));
        assert(he[0] == h[0]);
        assert(replay(r, h) == replay(next, h.drop_first()));
        lemma_extend_history(next, pool, h.drop_first(), e);
        assert(replay(r, he) == replay(next, he.drop_first()));
    }
}

fn contains_id(ids: &Vec<usize>, id: usize) -> (r: bool)
    ensures
        r == ids@.contains(id),
{
    let mut i: usize = 0;
    while i < ids.len()
        invariant
            i <= ids@.len(),
            forall|j: int| 0 <= j < i ==> ids@[j] != id,
        decreases ids@.len() - i,
    {
        if ids[i] == id {
            return true;
        }
        i = i + 1;
    }
    false
}

impl Machine {
    fn working_ids(&self) -> (r: Vec<usize>)
        ensures
            r@ == working_ids(self@),
    {
        let mut ids: Vec<usize> = Vec::new();
        let mut i: usize = 0;
        while i < self.0.open_events.len()
            invariant
                i <= self@.open.len(),
                ids@ =~= working_ids(self@).take(i as int),
            decreases self@.open.len() - i,
        {
            ids.push(self.0.open_events[i].human_resource_id);
            i = i + 1;
        }
        ids
    }

    fn free_ids(&self, pool: &Vec<usize>) -> (r: Vec<usize>)
        ensures
            r@ == free_ids(self@, pool@),
    {
        let working = self.working_ids();
        let mut ids: Vec<usize> = Vec::new();
        let mut i: usize = 0;
        while i < pool.len()
            invariant
                i <= pool@.len(),
                working@ == working_ids(self@),
                ids@ == pool@.take(i as int).filter(|id: usize| !working_ids(self@).contains(id)),
            decreases pool@.len() - i,
        {
            let id = pool[i];
            proof {
                assert(pool@.take(i + 1) =~= pool@.take(i as int).push(id));
                lemma_filter_push(pool@.take(i as int), id, |x: usize| !working_ids(self@).contains(x));
            }
            if !contains_id(&working, id) {
                ids.push(id);
            }
            i = i + 1;
        }
        proof {
            assert(pool@.take(pool@.len() as int) =~= pool@);
        }
        ids
    }

    /// The transition the generator picks for `roll`.
    pub fn planned_transition(&self, pool: &Vec<usize>, roll: usize) -> (r: ResourceTransition)
        ensures
            r == planned_transition(self@, pool@, roll),
    {
        let state = self.0.state;
        if state == ResourceState::Inactive {
            if roll % 3 == 0 {
                ResourceTransition::Start(ResourceState::Production)
            } else if roll % 3 == 1 {
                ResourceTransition::Start(ResourceState::Setup)
            } else {
                ResourceTransition::Start(ResourceState::Blocked)
            }
        } else if state == ResourceState::Setup || state == ResourceState::Production {
            let working = self.0.open_events.len();
            let free = self.free_ids(pool).len();
            if working > 0 && free > 0 {
                if roll % 2 == 0 {
                    ResourceTransition::Start(state)
                } else {
                    ResourceTransition::Stop(state)
                }
            } else if working > 0 {
                ResourceTransition::Stop(state)
            } else {
                ResourceTransition::Start(state)
            }
        } else {
            ResourceTransition::Stop(ResourceState::Blocked)
        }
    }

    /// The operators the generator may give transition `t`.
    pub fn eligible_ids(&self, pool: &Vec<usize>, t: ResourceTransition) -> (r: Vec<usize>)
        ensures
            r@ == eligible_ids(self@, pool@, t),
    {
        if t.state() == ResourceState::Blocked {
            vec![BLOCKED_OPERATOR]
        } else {
            match t {
                ResourceTransition::Start(_) => self.free_ids(pool),
                ResourceTransition::Stop(_) => self.working_ids(),
            }
        }
    }

    /// Builds the next event the generator offers, with `roll` choosing the
    /// transition and `pick` the operator among those eligible. It does not
    /// change the machine.
    pub fn generate_valid_event(&self, pool: &Vec<usize>, roll: usize, pick: usize, start: Timestamp) -> (r: Event)
        requires
            generator_ready(self@),
            pool@.len() > 0,
        ensures
            r == generated_event(self@, pool@, roll, pick, start),
            step(self@, r) is Ok,
    {
        proof {
            lemma_eligible_nonempty(self@, pool@, roll);
            lemma_generated_step(self@, pool@, roll, pick, start);
        }
        let t = self.planned_transition(pool, roll);
        let ids = self.eligible_ids(pool, t);
        let id = ids[pick % ids.len()];
        Event {
            event_type: t,
            start,
            workcenter_resource_id: GENERATED_RESOURCE,
            human_resource_id: id,
        }
    }

    /// Generates `length` events at random, stamped with the current time,
    /// and applies each. The machine must be one the generator can work on
    /// (a fresh one is); then every event is accepted, and the machine ends
    /// in the state that replaying them from the start gives.
    pub fn generate_random_events(&mut self, available_hr_res_ids: &Vec<usize>, length: usize)
        requires
            generator_ready(old(self)@),
            available_hr_res_ids@.len() > 0,
        ensures
            generator_ready(final(self)@),
            exists|es: Seq<Event>|
                es.len() == length && generated_history(old(self)@, available_hr_res_ids@, es)
                    && #[trigger] replay(old(self)@, es) == (final(self)@, Ok::<(), crate::error::Error>(())),
    {
        let ghost start = self@;
        let ghost mut history: Seq<Event> = Seq::empty();
        let mut i: usize = 0;
        while i < length
            invariant
                i <= length,
                generator_ready(self@),
                available_hr_res_ids@.len() > 0,
                history.len() == i,
                generated_history(start, available_hr_res_ids@, history),
                replay(start, history) == (self@, Ok::<(), crate::error::Error>(())),
            decreases length - i,
        {
            let roll = random_below(6);
            let t = self.planned_transition(available_hr_res_ids, roll);
            proof {
                lemma_eligible_nonempty(self@, available_hr_res_ids@, roll);
            }
            let n = self.eligible_ids(available_hr_res_ids, t).len();
            let pick = random_below(n);
            let event = self.generate_valid_event(available_hr_res_ids, roll, pick, current_time());
            proof {
                lemma_generated_step(self@, available_hr_res_ids@, roll, pick, event.start);
                lemma_extend_history(start, available_hr_res_ids@, history, event);
                history = history.push(event);
            }
            let _ = self.transition(event);
            i = i + 1;
        }
    }
}

} // verus!

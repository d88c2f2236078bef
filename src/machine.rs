use vstd::prelude::*;

use crate::error::Error;
use crate::resource::{
    closes_session, same_session, Event, Resource, ResourceModel, ResourceState,
    ResourceTransition,
};

verus! {

/// The state machine that owns a resource and is the one place that changes it.
#[derive(Debug)]
pub struct Machine(pub Resource);

impl View for Machine {
    type V = ResourceModel;

    open spec fn view(&self) -> ResourceModel {
        self.0@
    }
}

impl Default for Machine {
    fn default() -> (r: Self)
        ensures
            r@.state == ResourceState::Inactive,
            r@.last_event is None,
            r@.open.len() == 0,
            r@.closed.len() == 0,
            r@.wf(),
    {
        Machine(Resource::default())
    }
}

/// The open sessions that a Stop event would close.
pub open spec fn candidates(open: Seq<Event>, stop: Event) -> Seq<Event> {
    open.filter(|x: Event| closes_session(stop, x))
}

/// The open sessions that a Stop event leaves open.
pub open spec fn survivors(open: Seq<Event>, stop: Event) -> Seq<Event> {
    open.filter(|x: Event| !closes_session(stop, x))
}

/// Opening the session of a Start that the macro-state admits.
pub open spec fn open_step(r: ResourceModel, e: Event) -> Result<ResourceModel, Error> {
    if exists|i: int| 0 <= i < r.open.len() && same_session(e, #[trigger] r.open[i]) {
        Err(
            Error::WrongTransitionError {
                current_state: r.state,
                transition: e.event_type,
                human_resource_id: e.human_resource_id,
            },
        )
    } else {
        Ok(
            ResourceModel {
                state: if r.state == ResourceState::Inactive {
                    e.event_type.target()
                } else {
                    r.state
                },
                last_event: Some(e),
                open: r.open.push(e),
                closed: r.closed,
            },
        )
    }
}

/// Closing the session of a Stop that the macro-state admits.
pub open spec fn close_step(r: ResourceModel, e: Event) -> Result<ResourceModel, Error> {
    let found = candidates(r.open, e);
    let kept = survivors(r.open, e);
    if found.len() == 1 {
        Ok(
            ResourceModel {
                state: if kept.len() == 0 {
                    ResourceState::Inactive
                } else {
                    r.state
                },
                last_event: r.last_event,
                open: kept,
                closed: r.closed + found.push(e),
            },
        )
    } else if found.len() == 0 {
        Err(
            Error::WrongTransitionError {
                current_state: r.state,
                transition: e.event_type,
                human_resource_id: e.human_resource_id,
            },
        )
    } else {
        Err(Error::InternalConsistencyFailure)
    }
}

/// One event applied to a resource. A Start is admitted into the current
/// state, or into any state but Inactive while the resource is Inactive;
/// a Stop only out of the current state.
pub open spec fn step(r: ResourceModel, e: Event) -> Result<ResourceModel, Error> {
    match e.event_type {
        ResourceTransition::Start(t) => if t != ResourceState::Inactive && (t == r.state
            || r.state == ResourceState::Inactive) {
            open_step(r, e)
        } else {
            Err(Error::TransitionError { current_state: r.state, transition: e.event_type })
        },
        ResourceTransition::Stop(t) => if t == r.state {
            close_step(r, e)
        } else {
            Err(Error::TransitionError { current_state: r.state, transition: e.event_type })
        },
    }
}

/// Events applied in order, up to the first one refused: the resource
/// reached, and the refusal if there was one.
pub open spec fn replay(r: ResourceModel, es: Seq<Event>) -> (ResourceModel, Result<(), Error>)
    decreases es.len(),
{
    if es.len() == 0 {
        (r, Ok(()))
    } else {
        match step(r, es[0]) {
            Ok(next) => replay(next, es.drop_first()),
            Err(err) => (r, Err(err)),
        }
    }
}

pub(crate) proof fn lemma_filter_push<A>(s: Seq<A>, x: A, p: spec_fn(A) -> bool)
    ensures
        s.push(x).filter(p) == (if p(x) {
            s.filter(p).push(x)
        } else {
            s.filter(p)
        }),
{
    reveal(Seq::filter);
    assert(s.push(x).drop_last() =~= s);
}

impl Machine {
    /// Applies one event. On success the resource becomes `step`'s result;
    /// on refusal it is left as it was.
    pub fn transition(&mut self, event: Event) -> (r: Result<(), Error>)
        ensures
            match step(old(self)@, event) {
                Ok(next) => r is Ok && final(self)@ == next,
                Err(err) => r == Err::<(), Error>(err) && final(self)@ == old(self)@,
            },
    {
        let current = self.0.state;
        match event.event_type {
            ResourceTransition::Start(t) => {
                if t != ResourceState::Inactive && (t == current || current
                    == ResourceState::Inactive) {
                    self.open_event(event)
                } else {
                    Err(Error::TransitionError { current_state: current, transition: event.event_type })
                }
            },
            ResourceTransition::Stop(t) => {
                if t == current {
                    self.close_event(event)
                } else {
                    Err(Error::TransitionError { current_state: current, transition: event.event_type })
                }
            },
        }
    }

    fn open_event(&mut self, event: Event) -> (r: Result<(), Error>)
        ensures
            match open_step(old(self)@, event) {
                Ok(next) => r is Ok && final(self)@ == next,
                Err(err) => r == Err::<(), Error>(err) && final(self)@ == old(self)@,
            },
    {
        let mut i: usize = 0;
        while i < self.0.open_events.len()
            invariant
                i <= self.0.open_events@.len(),
                self@ == old(self)@,
                forall|j: int| 0 <= j < i ==> !same_session(event, #[trigger] self.0.open_events@[j]),
            decreases self.0.open_events@.len() - i,
        {
            if event.matches(&self.0.open_events[i]) {
                return Err(
                    Error::WrongTransitionError {
                        current_state: self.0.state,
                        transition: event.event_type,
                        human_resource_id: event.human_resource_id,
                    },
                );
            }
            i = i + 1;
        }
        if self.0.state == ResourceState::Inactive {
            self.0.state = event.event_type.state();
        }
        self.0.open_events.push(event);
        self.0.last_event = Some(event);
        Ok(())
    }

    fn close_event(&mut self, event: Event) -> (r: Result<(), Error>)
        ensures
            match close_step(old(self)@, event) {
                Ok(next) => r is Ok && final(self)@ == next,
                Err(err) => r == Err::<(), Error>(err) && final(self)@ == old(self)@,
            },
    {
        let ghost open = self.0.open_events@;
        let mut found: Vec<Event> = Vec::new();
        let mut kept: Vec<Event> = Vec::new();
        let mut i: usize = 0;
        while i < self.0.open_events.len()
            invariant
                i <= open.len(),
                self@ == old(self)@,
                open == self.0.open_events@,
                found@ == candidates(open.take(i as int), event),
                kept@ == survivors(open.take(i as int), event),
            decreases open.len() - i,
        {
            let x = self.0.open_events[i];
            proof {
                assert(open.take(i + 1) =~= open.take(i as int).push(x));
                lemma_filter_push(open.take(i as int), x, |y: Event| closes_session(event, y));
                lemma_filter_push(open.take(i as int), x, |y: Event| !closes_session(event, y));
            }
            if event.closes(&x) {
                found.push(x);
            } else {
                kept.push(x);
            }
            i = i + 1;
        }
        proof {
            assert(open.take(open.len() as int) =~= open);
        }
        if found.len() == 1 {
            let first = found[0];
            self.0.open_events = kept;
            self.0.closed_events.push(first);
            self.0.closed_events.push(event);
            if self.0.open_events.len() == 0 {
                self.0.state = ResourceState::Inactive;
            }
            proof {
                assert(self.0.closed_events@ =~= old(self)@.closed + found@.push(event));
            }
            Ok(())
        } else if found.len() == 0 {
            Err(
                Error::WrongTransitionError {
                    current_state: self.0.state,
                    transition: event.event_type,
                    human_resource_id: event.human_resource_id,
                },
            )
        } else {
            Err(Error::InternalConsistencyFailure)
        }
    }

    /// Replays a recorded history through `transition`, in order, and stops
    /// at the first event refused, which it returns.
    pub fn import_and_validate_history(&mut self, events: Vec<Event>) -> (r: Result<(), Error>)
        ensures
            (final(self)@, r) == replay(old(self)@, events@),
    {
        let mut i: usize = 0;
        proof {
            assert(events@.skip(0) =~= events@);
        }
        while i < events.len()
            invariant
                i <= events@.len(),
                replay(self@, events@.skip(i as int)) == replay(old(self)@, events@),
            decreases events@.len() - i,
        {
            proof {
                assert(events@.skip(i as int).drop_first() =~= events@.skip(i + 1));
            }
            let res = self.transition(events[i]);
            if let Err(err) = res {
                return Err(err);
            }
            i = i + 1;
        }
        proof {
            assert(events@.skip(i as int) =~= Seq::<Event>::empty());
        }
        Ok(())
    }
}

} // verus!

use resource_tracker::error::Error;
use resource_tracker::machine::Machine;
use resource_tracker::resource::{Event, Resource, ResourceState, ResourceTransition, Timestamp};

use ResourceState::{Blocked, Inactive, Production, Setup};
use ResourceTransition::{Start, Stop};

fn event(t: ResourceTransition, hr_id: usize) -> Event {
    Event {
        event_type: t,
        start: Timestamp { secs: 1_700_000_000, nanos: 0 },
        workcenter_resource_id: 1,
        human_resource_id: hr_id,
    }
}

#[test]
fn test_transitions() {
    let mut machine = Machine::default();
    let mut results = Vec::new();
    results.push(machine.transition(event(Start(Setup), 1)));
    results.push(machine.transition(event(Stop(Setup), 1)));
    results.push(machine.transition(event(Start(Setup), 2)));
    results.push(machine.transition(event(Stop(Setup), 2)));
    results.push(machine.transition(event(Start(Production), 1)));
    results.push(machine.transition(event(Start(Production), 2)));
    results.push(machine.transition(event(Stop(Production), 1)));
    results.push(machine.transition(event(Stop(Production), 2)));
    assert!(results.iter().all(|result| result.is_ok()));
}

#[test]
fn test_generate_random_transitions() {
    let mut machine = Machine::default();
    let available_employees: Vec<usize> = vec![1, 2, 3, 4, 5, 6, 7, 8];
    machine.generate_random_events(&available_employees, 500)
}

#[test]
fn scenario_ends_inactive_with_four_pairs() {
    let events = vec![
        event(Start(Setup), 1),
        event(Stop(Setup), 1),
        event(Start(Setup), 2),
        event(Stop(Setup), 2),
        event(Start(Production), 1),
        event(Start(Production), 2),
        event(Stop(Production), 1),
        event(Stop(Production), 2),
    ];
    let mut machine = Machine::default();
    for e in events.iter() {
        assert_eq!(machine.transition(*e), Ok(()));
    }
    assert_eq!(machine.0.state, Inactive);
    assert!(machine.0.open_events.is_empty());
    let expected = vec![
        events[0], events[1], events[2], events[3], events[4], events[6], events[5], events[7],
    ];
    assert_eq!(machine.0.closed_events, expected);
}

#[test]
fn cross_state_start_is_refused() {
    let mut machine = Machine::default();
    assert_eq!(machine.transition(event(Start(Setup), 1)), Ok(()));
    assert_eq!(
        machine.transition(event(Start(Production), 2)),
        Err(Error::TransitionError { current_state: Setup, transition: Start(Production) })
    );
    assert_eq!(machine.0.state, Setup);
    assert_eq!(machine.0.open_events.len(), 1);
}

#[test]
fn start_from_inactive_sets_state() {
    for s in [Setup, Production, Blocked] {
        let mut machine = Machine::default();
        assert_eq!(machine.transition(event(Start(s), 7)), Ok(()));
        assert_eq!(machine.0.state, s);
        assert_eq!(machine.0.last_event, Some(event(Start(s), 7)));
    }
}

#[test]
fn start_of_inactive_is_refused() {
    let mut machine = Machine::default();
    assert_eq!(
        machine.transition(event(Start(Inactive), 1)),
        Err(Error::TransitionError { current_state: Inactive, transition: Start(Inactive) })
    );
    assert!(machine.0.open_events.is_empty());
}

#[test]
fn double_start_same_operator_is_refused() {
    let mut machine = Machine::default();
    assert_eq!(machine.transition(event(Start(Production), 3)), Ok(()));
    assert_eq!(
        machine.transition(event(Start(Production), 3)),
        Err(Error::WrongTransitionError {
            current_state: Production,
            transition: Start(Production),
            human_resource_id: 3,
        })
    );
    assert_eq!(machine.transition(event(Start(Production), 4)), Ok(()));
    assert_eq!(machine.0.open_events.len(), 2);
}

#[test]
fn stop_without_open_session_is_refused() {
    let mut machine = Machine::default();
    assert_eq!(machine.transition(event(Start(Setup), 1)), Ok(()));
    assert_eq!(
        machine.transition(event(Stop(Setup), 2)),
        Err(Error::WrongTransitionError {
            current_state: Setup,
            transition: Stop(Setup),
            human_resource_id: 2,
        })
    );
    assert_eq!(
        machine.transition(event(Stop(Production), 1)),
        Err(Error::TransitionError { current_state: Setup, transition: Stop(Production) })
    );
    let mut idle = Machine::default();
    assert_eq!(
        idle.transition(event(Stop(Inactive), 1)),
        Err(Error::WrongTransitionError {
            current_state: Inactive,
            transition: Stop(Inactive),
            human_resource_id: 1,
        })
    );
}

#[test]
fn closing_non_last_session_keeps_state() {
    let mut machine = Machine::default();
    assert_eq!(machine.transition(event(Start(Setup), 1)), Ok(()));
    assert_eq!(machine.transition(event(Start(Setup), 2)), Ok(()));
    assert_eq!(machine.transition(event(Stop(Setup), 2)), Ok(()));
    assert_eq!(machine.0.state, Setup);
    assert_eq!(machine.0.open_events, vec![event(Start(Setup), 1)]);
    assert_eq!(machine.0.closed_events, vec![event(Start(Setup), 2), event(Stop(Setup), 2)]);
    assert_eq!(machine.transition(event(Stop(Setup), 1)), Ok(()));
    assert_eq!(machine.0.state, Inactive);
    assert_eq!(machine.0.closed_events.len(), 4);
}

#[test]
fn duplicate_open_sessions_are_reported() {
    let mut machine = Machine(Resource {
        state: Setup,
        last_event: None,
        open_events: vec![event(Start(Setup), 5), event(Start(Setup), 5)],
        closed_events: Vec::new(),
    });
    assert_eq!(
        machine.transition(event(Stop(Setup), 5)),
        Err(Error::InternalConsistencyFailure)
    );
    assert_eq!(machine.0.open_events.len(), 2);
}

#[test]
fn import_accepts_valid_history() {
    let events = vec![
        event(Start(Blocked), 0),
        event(Stop(Blocked), 0),
        event(Start(Setup), 1),
        event(Stop(Setup), 1),
    ];
    let mut machine = Machine::default();
    assert_eq!(machine.import_and_validate_history(events.clone()), Ok(()));
    assert_eq!(machine.0.closed_events, events);
    assert_eq!(machine.0.state, Inactive);
}

#[test]
fn import_stops_at_first_refusal() {
    let events = vec![event(Start(Setup), 1), event(Start(Production), 2), event(Stop(Setup), 1)];
    let mut machine = Machine::default();
    assert_eq!(
        machine.import_and_validate_history(events),
        Err(Error::TransitionError { current_state: Setup, transition: Start(Production) })
    );
    assert_eq!(machine.0.state, Setup);
    assert_eq!(machine.0.open_events, vec![event(Start(Setup), 1)]);
    assert!(machine.0.closed_events.is_empty());
}

#[test]
fn generated_history_imports_unchanged() {
    let pool: Vec<usize> = vec![1, 2, 3];
    let mut generated = Machine::default();
    let mut history = Vec::new();
    for i in 0..300usize {
        let t = Timestamp { secs: i as i64, nanos: 0 };
        let e = generated.generate_valid_event(&pool, (i * 7) % 11, (i * 5) % 13, t);
        assert_eq!(generated.transition(e), Ok(()));
        history.push(e);
    }
    let mut replayed = Machine::default();
    assert_eq!(replayed.import_and_validate_history(history), Ok(()));
    assert_eq!(replayed.0.state, generated.0.state);
    assert_eq!(replayed.0.last_event, generated.0.last_event);
    assert_eq!(replayed.0.open_events, generated.0.open_events);
    assert_eq!(replayed.0.closed_events, generated.0.closed_events);
}

#[test]
fn generated_events_carry_the_clock() {
    let mut machine = Machine::default();
    machine.generate_random_events(&vec![1], 2);
    assert!(machine.0.last_event.is_some());
    let e = machine.0.last_event.unwrap();
    assert!(e.start.secs > 1_600_000_000);
    assert_eq!(e.workcenter_resource_id, 1);
}

#[test]
fn generated_event_follows_rolls() {
    let pool: Vec<usize> = vec![4, 9];
    let idle = Machine::default();
    let t0 = Timestamp { secs: 10, nanos: 5 };
    assert_eq!(idle.generate_valid_event(&pool, 0, 1, t0), Event {
        event_type: Start(Production),
        start: t0,
        workcenter_resource_id: 1,
        human_resource_id: 9,
    });
    assert_eq!(idle.generate_valid_event(&pool, 4, 0, t0).event_type, Start(Setup));
    let blocked = idle.generate_valid_event(&pool, 5, 1, t0);
    assert_eq!(blocked.event_type, Start(Blocked));
    assert_eq!(blocked.human_resource_id, 0);

    let mut busy = Machine::default();
    assert_eq!(busy.transition(event(Start(Setup), 4)), Ok(()));
    let next_start = busy.generate_valid_event(&pool, 0, 0, t0);
    assert_eq!(next_start.event_type, Start(Setup));
    assert_eq!(next_start.human_resource_id, 9);
    let next_stop = busy.generate_valid_event(&pool, 1, 3, t0);
    assert_eq!(next_stop.event_type, Stop(Setup));
    assert_eq!(next_stop.human_resource_id, 4);

    let mut full = Machine::default();
    assert_eq!(full.transition(event(Start(Production), 4)), Ok(()));
    assert_eq!(full.transition(event(Start(Production), 9)), Ok(()));
    assert_eq!(full.generate_valid_event(&pool, 0, 0, t0).event_type, Stop(Production));

    let mut stuck = Machine::default();
    assert_eq!(stuck.transition(event(Start(Blocked), 0)), Ok(()));
    let unblock = stuck.generate_valid_event(&pool, 0, 0, t0);
    assert_eq!(unblock.event_type, Stop(Blocked));
    assert_eq!(unblock.human_resource_id, 0);
    assert_eq!(stuck.transition(unblock), Ok(()));
    assert_eq!(stuck.0.state, Inactive);
}

#[test]
fn transition_state_reads_target() {
    assert_eq!(Start(Setup).state(), Setup);
    assert_eq!(Stop(Blocked).state(), Blocked);
}

#[test]
fn event_matches_and_closes() {
    let a = event(Start(Setup), 1);
    assert!(a.matches(&event(Start(Setup), 1)));
    assert!(!a.matches(&event(Start(Setup), 2)));
    assert!(!a.matches(&event(Start(Production), 1)));
    assert!(event(Stop(Setup), 1).closes(&a));
    assert!(!event(Stop(Setup), 2).closes(&a));
    assert!(!a.closes(&a));
}

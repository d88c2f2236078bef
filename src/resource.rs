use vstd::prelude::*;

verus! {

/// The resource-wide occupancy mode.
#[derive(Debug, Clone, Copy, PartialEq, Eq, Structural)]
pub enum ResourceState {
    Inactive,
    Setup,
    Production,
    Blocked,
}

/// Opening or closing a session of the given state.
#[derive(Debug, Clone, Copy, PartialEq, Eq, Structural)]
pub enum ResourceTransition {
    Start(ResourceState),
    Stop(ResourceState),
}

impl ResourceTransition {
    /// The state a transition opens or closes.
    pub open spec fn target(self) -> ResourceState {
        match self {
            ResourceTransition::Start(v) => v,
            ResourceTransition::Stop(v) => v,
        }
    }

    pub fn state(&self) -> (r: ResourceState)
        ensures
            r == self.target(),
    {
        match *self {
            ResourceTransition::Start(v) => v,
            ResourceTransition::Stop(v) => v,
        }
    }
}

/// A point in time: whole seconds since the Unix epoch and the nanoseconds past them.
#[derive(Debug, Clone, Copy, PartialEq, Eq, Structural, PartialOrd, Ord, Hash)]
pub struct Timestamp {
    pub secs: i64,
    pub nanos: u32,
}

/// One Start or Stop of one operator on one resource.
#[derive(Debug, Clone, Copy, PartialEq, Eq, Structural)]
pub struct Event {
    pub event_type: ResourceTransition,
    pub start: Timestamp,
    pub workcenter_resource_id: usize,
    pub human_resource_id: usize,
}

/// Two events belong to the same work session kind of the same operator.
pub open spec fn same_session(a: Event, b: Event) -> bool {
    a.event_type == b.event_type && a.human_resource_id == b.human_resource_id
}

/// `stop` is a Stop that closes the session `open` (same state, same operator).
pub open spec fn closes_session(stop: Event, open: Event) -> bool {
    match stop.event_type {
        ResourceTransition::Stop(s) => s == open.event_type.target() && open.human_resource_id
            == stop.human_resource_id,
        ResourceTransition::Start(_) => false,
    }
}

impl Event {
    pub fn matches(&self, other: &Event) -> (r: bool)
        ensures
            r == same_session(*self, *other),
    {
        self.event_type == other.event_type && other.human_resource_id == self.human_resource_id
    }

    pub fn closes(&self, other: &Event) -> (r: bool)
        ensures
            r == closes_session(*self, *other),
    {
        match self.event_type {
            ResourceTransition::Stop(state) => state == other.event_type.state()
                && other.human_resource_id == self.human_resource_id,
            ResourceTransition::Start(_) => false,
        }
    }
}

/// What a resource is, as a mathematical value.
pub struct ResourceModel {
    pub state: ResourceState,
    pub last_event: Option<Event>,
    pub open: Seq<Event>,
    pub closed: Seq<Event>,
}

impl ResourceModel {
    /// The occupancy invariants: the resource is Inactive exactly when no
    /// session is open; every open session is a Start of the current state,
    /// and no operator has two of them; the history is a list of matched
    /// (Start, Stop) pairs.
    pub open spec fn wf(self) -> bool {
        &&& (self.state == ResourceState::Inactive <==> self.open.len() == 0)
        &&& forall|i: int|
            0 <= i < self.open.len() ==> self.open[i].event_type == ResourceTransition::Start(
                self.state,
            )
        &&& forall|i: int, j: int|
            0 <= i < self.open.len() && 0 <= j < self.open.len() && i != j
                ==> self.open[i].human_resource_id != self.open[j].human_resource_id
        &&& self.closed.len() % 2 == 0
        &&& forall|k: int|
            0 <= k < self.closed.len() / 2 ==> #[trigger] matched_pair(
                self.closed[2 * k],
                self.closed[2 * k + 1],
            )
    }
}

/// `start` opened the session that `stop` closed.
pub open spec fn matched_pair(start: Event, stop: Event) -> bool {
    &&& start.event_type == ResourceTransition::Start(start.event_type.target())
    &&& stop.event_type == ResourceTransition::Stop(start.event_type.target())
    &&& start.human_resource_id == stop.human_resource_id
}

/// The resource: its macro-state, the last event that opened a session,
/// the sessions now open and the matched pairs of those already closed.
#[derive(Debug)]
pub struct Resource {
    pub state: ResourceState,
    pub last_event: Option<Event>,
    pub open_events: Vec<Event>,
    pub closed_events: Vec<Event>,
}

impl View for Resource {
    type V = ResourceModel;

    open spec fn view(&self) -> ResourceModel {
        ResourceModel {
            state: self.state,
            last_event: self.last_event,
            open: self.open_events@,
            closed: self.closed_events@,
        }
    }
}

impl Default for Resource {
    fn default() -> (r: Self)
        ensures
            r@.state == ResourceState::Inactive,
            r@.last_event is None,
            r@.open.len() == 0,
            r@.closed.len() == 0,
            r@.wf(),
    {
        Resource {
            state: ResourceState::Inactive,
            last_event: None,
            open_events: Vec::new(),
            closed_events: Vec::new(),
        }
    }
}

} // verus!

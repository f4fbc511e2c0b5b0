use vstd::prelude::*;

verus! {

/// What the engine tells its observers, in the order in which it happens.
pub enum SimulationEvent {
    /// A transition was chosen and is about to fire.
    TransitionFiring { transition_id: usize, firing_time: i64 },
    /// A transition fired; `tokens_consumed` are the ages its input arcs
    /// handed on.
    TransitionFired { transition_id: usize, firing_time: i64, tokens_consumed: Vec<u64> },
    /// The tokens of a place after a firing.
    TokensChanged { place_id: usize, new_tokens: Vec<u64> },
    /// The clock moved on by `delta`, to `new_time`.
    TimeAdvanced { delta: u64, new_time: u64 },
}

/// What an observer of a run can do: see each event, learn that the run is
/// over, and ask for the run to stop.
pub trait SimulationObserver {
    fn on_step(&mut self, event: &SimulationEvent);

    fn on_completion(&mut self);

    fn should_stop(&self) -> bool;
}

/// A `SimulationEvent` with its ages as sequences.
pub enum EventView {
    TransitionFiring { transition_id: usize, firing_time: i64 },
    TransitionFired { transition_id: usize, firing_time: i64, tokens_consumed: Seq<u64> },
    TokensChanged { place_id: usize, new_tokens: Seq<u64> },
    TimeAdvanced { delta: u64, new_time: u64 },
}

impl View for SimulationEvent {
    type V = EventView;

    open spec fn view(&self) -> EventView {
        match self {
            SimulationEvent::TransitionFiring { transition_id, firing_time } => {
                EventView::TransitionFiring { transition_id: *transition_id, firing_time: *firing_time }
            },
            SimulationEvent::TransitionFired { transition_id, firing_time, tokens_consumed } => {
                EventView::TransitionFired {
                    transition_id: *transition_id,
                    firing_time: *firing_time,
                    tokens_consumed: tokens_consumed@,
                }
            },
            SimulationEvent::TokensChanged { place_id, new_tokens } => {
                EventView::TokensChanged { place_id: *place_id, new_tokens: new_tokens@ }
            },
            SimulationEvent::TimeAdvanced { delta, new_time } => {
                EventView::TimeAdvanced { delta: *delta, new_time: *new_time }
            },
        }
    }
}

} // verus!

pub mod token_invariant;
pub mod place;
pub mod arcs;
pub mod transition;
pub mod observer;
pub mod token_observers;
pub mod net;

pub use token_invariant::Invariant;
pub use place::Place;
pub use arcs::{
    ArcType, InhibitorArc, InputArc, OutputArc, RegularOutputArc, TransportArc, TransportOutputArc,
};
pub use transition::{Distribution, Transition};
pub use observer::{EventView, SimulationEvent, SimulationObserver};
pub use token_observers::{
    Comparison, Observer, ObserverView, TokenAgeObserver, TokenCoutObserver,
};
pub use net::Tapn;

//! Events passed between the router's services and to the web frontend.
use vstd::prelude::*;

verus! {

/// Destination address sets changed.
#[derive(Debug, Clone, Copy, PartialEq, Eq, Structural)]
pub enum DstIpEvent {
    GeoIpUpdated,
}

/// An interface came up or went down.
#[derive(Debug, Clone, PartialEq)]
pub enum IfaceObserverAction {
    Up(String),
    Down(String),
}

/// What the web frontend is told.
#[derive(Debug, Clone)]
pub enum FrontendEvent {
    IfaceUp(String),
    IfaceDown(String),
}

impl From<IfaceObserverAction> for FrontendEvent {
    fn from(action: IfaceObserverAction) -> (r: FrontendEvent) {
        match action {
            IfaceObserverAction::Up(name) => FrontendEvent::IfaceUp(name),
            IfaceObserverAction::Down(name) => FrontendEvent::IfaceDown(name),
        }
    }
}

impl vstd::std_specs::convert::FromSpecImpl<IfaceObserverAction> for FrontendEvent {
    open spec fn obeys_from_spec() -> bool {
        true
    }

    open spec fn from_spec(action: IfaceObserverAction) -> FrontendEvent {
        match action {
            IfaceObserverAction::Up(name) => FrontendEvent::IfaceUp(name),
            IfaceObserverAction::Down(name) => FrontendEvent::IfaceDown(name),
        }
    }
}

} // verus!

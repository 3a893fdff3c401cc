//! The stages of a component's life, as traits: how it is made, prepared
//! and started.

use vstd::prelude::*;

verus! {

/// A component that can be made from nothing.
pub trait Constructive {
    /// What is made.
    type Instance;

    /// Makes the component.
    fn new() -> Self::Instance;
}

/// A component that is prepared before it starts.
pub trait Initializable {
    /// Prepares the component; the error says what went wrong.
    fn initialize() -> Result<(), String>;
}

/// A component that can be started.
pub trait Startable {
    /// Starts the component; the error says what went wrong.
    fn start() -> Result<(), String>;
}

/// A component with a full life cycle.
pub trait Lifecycle {

}

/// A component with a full life cycle that can be made from nothing.
pub trait ConstructiveLifecycle: Constructive + Lifecycle {

}

/// A component with a life cycle that needs no stages of its own.
pub trait LiteLifecycle {

}

/// A component with a light life cycle that can be made from nothing.
pub trait ConstructiveLiteLifecycle: Constructive + LiteLifecycle {

}

} // verus!

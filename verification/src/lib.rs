//! Composable streaming pipelines.
//!
//! A stage is one value of three kinds: it has finished with a result, it
//! waits for an input from upstream, or it passes an output downstream.
//! Stages are composed in sequence with `and_then`, piped into each other
//! with `fuse`, and run to completion with `connect`.
//!
//! Every operation states what it returns over the behaviour of its
//! arguments: the function from the events a stage is resumed with to the
//! signal it answers them with.

pub mod behavior;
pub mod conduit;
pub mod connect;
pub mod facts;
pub mod fuse;
pub mod generalize;
pub mod kleisli;
pub mod laws;
pub mod machine;
pub mod relay;
pub mod traits;
pub mod unfold;

pub use behavior::{Behavior, Event, Signal};
pub use conduit::{consume, produce, ConduitM};
pub use connect::{Conduit, Sink, Source, Void};
pub use kleisli::Kleisli;
pub use relay::identity_conduit;

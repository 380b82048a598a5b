//! A minimal dependency-injection container for cyclic component graphs.
//!
//! Components are registered under a [`TypeKey`] together with a factory.
//! Resolution runs in two phases: every factory first, in registration
//! order, then every ready-hook, in registration order. A factory may capture
//! a [`Dep`] to any registered component, built or not; a ready-hook may read
//! through every handle it holds.

pub mod autowire;
pub mod context;
pub mod error;
pub mod laws;
pub mod registry;
pub mod schedule;
pub mod slot;
pub mod thunk;

pub use autowire::Autowirable;
pub use context::Context;
pub use error::Error;
pub use registry::{Dep, Registry, RegistryView, Step, TypeKey};
pub use slot::Slot;
pub use thunk::Thunk;

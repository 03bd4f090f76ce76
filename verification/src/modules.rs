//! Modules, events and the engine that wires them together.
//!
//! - A [`Module`] is a piece of state with a fixed list of event kinds it
//!   reacts to.
//! - An [`events::Event`] is any value with a kind; modules react to events
//!   through [`events::Listener`] and answer by pushing further events.
//! - The [`Engine`] owns the loaded modules, knows who listens to what, and
//!   delivers events round by round until none is left.

pub mod engine;
pub mod events;
pub mod laws;
pub mod lemmas;
pub mod names;
pub mod registry;
pub mod standards;
pub mod utils;

pub use engine::{Dependency, Engine, Module, ModuleError};
pub use registry::{ModuleId, ModuleView, Registry};

//! A decoupling runtime: stateful modules that talk to each other only by
//! broadcasting events through an engine.
//!
//! - A module is a piece of state with an identity and a fixed list of event
//!   kinds it reacts to. One type stands for all the modules of an engine.
//! - An event is a value with a kind. Whoever handles an event may change it
//!   and may push further events.
//! - The [`modules::Engine`] constructs modules on demand, hands out
//!   counted handles to them, and delivers events round by round: what is
//!   pushed during one round is delivered in the next, in push order, to the
//!   modules that listen to its kind, in the order they were loaded.
//!
//! What holds of an engine is stated over [`modules::Registry`], the
//! mathematical picture of its loaded modules, and proved in
//! [`modules::laws`].
//!
//! Around this core stand the building blocks of an application: a module
//! that keeps loaded [`assets`], the loading of assets from the files of a
//! directory ([`disk_assets`]), the events and bookkeeping of a window
//! ([`platform`]), of frames ([`graphics`]) and of sprites
//! ([`renderer_2d`]), and the lines of a log ([`logger`]).

pub mod assets;
pub mod disk_assets;
pub mod graphics;
pub mod logger;
pub mod modules;
pub mod platform;
pub mod renderer_2d;

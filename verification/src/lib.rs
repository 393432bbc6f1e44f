//! A domain-specific language and execution engine for concurrent actors
//! whose behaviour is a hierarchical finite state machine reacting to typed
//! events.
//!
//! A program declares events (typed message signatures), free functions and
//! actors; an actor owns local state variables and either a flat set of event
//! transitions or a nested tree of named states, each with entry/exit actions
//! and guarded transitions.
//!
//! The pipeline runs strictly forward: syntax tree -> evaluated model
//! (`eval`) -> type-checked model (`typecheck`) -> live actors driven by the
//! dispatch engine (`dispatch`).  The textual grammar itself is an external
//! collaborator: the engine takes a [`ast::Program`] at its boundary.

pub mod ast;
pub mod dispatch;
pub mod engine;
pub mod env;
pub mod eval;
pub mod interp;
pub mod laws;
pub mod lookup;
pub mod mailbox;
pub mod runtime;
pub mod typecheck;
pub mod value;

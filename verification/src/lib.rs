//! Exhaustive trace enumeration for declarative behavior trees.
//!
//! Given a behavior tree described as a flat node table (a root node plus a
//! collection of named nodes), the library enumerates every execution path
//! the tree admits, together with the terminal outcome each path produces.
//! The result is usable as a test oracle for a live behavior-tree executor.

pub mod laws;
pub mod model;
pub mod paths;
pub mod render;
pub mod semantics;

pub use model::BehaviorTree;
pub use model::NodeKind;
pub use model::NodeRef;
pub use model::Outcome;
pub use model::TraceError;
pub use paths::Trace;
pub use paths::Traces;
pub use paths::get_traces;
pub use render::outcome_text;
pub use render::render_trace;
pub use render::render_traces;

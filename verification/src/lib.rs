//! Structural reflection: walk a value and everything reachable inside it,
//! and learn for each node the trail of breadcrumbs that leads to it.

pub mod conformance;
pub mod derive;
pub mod introspect;
pub mod json;
pub mod laws;
pub mod path;
pub mod replay;
pub mod shape;
pub mod text;
pub mod tuples;
pub mod value;

pub use path::{Breadcrumb, Breadcrumbs, Segment};

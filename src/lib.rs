//! Line-by-line recovery of the definition structure (classes, methods,
//! export lists and docstrings) of indentation-delimited source text.
pub mod definitions;
pub mod state;
pub mod rules;
pub mod patterns;
pub mod model;
pub mod processor;
pub mod laws;

pub use definitions::{ContextNode, ContextType};
pub use processor::{ContextError, ContextEvent, ContextProcessor};

//! A parsing-expression-grammar engine: rules are assembled from small
//! combinators, matched against a text to give a typed syntax tree, and the
//! tree can afterwards be pruned by an allow/deny filter or rewritten by
//! hooks that run while the text is matched.
//!
//! Positions and lengths are counted in characters throughout.
pub mod dot;
pub mod filter;
pub mod node;
pub mod registry;
pub mod rule;
pub mod rule_handler;
pub mod text;

pub use filter::Filter;
pub use node::{Node, Tree};
pub use registry::{Kind, Registry};

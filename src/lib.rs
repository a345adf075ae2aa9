//! Loading of boolean circuits written in the Bristol-fashion gate-list
//! format into a validated gate graph with typed input and output groups.

pub mod builder;
pub mod feed_map;
pub mod laws;
pub mod lexer;
pub mod outputs;
pub mod parse;
pub mod record;
pub mod types;

pub use builder::{Circuit, CircuitBuilder};
pub use feed_map::FeedMap;
pub use record::UncheckedGate;
pub use types::{BuilderError, Gate, GateType, Node, ParseError, TypedValue, ValueType};

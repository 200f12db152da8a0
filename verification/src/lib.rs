//! An arithmetic circuit: a directed graph of computation nodes that
//! represents a polynomial function over unsigned 64-bit integers.
//!
//! A circuit is built through [`Builder`]: inputs and constants are declared,
//! then combined with addition and multiplication. Every operation records a
//! constraint (a gate). Once the circuit is built, concrete input values are
//! supplied with [`Builder::fill_nodes`], which drives every node of the graph
//! to a concrete value, and [`Builder::check_constraints`] reports whether all
//! recorded constraints hold over the resolved values.
//!
//! Arithmetic wraps around at the 64-bit boundary.

pub mod builder;
pub mod enums;
pub mod model;
pub mod node;

pub use builder::Builder;
pub use builder::FillError;
pub use node::Node;

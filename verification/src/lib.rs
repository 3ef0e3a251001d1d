//! Reactive variables: a store of named quantities, some supplied directly and some
//! defined by expressions over other quantities, re-evaluated in dependency order and
//! read by consumers through cached bindings.
//!
//! A cycle of the program goes through these steps: the independent quantities are
//! set from outside; every dependent quantity is marked as not evaluated; the
//! dependent quantities are evaluated in waves, each over quantities that were ready
//! before it; the bindings are refreshed; the consumers read their bindings.
//!
//! The values themselves are opaque to this library: it is generic over the value type
//! and asks its caller to carry out each arithmetic operation. What it answers for is
//! which operation is asked for on which values, in which order the quantities are
//! evaluated, and which of them cannot be.
pub mod binding;
pub mod error;
pub mod graph;
pub mod group;
pub mod lambda;
pub mod laws;
pub mod pages;
pub mod quantity;
pub mod schedule;
pub mod list;
pub mod sum;
pub mod tracker;
pub mod variable;

pub use binding::{bind, update_bindings, VarBinding};
pub use error::VariableError;
pub use group::Group;
pub use lambda::{BinaryOp, Lam, Operation, UnaryOp};
pub use quantity::QuantityId;
pub use schedule::{devaluate_variables, evaluate, evaluate_variables};
pub use list::VariableList;
pub use variable::{dependent, independent, Variable};

//! A reactive spreadsheet engine: a cell store, a dependency graph, and the
//! command handling and recompute logic that keep dependent cells up to date.
//!
//! Formula parsing and evaluation are delegated to `rsheet_lib`; everything
//! around those calls — protocol tokenization, range resolution, the cell
//! store, dependency bookkeeping, and the bounded propagation walk — is
//! verified.

pub mod address;
pub mod engine;
pub mod evaluator;
pub mod graph;
pub mod laws;
pub mod propagate;
pub mod resolver;
pub mod store;
pub mod table;
pub mod text;
pub mod values;

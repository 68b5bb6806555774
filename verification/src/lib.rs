//! An OPENQASM 2.0 lexer, parser, linker and interpreter front-end.
pub mod api;
pub mod error;
pub mod grammar;
pub mod humanize;
pub mod interpreter;
pub mod linker;
pub mod qe;
pub mod semantics;
pub mod summary;
pub mod table;
pub mod text;

pub use crate::api::{compile_with_linker, default_linker, get_gate_info, parse_and_link, ExecutionTimes};
pub use crate::error::QasmSimError;
pub use crate::interpreter::computation::Histogram;
pub use crate::semantics::QasmType;

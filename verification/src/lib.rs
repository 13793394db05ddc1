use vstd::prelude::*;

pub mod text;
pub mod shape;
pub mod source;
pub mod host_schema;
pub mod render_ir;
pub mod runtime;
pub mod syntax;
pub mod hir;
pub mod stdlib;
pub mod compiler;
pub mod backend;
pub mod wiring;
pub mod emissions;
pub mod static_values;
pub mod example_model;
pub mod codegen;
pub mod scenario;

verus! {

} // verus!

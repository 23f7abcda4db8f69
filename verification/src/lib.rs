//! Structural Verilog emission for designs read from LLHD assembly.
pub mod design;
pub mod entity_lemmas;
pub mod laws;
pub mod llhd_input;
pub mod llhd_text;
pub mod module;
pub mod semantics;
pub mod text;
pub mod text_laws;
pub mod writer;

pub use module::{Assign, Instance, Module, Port, Wire};

//! The declarative region of a VHDL semantic analysis: what is declared in a
//! scope, what use clauses make visible, and how a name is looked up.
pub mod ast;
pub mod diagnostic;
pub mod fnv_maps;
pub mod region;
pub mod laws;

//! A small interpreter for the eight-symbol tape language: a sanitized
//! program, a fixed tape of byte cells, and a step function whose effect
//! is stated over a mathematical model of the machine.
pub mod interpreter;
pub mod laws;
pub mod machine;

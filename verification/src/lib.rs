//! A small fixed-width RISC-style toolchain: a two-pass assembler and two
//! word-addressed simulators, one single-cycle and one a five-stage pipeline
//! with forwarding, a load-use interlock and static branch prediction.

pub mod assembler;
pub mod instr;
pub mod sim;
pub mod single;
pub mod state;
pub mod text;

//! Compiler back end and type-level core for the Xi++ language: operands,
//! intermediate representations, the System V calling convention, dataflow
//! transfer functions, register allocation and type checking utilities.

pub mod abi;
pub mod allocate;
pub mod analyze;
pub mod assemble;
pub mod check;
pub mod collections;
pub mod data;


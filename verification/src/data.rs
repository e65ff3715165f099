pub mod symbol;
pub mod typ;
pub mod ty;
pub mod span;
pub mod operand;
pub mod ast;
pub mod ir;
pub mod lir;
pub mod assembly;
pub mod token;
pub mod intel;

pub mod error;
pub mod context;
pub mod env;
pub mod check;
pub mod statement;
pub mod function;
pub mod message;

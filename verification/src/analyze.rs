pub mod registers;
pub mod constant_propagation;
pub mod live_variables;
pub mod copy_propagation;
pub mod anticipated_expressions;
pub mod available_expressions;
pub mod postponable_expressions;
pub mod live_ranges;
pub mod used_expressions;
pub mod earliest;
pub mod latest;
pub mod conditional_constant_propagation;

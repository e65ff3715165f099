use vstd::prelude::*;

use crate::abi;
use crate::data::operand::Temporary;
use crate::data::operand::Unary;

verus! {

/// Pass argument number `argument` to a callee: one of the six argument
/// registers, or the stack slot above the stack pointer for the others.
pub fn callee_argument(argument: usize) -> (operand: Unary<Temporary>)
    requires
        argument * 8 <= i64::MAX,
    ensures
        operand == abi::spec_write_argument(argument as int),
{
    abi::write_argument(argument)
}

/// Return value number `returned` of the current function, as the callee: `rax`,
/// `rdx`, or the stack slot at `address` that the caller passed.
pub fn callee_return(address: Temporary, returned: usize) -> (operand: Unary<Temporary>)
    requires
        returned * 8 <= i64::MAX,
    ensures
        operand == abi::spec_write_return(Some(address), returned as int),
{
    abi::write_return(Some(address), returned)
}

} // verus!

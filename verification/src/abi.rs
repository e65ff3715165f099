pub mod class;
pub mod vtable;
pub mod mangle;

use vstd::prelude::*;

use crate::data::operand::Immediate;
use crate::data::operand::Memory;
use crate::data::operand::Register;
use crate::data::operand::Temporary;
use crate::data::operand::Unary;

verus! {

pub open spec fn spec_callee_saved() -> Seq<Register> {
    seq![
        Register::Rsp(true),
        Register::Rbx,
        Register::Rbp,
        Register::R12,
        Register::R13,
        Register::R14,
        Register::R15,
    ]
}

pub open spec fn spec_caller_saved() -> Seq<Register> {
    seq![
        Register::Rax,
        Register::Rcx,
        Register::Rdx,
        Register::Rsi,
        Register::Rdi,
        Register::R8,
        Register::R9,
        Register::R10,
        Register::R11,
    ]
}

pub open spec fn spec_argument() -> Seq<Register> {
    seq![Register::Rdi, Register::Rsi, Register::Rdx, Register::Rcx, Register::R8, Register::R9]
}

pub open spec fn spec_return() -> Seq<Register> {
    seq![Register::Rax, Register::Rdx]
}

/// Registers preserved across calls (System V).
pub fn callee_saved() -> (registers: Vec<Register>)
    ensures
        registers@ == spec_callee_saved(),
{
    let registers = vec![
        Register::Rsp(true),
        Register::Rbx,
        Register::Rbp,
        Register::R12,
        Register::R13,
        Register::R14,
        Register::R15,
    ];
    assert(registers@ =~= spec_callee_saved());
    registers
}

/// Registers a callee may overwrite (System V).
pub fn caller_saved() -> (registers: Vec<Register>)
    ensures
        registers@ == spec_caller_saved(),
{
    let registers = vec![
        Register::Rax,
        Register::Rcx,
        Register::Rdx,
        Register::Rsi,
        Register::Rdi,
        Register::R8,
        Register::R9,
        Register::R10,
        Register::R11,
    ];
    assert(registers@ =~= spec_caller_saved());
    registers
}

/// Size of a machine word in bytes.
pub const WORD: i64 = 8;

#[derive(Copy, Clone, Debug, PartialEq, Eq, Structural)]
pub enum Abi {
    /// Conform to the Xi++ specification for class layouts.
    Xi,
    /// Omit virtual table or virtual table entries for final classes.
    XiFinal,
}

#[derive(Copy, Clone, Debug, PartialEq, Eq, Structural)]
pub enum FramePointer {
    /// Output a function prologue and epilogue to preserve the frame pointer for debugging.
    Keep,
    /// Skip the function prologue and epilogue and allow the frame pointer to be
    /// used as a general-purpose register.
    Omit,
}

pub open spec fn saturating_sub(a: int, b: int) -> int {
    if a >= b { a - b } else { 0 }
}

pub open spec fn unwrap_or_zero(value: Option<usize>) -> int {
    match value {
        Some(value) => value as int,
        None => 0,
    }
}

/// Words reserved below the spilled temporaries: stack-passed arguments (beyond
/// the six argument registers) and stack-returned values (beyond `rax` and `rdx`)
/// of the callees.
pub open spec fn spec_outgoing_words(callee_arguments: Option<usize>, callee_returns: Option<usize>) -> int {
    saturating_sub(unwrap_or_zero(callee_arguments), 6) + saturating_sub(unwrap_or_zero(callee_returns), 2)
}

/// Stack size in words before alignment.
pub open spec fn spec_unaligned_words(
    callee_arguments: Option<usize>,
    callee_returns: Option<usize>,
    spilled: usize,
) -> int {
    spec_outgoing_words(callee_arguments, callee_returns) + spilled
}

/// Stack size in words: unpadded if there is no call; otherwise padded so that
/// `rsp` is 16-byte aligned at each call (an even number of words when the frame
/// pointer is pushed, an odd number when only the return address is).
pub open spec fn spec_stack_words(
    frame_pointer: FramePointer,
    callee_arguments: Option<usize>,
    callee_returns: Option<usize>,
    spilled: usize,
) -> int {
    let unaligned = spec_unaligned_words(callee_arguments, callee_returns, spilled);
    if callee_arguments is None && callee_returns is None {
        unaligned
    } else {
        match frame_pointer {
            FramePointer::Keep => if unaligned % 2 == 0 { unaligned } else { unaligned + 1 },
            FramePointer::Omit => if unaligned % 2 == 1 { unaligned } else { unaligned + 1 },
        }
    }
}

/// Total stack size in bytes. Aligned to 16 bytes (counting the return address
/// and the saved frame pointer, if kept) if there is a function call.
pub fn stack_size(
    frame_pointer: FramePointer,
    callee_arguments: Option<usize>,
    callee_returns: Option<usize>,
    spilled: usize,
) -> (size: usize)
    requires
        (spec_unaligned_words(callee_arguments, callee_returns, spilled) + 1) * 8 <= usize::MAX,
    ensures
        size == spec_stack_words(frame_pointer, callee_arguments, callee_returns, spilled) * 8,
        size >= spec_unaligned_words(callee_arguments, callee_returns, spilled) * 8,
        callee_arguments is Some || callee_returns is Some ==> match frame_pointer {
            FramePointer::Keep => size % 16 == 0,
            FramePointer::Omit => size % 16 == 8,
        },
{
    let arguments = match callee_arguments {
        Some(arguments) => arguments,
        None => 0,
    };
    let returned = match callee_returns {
        Some(returned) => returned,
        None => 0,
    };
    let unaligned = arguments.saturating_sub(6) + returned.saturating_sub(2) + spilled;
    let aligned = if callee_arguments.is_none() && callee_returns.is_none() {
        unaligned
    } else {
        match frame_pointer {
            FramePointer::Keep => if unaligned % 2 == 0 { unaligned } else { unaligned + 1 },
            FramePointer::Omit => if unaligned % 2 == 1 { unaligned } else { unaligned + 1 },
        }
    };
    proof {
        assert(aligned == spec_stack_words(frame_pointer, callee_arguments, callee_returns, spilled));
        if aligned % 2 == 0 {
            assert((aligned * 8) % 16 == 0) by (nonlinear_arith)
                requires
                    aligned % 2 == 0,
            ;
        } else {
            assert((aligned * 8) % 16 == 8) by (nonlinear_arith)
                requires
                    aligned % 2 == 1,
            ;
        }
    }
    aligned * 8
}

/// Offset in bytes of spilled temporary `index` from the stack pointer.
pub fn stack_offset(callee_arguments: Option<usize>, callee_returns: Option<usize>, index: usize) -> (offset: usize)
    requires
        spec_unaligned_words(callee_arguments, callee_returns, index) * 8 <= usize::MAX,
    ensures
        offset == spec_unaligned_words(callee_arguments, callee_returns, index) * 8,
{
    let arguments = match callee_arguments {
        Some(arguments) => arguments,
        None => 0,
    };
    let returned = match callee_returns {
        Some(returned) => returned,
        None => 0,
    };
    8 * (arguments.saturating_sub(6) + returned.saturating_sub(2) + index)
}

/// A memory operand `[base + offset]`.
pub open spec fn spec_stack_slot(base: Register, offset: int) -> Unary<Temporary> {
    Unary::M(Memory::BO { base: Temporary::Register(base), offset: Immediate::Integer(offset as i64) })
}

/// Where argument `index` is found by the called function: an argument register,
/// or the caller's frame above the return address.
pub open spec fn spec_read_argument(index: int) -> Unary<Temporary> {
    if index < 6 {
        Unary::R(Temporary::Register(spec_argument()[index]))
    } else {
        spec_stack_slot(Register::Rsp(false), (1 + index - 6) * 8)
    }
}

/// Where the caller places argument `index`: an argument register, or the
/// bottom of its own frame.
pub open spec fn spec_write_argument(index: int) -> Unary<Temporary> {
    if index < 6 {
        Unary::R(Temporary::Register(spec_argument()[index]))
    } else {
        spec_stack_slot(Register::Rsp(true), (index - 6) * 8)
    }
}

/// Where the caller finds return value `index` of a callee with `arguments` arguments.
pub open spec fn spec_read_return(arguments: int, index: int) -> Unary<Temporary> {
    if index < 2 {
        Unary::R(Temporary::Register(spec_return()[index]))
    } else {
        spec_stack_slot(Register::Rsp(true), (saturating_sub(arguments, 6) + index - 2) * 8)
    }
}

/// Where the callee writes return value `index`, given the return area `address`.
pub open spec fn spec_write_return(address: Option<Temporary>, index: int) -> Unary<Temporary> {
    if index < 2 {
        Unary::R(Temporary::Register(spec_return()[index]))
    } else {
        Unary::M(Memory::BO {
            base: address.unwrap(),
            offset: Immediate::Integer(((index - 2) * 8) as i64),
        })
    }
}

/// Retrieve argument `index` from the calling function.
///
/// Extra arguments are stored in the caller's stack frame.
pub fn read_argument(index: usize) -> (operand: Unary<Temporary>)
    requires
        index * 8 <= i64::MAX,
    ensures
        operand == spec_read_argument(index as int),
{
    let registers = argument();
    if index < registers.len() {
        return Unary::R(Temporary::Register(registers[index]));
    }
    Unary::M(Memory::BO {
        base: Temporary::Register(Register::rsp_placeholder()),
        offset: Immediate::Integer((1 + index as i64 - 6) * WORD),
    })
}

/// Pass argument `index` to a callee function.
pub fn write_argument(index: usize) -> (operand: Unary<Temporary>)
    requires
        index * 8 <= i64::MAX,
    ensures
        operand == spec_write_argument(index as int),
{
    let registers = argument();
    if index < registers.len() {
        return Unary::R(Temporary::Register(registers[index]));
    }
    Unary::M(Memory::BO {
        base: Temporary::Register(Register::rsp()),
        offset: Immediate::Integer((index as i64 - 6) * WORD),
    })
}

/// Retrieve return value `index` from a callee with `arguments` arguments.
///
/// Multiple returns are stored below multiple arguments (if any) in the stack.
pub fn read_return(arguments: usize, index: usize) -> (operand: Unary<Temporary>)
    requires
        (arguments + index) * 8 <= i64::MAX,
        arguments + index <= usize::MAX,
    ensures
        operand == spec_read_return(arguments as int, index as int),
{
    let registers = return_registers();
    if index < registers.len() {
        return Unary::R(Temporary::Register(registers[index]));
    }
    let stacked = if arguments > 6 { arguments - 6 } else { 0 };
    assert(registers@.len() == 2);
    let words = stacked + index - 2;
    assert(words * 8 <= i64::MAX);
    Unary::M(Memory::BO {
        base: Temporary::Register(Register::rsp()),
        offset: Immediate::Integer(words as i64 * WORD),
    })
}

/// Return value `index` to the calling function.
///
/// The caller passes `address`, pointing to a stack location to write to, when
/// there are more than two return values.
pub fn write_return(address: Option<Temporary>, index: usize) -> (operand: Unary<Temporary>)
    requires
        index < 2 || address is Some,
        index * 8 <= i64::MAX,
    ensures
        operand == spec_write_return(address, index as int),
{
    let registers = return_registers();
    if index < registers.len() {
        return Unary::R(Temporary::Register(registers[index]));
    }
    match address {
        Some(base) => Unary::M(Memory::BO {
            base,
            offset: Immediate::Integer((index as i64 - 2) * WORD),
        }),
        None => Unary::I(Immediate::Integer(0)),
    }
}

/// Registers that pass the first six arguments (System V).
pub fn argument() -> (registers: Vec<Register>)
    ensures
        registers@ == spec_argument(),
{
    let registers = vec![Register::Rdi, Register::Rsi, Register::Rdx, Register::Rcx, Register::R8, Register::R9];
    assert(registers@ =~= spec_argument());
    registers
}

/// Registers that hold the first two return values (System V).
pub fn return_registers() -> (registers: Vec<Register>)
    ensures
        registers@ == spec_return(),
{
    let registers = vec![Register::Rax, Register::Rdx];
    assert(registers@ =~= spec_return());
    registers
}

} // verus!

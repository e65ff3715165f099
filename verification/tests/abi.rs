use xic::abi;
use xic::abi::FramePointer;
use xic::assemble::abi::callee_argument;
use xic::assemble::abi::callee_return;
use xic::data::operand::Immediate;
use xic::data::operand::Memory;
use xic::data::operand::Register;
use xic::data::operand::Temporary;
use xic::data::operand::Unary;
use xic::data::symbol::Symbol;

#[test]
fn stack_size_is_aligned_at_calls() {
    // No calls: no padding.
    assert_eq!(abi::stack_size(FramePointer::Omit, None, None, 3), 24);
    assert_eq!(abi::stack_size(FramePointer::Keep, None, None, 3), 24);
    // With a call, `rsp` is 16-byte aligned counting the return address (and `rbp` if kept).
    for spilled in 0..6 {
        let keep = abi::stack_size(FramePointer::Keep, Some(2), Some(1), spilled);
        let omit = abi::stack_size(FramePointer::Omit, Some(2), Some(1), spilled);
        assert_eq!(keep % 16, 0);
        assert_eq!(omit % 16, 8);
        assert!(keep >= spilled * 8 && omit >= spilled * 8);
    }
    // Stack-passed arguments (beyond six) and results (beyond two) take words.
    assert_eq!(abi::stack_size(FramePointer::Keep, Some(8), Some(3), 0), 32);
    assert_eq!(abi::stack_offset(Some(8), Some(3), 1), 32);
}

#[test]
fn arguments_and_returns() {
    assert!(matches!(callee_argument(0), Unary::R(Temporary::Register(Register::Rdi))));
    assert!(matches!(callee_argument(5), Unary::R(Temporary::Register(Register::R9))));
    assert!(matches!(
        callee_argument(7),
        Unary::M(Memory::BO { base: Temporary::Register(Register::Rsp(true)), offset: Immediate::Integer(8) })
    ));
    let address = Temporary::Fresh(Symbol(1), 0);
    assert!(matches!(callee_return(address, 1), Unary::R(Temporary::Register(Register::Rdx))));
    assert!(matches!(
        callee_return(address, 3),
        Unary::M(Memory::BO { base: Temporary::Fresh(Symbol(1), 0), offset: Immediate::Integer(8) })
    ));
    assert!(matches!(
        abi::read_argument(6),
        Unary::M(Memory::BO { base: Temporary::Register(Register::Rsp(false)), offset: Immediate::Integer(8) })
    ));
}


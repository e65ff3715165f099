use xic::abi::FramePointer;
use xic::allocate::allocate_trivial;
use xic::allocate::check::Location;
use xic::allocate::check::ValidAllocation;
use xic::allocate::check::Value;
use xic::allocate::rewrite_rbp;
use xic::allocate::trivial;
use xic::collections::KeyMap;
use xic::data::assembly;
use xic::data::ir;
use xic::data::operand;
use xic::data::operand::Immediate;
use xic::data::operand::Label;
use xic::data::operand::Memory;
use xic::data::operand::Register;
use xic::data::operand::Temporary;
use xic::data::symbol::Symbol;

fn temporary(index: usize) -> Temporary {
    Temporary::Fresh(Symbol(7), index)
}

fn sample() -> assembly::Function<Temporary> {
    let enter = Label::Fixed(Symbol(1));
    let statements = vec![
        assembly::Statement::Label(enter),
        assembly::Statement::Binary(
            assembly::Binary::Mov,
            operand::Binary::RI { destination: temporary(0), source: Immediate::Integer(5) },
        ),
        assembly::Statement::Binary(
            assembly::Binary::Add,
            operand::Binary::RR { destination: temporary(0), source: temporary(1) },
        ),
        assembly::Statement::Binary(
            assembly::Binary::Mov,
            operand::Binary::RR { destination: Temporary::Register(Register::Rax), source: temporary(0) },
        ),
        assembly::Statement::Nullary(assembly::Nullary::Ret(1)),
    ];
    assembly::Function {
        name: Symbol(0),
        statements,
        arguments: 0,
        returned: 1,
        linkage: ir::Linkage::Global,
        enter,
        exit: Label::Fixed(Symbol(2)),
    }
}

#[test]
fn trivial_slots_are_distinct() {
    let spilled = trivial::allocate(&sample());
    assert_eq!(spilled.len(), 2);
    assert_eq!(spilled.get(&temporary(0)), Some(&0));
    assert_eq!(spilled.get(&temporary(1)), Some(&1));
    assert_eq!(spilled.get(&Temporary::Register(Register::Rax)), None);
}

#[test]
fn trivial_allocation_lays_out_frame() {
    let function = allocate_trivial(&sample());
    let statements = &function.statements;
    let last = statements.len() - 1;
    assert!(matches!(statements[0], assembly::Statement::Label(Label::Fixed(Symbol(1)))));
    assert!(matches!(
        statements[1],
        assembly::Statement::Binary(
            assembly::Binary::Sub,
            operand::Binary::RI { destination: Register::Rsp(true), source: Immediate::Integer(16) },
        )
    ));
    assert!(matches!(
        statements[last - 1],
        assembly::Statement::Binary(
            assembly::Binary::Add,
            operand::Binary::RI { destination: Register::Rsp(true), source: Immediate::Integer(16) },
        )
    ));
    assert!(matches!(statements[last], assembly::Statement::Nullary(assembly::Nullary::Ret(1))));
    assert!(matches!(
        statements[2],
        assembly::Statement::Binary(
            assembly::Binary::Mov,
            operand::Binary::MI {
                destination: Memory::BO { base: Register::Rsp(true), offset: Immediate::Integer(0) },
                source: Immediate::Integer(5),
            },
        )
    ));
    assert_eq!(function.name, Symbol(0));
    assert_eq!(function.returned, 1);
}

#[test]
fn rebase_placeholder_operands_once() {
    let mut statement = assembly::Statement::Binary(
        assembly::Binary::Mov,
        operand::Binary::MR {
            destination: Memory::BO { base: Register::Rsp(false), offset: Immediate::Integer(16) },
            source: Register::Rax,
        },
    );
    rewrite_rbp(FramePointer::Keep, 32, &mut statement);
    assert!(matches!(
        statement,
        assembly::Statement::Binary(
            assembly::Binary::Mov,
            operand::Binary::MR {
                destination: Memory::BO { base: Register::Rsp(true), offset: Immediate::Integer(56) },
                source: Register::Rax,
            },
        )
    ));
    rewrite_rbp(FramePointer::Omit, 32, &mut statement);
    assert!(matches!(
        statement,
        assembly::Statement::Binary(
            _,
            operand::Binary::MR {
                destination: Memory::BO { base: Register::Rsp(true), offset: Immediate::Integer(56) },
                ..
            },
        )
    ));
}

#[test]
fn valid_allocation_reads_what_was_written() {
    let mut allocated = KeyMap::new();
    allocated.insert(temporary(0), Register::Rbx);
    allocated.insert(temporary(1), Register::Rbx);
    let checker: ValidAllocation<false> = ValidAllocation { allocated, spilled: KeyMap::new() };
    let mut data = checker.default();
    let write = assembly::Statement::Binary(
        assembly::Binary::Mov,
        operand::Binary::RI { destination: temporary(0), source: Immediate::Integer(1) },
    );
    assert_eq!(checker.transfer(&write, &mut data), Ok(()));
    assert!(matches!(data.get(&Location::Register(Register::Rbx)), Some(Value::Temporary(t)) if *t == temporary(0)));
    let read = assembly::Statement::Unary(assembly::Unary::Pop, operand::Unary::R(temporary(0)));
    assert_eq!(checker.transfer(&read, &mut data), Ok(()));
    let read_other = assembly::Statement::Unary(assembly::Unary::Pop, operand::Unary::R(temporary(1)));
    assert_eq!(checker.transfer(&read_other, &mut data), Err(temporary(1)));
}

#[test]
fn valid_allocation_rejects_clobbered_reads() {
    let checker: ValidAllocation<false> = ValidAllocation { allocated: KeyMap::new(), spilled: KeyMap::new() };
    let mut data = checker.default();
    let call = assembly::Statement::Unary(
        assembly::Unary::Call { arguments: 0, returned: 1 },
        operand::Unary::I(Immediate::Label(Label::Fixed(Symbol(3)))),
    );
    assert_eq!(checker.transfer(&call, &mut data), Ok(()));
    let rax = Temporary::Register(Register::Rax);
    let rcx = Temporary::Register(Register::Rcx);
    let read_rax = assembly::Statement::Unary(assembly::Unary::Neg, operand::Unary::R(rax));
    assert_eq!(checker.transfer(&read_rax, &mut data), Ok(()));
    let read_rcx = assembly::Statement::Unary(assembly::Unary::Neg, operand::Unary::R(rcx));
    assert_eq!(checker.transfer(&read_rcx, &mut data), Err(rcx));
}

#[test]
fn merged_values_conflict_where_paths_disagree() {
    let checker: ValidAllocation<false> = ValidAllocation { allocated: KeyMap::new(), spilled: KeyMap::new() };
    let mut left = checker.default();
    left.insert(Location::Stack(0), Value::Temporary(temporary(0)));
    left.insert(Location::Stack(1), Value::Temporary(temporary(1)));
    let mut right = checker.default();
    right.insert(Location::Stack(0), Value::Temporary(temporary(2)));
    right.insert(Location::Stack(1), Value::Unknown);
    let mut input = checker.default();
    checker.merge(&vec![Some(&left), Some(&right)], &mut input);
    assert!(matches!(input.get(&Location::Stack(0)), Some(Value::Conflict)));
    assert!(matches!(input.get(&Location::Stack(1)), Some(Value::Temporary(t)) if *t == temporary(1)));
    assert!(matches!(Value::Temporary(temporary(0)).merge(&Value::Unknown), Value::Unknown));
    assert!(matches!(Value::Temporary(temporary(0)).merge(&Value::Temporary(temporary(0))), Value::Temporary(_)));
    assert!(matches!(Value::Temporary(temporary(0)).merge(&Value::Temporary(temporary(1))), Value::Conflict));
}

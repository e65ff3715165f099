use xic::abi::FramePointer;
use xic::assemble::tile::tile;
use xic::data::assembly;
use xic::data::ir;
use xic::data::lir;
use xic::data::operand;
use xic::data::operand::Immediate;
use xic::data::operand::Label;
use xic::data::operand::Memory;
use xic::data::operand::Register;
use xic::data::operand::Scale;
use xic::data::operand::Temporary;
use xic::data::symbol::Symbol;

const NAME: Symbol = Symbol(9);

fn fixed(index: usize) -> Temporary {
    Temporary::Fixed(Symbol(100 + index))
}

fn variable(index: usize) -> lir::Expression {
    lir::Expression::Temporary(fixed(index))
}

fn integer(value: i64) -> lir::Expression {
    lir::Expression::Immediate(Immediate::Integer(value))
}

fn binary(operator: ir::Binary, left: lir::Expression, right: lir::Expression) -> lir::Expression {
    lir::Expression::Binary(operator, Box::new(left), Box::new(right))
}

fn function(body: Vec<lir::Statement<lir::Fallthrough>>, returned: usize) -> lir::Function<lir::Fallthrough> {
    let enter = Label::Fixed(Symbol(1));
    let exit = Label::Fixed(Symbol(2));
    let mut statements = vec![lir::Statement::Label(enter)];
    statements.extend(body);
    statements.push(lir::Statement::Label(exit));
    lir::Function {
        name: Symbol(3),
        statements,
        arguments: Vec::new(),
        returned,
        linkage: ir::Linkage::Global,
        enter,
        exit,
    }
}

fn is_move(statement: &assembly::Statement<Temporary>, destination: Temporary, source: Temporary) -> bool {
    match statement {
        assembly::Statement::Binary(
            assembly::Binary::Mov,
            operand::Binary::RR { destination: d, source: s },
        ) => *d == destination && *s == source,
        _ => false,
    }
}

/// The body between the saves of the six callee-saved registers that are
/// saved when the frame pointer is omitted and their restores.
fn body(statements: &[assembly::Statement<Temporary>]) -> &[assembly::Statement<Temporary>] {
    &statements[7..statements.len() - 7]
}

#[test]
fn omitted_frame_pointer_saves_six_registers() {
    let mut counter = 0;
    let tiled = tile(FramePointer::Omit, &function(Vec::new(), 0), NAME, &mut counter);
    let statements = &tiled.statements;
    assert_eq!(counter, 6);
    assert!(matches!(statements[0], assembly::Statement::Label(Label::Fixed(Symbol(1)))));
    let saved = [Register::Rbx, Register::Rbp, Register::R12, Register::R13, Register::R14, Register::R15];
    for (index, register) in saved.iter().enumerate() {
        assert!(is_move(&statements[1 + index], Temporary::Fresh(NAME, index), Temporary::Register(*register)));
        let restore = statements.len() - 7 + index;
        assert!(is_move(&statements[restore], Temporary::Register(*register), Temporary::Fresh(NAME, index)));
    }
    assert!(matches!(statements[statements.len() - 1], assembly::Statement::Nullary(assembly::Nullary::Ret(0))));
    assert!(matches!(body(statements)[0], assembly::Statement::Label(Label::Fixed(Symbol(2)))));
    assert_eq!(tiled.name, Symbol(3));
    assert_eq!(tiled.arguments, 0);
}

#[test]
fn kept_frame_pointer_pushes_and_pops_rbp() {
    let mut counter = 4;
    let tiled = tile(FramePointer::Keep, &function(Vec::new(), 1), NAME, &mut counter);
    let statements = &tiled.statements;
    assert_eq!(counter, 9);
    assert!(matches!(
        statements[1],
        assembly::Statement::Unary(assembly::Unary::Push, operand::Unary::R(Temporary::Register(Register::Rbp)))
    ));
    assert!(is_move(&statements[2], Temporary::Register(Register::Rbp), Temporary::Register(Register::Rsp(true))));
    assert!(is_move(&statements[3], Temporary::Fresh(NAME, 4), Temporary::Register(Register::Rbx)));
    assert!(is_move(&statements[4], Temporary::Fresh(NAME, 5), Temporary::Register(Register::R12)));
    let last = statements.len() - 1;
    assert!(matches!(statements[last], assembly::Statement::Nullary(assembly::Nullary::Ret(1))));
    assert!(matches!(
        statements[last - 1],
        assembly::Statement::Unary(assembly::Unary::Pop, operand::Unary::R(Temporary::Register(Register::Rbp)))
    ));
}

#[test]
fn addition_into_another_temporary_goes_through_a_fresh_one() {
    let statement = lir::Statement::Move {
        destination: variable(0),
        source: binary(ir::Binary::Add, variable(1), integer(1)),
    };
    let mut counter = 0;
    let tiled = tile(FramePointer::Omit, &function(vec![statement], 0), NAME, &mut counter);
    let body = body(&tiled.statements);
    let fresh = Temporary::Fresh(NAME, 6);
    assert_eq!(body.len(), 4);
    assert!(is_move(&body[0], fresh, fixed(1)));
    assert!(matches!(
        body[1],
        assembly::Statement::Binary(
            assembly::Binary::Add,
            operand::Binary::RI { destination, source: Immediate::Integer(1) },
        ) if destination == fresh
    ));
    assert!(is_move(&body[2], fixed(0), fresh));
}

#[test]
fn addition_to_the_destination_updates_it_in_place() {
    let statement = lir::Statement::Move {
        destination: variable(0),
        source: binary(ir::Binary::Add, variable(0), variable(1)),
    };
    let mut counter = 0;
    let tiled = tile(FramePointer::Omit, &function(vec![statement], 0), NAME, &mut counter);
    let body = body(&tiled.statements);
    assert_eq!(body.len(), 2);
    assert!(matches!(
        body[0],
        assembly::Statement::Binary(
            assembly::Binary::Add,
            operand::Binary::RR { destination, source },
        ) if destination == fixed(0) && source == fixed(1)
    ));
    assert_eq!(counter, 6);
}

#[test]
fn scaled_index_folds_into_the_addressing_mode() {
    let address = binary(ir::Binary::Add, variable(1), binary(ir::Binary::Mul, variable(2), integer(8)));
    let statement = lir::Statement::Move {
        destination: variable(0),
        source: lir::Expression::Memory(Box::new(address)),
    };
    let mut counter = 0;
    let tiled = tile(FramePointer::Omit, &function(vec![statement], 0), NAME, &mut counter);
    let body = body(&tiled.statements);
    assert_eq!(body.len(), 2);
    assert!(matches!(
        body[0],
        assembly::Statement::Binary(
            assembly::Binary::Mov,
            operand::Binary::RM {
                destination,
                source: Memory::BIS { base, index, scale: Scale::_8 },
            },
        ) if destination == fixed(0) && base == fixed(1) && index == fixed(2)
    ));
}

#[test]
fn offset_base_and_scaled_index_fold_together() {
    let scaled = binary(ir::Binary::Mul, integer(8), variable(2));
    let address = binary(ir::Binary::Add, integer(16), binary(ir::Binary::Add, variable(1), scaled));
    let statement = lir::Statement::Move {
        destination: variable(0),
        source: lir::Expression::Memory(Box::new(address)),
    };
    let mut counter = 0;
    let tiled = tile(FramePointer::Omit, &function(vec![statement], 0), NAME, &mut counter);
    let body = body(&tiled.statements);
    assert_eq!(body.len(), 2);
    assert!(matches!(
        body[0],
        assembly::Statement::Binary(
            assembly::Binary::Mov,
            operand::Binary::RM {
                destination,
                source: Memory::BISO { base, index, scale: Scale::_8, offset: Immediate::Integer(16) },
            },
        ) if destination == fixed(0) && base == fixed(1) && index == fixed(2)
    ));
}

#[test]
fn subtracted_offset_is_negated() {
    let address = binary(ir::Binary::Sub, variable(1), integer(24));
    let statement = lir::Statement::Move {
        destination: variable(0),
        source: lir::Expression::Memory(Box::new(address)),
    };
    let mut counter = 0;
    let tiled = tile(FramePointer::Omit, &function(vec![statement], 0), NAME, &mut counter);
    let body = body(&tiled.statements);
    assert!(matches!(
        body[0],
        assembly::Statement::Binary(
            assembly::Binary::Mov,
            operand::Binary::RM { source: Memory::BO { base, offset: Immediate::Integer(-24) }, .. },
        ) if base == fixed(1)
    ));
}

#[test]
fn division_goes_through_rax() {
    let statement = lir::Statement::Move {
        destination: variable(0),
        source: binary(ir::Binary::Div, variable(1), variable(2)),
    };
    let mut counter = 0;
    let tiled = tile(FramePointer::Omit, &function(vec![statement], 0), NAME, &mut counter);
    let body = body(&tiled.statements);
    let fresh = Temporary::Fresh(NAME, 6);
    let rax = Temporary::Register(Register::Rax);
    assert_eq!(body.len(), 7);
    assert!(is_move(&body[0], fresh, fixed(1)));
    assert!(is_move(&body[1], rax, fresh));
    assert!(matches!(body[2], assembly::Statement::Nullary(assembly::Nullary::Cqo)));
    assert!(matches!(
        body[3],
        assembly::Statement::Unary(assembly::Unary::Div, operand::Unary::R(source)) if source == fixed(2)
    ));
    assert!(is_move(&body[4], fresh, rax));
    assert!(is_move(&body[5], fixed(0), fresh));
}

#[test]
fn remainder_reads_rdx_and_high_multiply_skips_cqo() {
    let statement = lir::Statement::Move {
        destination: variable(0),
        source: binary(ir::Binary::Hul, variable(1), variable(2)),
    };
    let mut counter = 0;
    let tiled = tile(FramePointer::Omit, &function(vec![statement], 0), NAME, &mut counter);
    let body = body(&tiled.statements);
    let fresh = Temporary::Fresh(NAME, 6);
    assert_eq!(body.len(), 6);
    assert!(matches!(body[2], assembly::Statement::Unary(assembly::Unary::Hul, _)));
    assert!(is_move(&body[3], fresh, Temporary::Register(Register::Rdx)));
}

#[test]
fn negation_is_subtraction_from_zero() {
    let statement = lir::Statement::Move {
        destination: variable(0),
        source: binary(ir::Binary::Sub, integer(0), variable(1)),
    };
    let mut counter = 0;
    let tiled = tile(FramePointer::Omit, &function(vec![statement], 0), NAME, &mut counter);
    let body = body(&tiled.statements);
    let fresh = Temporary::Fresh(NAME, 6);
    assert_eq!(body.len(), 4);
    assert!(is_move(&body[0], fresh, fixed(1)));
    assert!(matches!(
        body[1],
        assembly::Statement::Unary(assembly::Unary::Neg, operand::Unary::R(operand)) if operand == fresh
    ));
    assert!(is_move(&body[2], fixed(0), fresh));
}

#[test]
fn wide_immediates_are_moved_directly() {
    let statement = lir::Statement::Move { destination: variable(0), source: integer(1 << 40) };
    let mut counter = 0;
    let tiled = tile(FramePointer::Omit, &function(vec![statement], 0), NAME, &mut counter);
    let body = body(&tiled.statements);
    assert_eq!(body.len(), 2);
    assert!(matches!(
        body[0],
        assembly::Statement::Binary(
            assembly::Binary::Mov,
            operand::Binary::RI { destination, source: Immediate::Integer(value) },
        ) if destination == fixed(0) && value == 1 << 40
    ));
}

#[test]
fn conditional_jump_compares_then_jumps() {
    let target = Label::Fixed(Symbol(5));
    let statement = lir::Statement::CJump {
        condition: ir::Condition::Lt,
        left: variable(1),
        right: integer(3),
        if_true: target,
        if_false: lir::Fallthrough,
    };
    let mut counter = 0;
    let tiled = tile(FramePointer::Omit, &function(vec![statement], 0), NAME, &mut counter);
    let body = body(&tiled.statements);
    assert!(matches!(
        body[0],
        assembly::Statement::Binary(
            assembly::Binary::Cmp,
            operand::Binary::RI { destination, source: Immediate::Integer(3) },
        ) if destination == fixed(1)
    ));
    assert!(matches!(body[1], assembly::Statement::Jcc(assembly::Condition::L, Label::Fixed(Symbol(5)))));
}

#[test]
fn call_passes_arguments_and_reads_returns() {
    let statement = lir::Statement::Call(
        lir::Expression::Immediate(Immediate::Label(Label::Fixed(Symbol(6)))),
        vec![variable(1)],
        vec![fixed(0)],
    );
    let mut counter = 0;
    let tiled = tile(FramePointer::Omit, &function(vec![statement], 0), NAME, &mut counter);
    let body = body(&tiled.statements);
    assert!(is_move(&body[0], Temporary::Register(Register::Rdi), fixed(1)));
    assert!(matches!(
        body[1],
        assembly::Statement::Unary(
            assembly::Unary::Call { arguments: 1, returned: 1 },
            operand::Unary::I(Immediate::Label(Label::Fixed(Symbol(6)))),
        )
    ));
    assert!(is_move(&body[2], fixed(0), Temporary::Register(Register::Rax)));
}

#[test]
fn three_returns_use_the_area_the_caller_passed() {
    let statement = lir::Statement::Return(vec![integer(1), integer(2), integer(3)]);
    let mut counter = 0;
    let tiled = tile(FramePointer::Omit, &function(vec![statement], 3), NAME, &mut counter);
    let statements = &tiled.statements;
    let area = Temporary::Fresh(NAME, 0);
    assert!(is_move(&statements[1], Temporary::Fresh(NAME, 1), Temporary::Register(Register::Rbx)));
    assert!(is_move(&statements[7], area, Temporary::Register(Register::Rdi)));
    assert!(matches!(
        statements[10],
        assembly::Statement::Binary(
            assembly::Binary::Mov,
            operand::Binary::MI { destination: Memory::BO { base, offset: Immediate::Integer(0) }, source: Immediate::Integer(3) },
        ) if base == area
    ));
}

#[test]
fn updating_in_place_then_reading_the_destination_reads_the_update() {
    // x = (x + 1) + x: the destination is updated before the right operand reads it.
    let source = binary(ir::Binary::Add, binary(ir::Binary::Add, variable(0), integer(1)), variable(0));
    let statement = lir::Statement::Move { destination: variable(0), source };
    let mut counter = 0;
    let tiled = tile(FramePointer::Omit, &function(vec![statement], 0), NAME, &mut counter);
    let body = body(&tiled.statements);
    assert_eq!(body.len(), 3);
    assert!(matches!(
        body[0],
        assembly::Statement::Binary(
            assembly::Binary::Add,
            operand::Binary::RI { destination, source: Immediate::Integer(1) },
        ) if destination == fixed(0)
    ));
    assert!(matches!(
        body[1],
        assembly::Statement::Binary(
            assembly::Binary::Add,
            operand::Binary::RR { destination, source },
        ) if destination == fixed(0) && source == fixed(0)
    ));
}

#[test]
fn unit_tiling_numbers_temporaries_across_functions() {
    let unit = ir::Unit {
        name: Symbol(20),
        functions: vec![(Symbol(3), function(Vec::new(), 0)), (Symbol(4), function(Vec::new(), 0))],
        data: vec![(Label::Fixed(Symbol(21)), vec![Immediate::Integer(5)])],
        bss: Vec::new(),
    };
    let mut counter = 0;
    let tiled = xic::assemble::tile(&unit, FramePointer::Omit, NAME, &mut counter);
    assert_eq!(tiled.functions.len(), 2);
    assert_eq!(tiled.functions[1].0, Symbol(4));
    assert_eq!(counter, 12);
    let second = &tiled.functions[1].1.statements;
    assert!(is_move(&second[1], Temporary::Fresh(NAME, 6), Temporary::Register(Register::Rbx)));
    assert!(matches!(tiled.data[0].1[0], Immediate::Integer(5)));
}

#[test]
fn return_of_a_temporary_moves_it_to_rax_without_a_ret() {
    let statement = lir::Statement::Return(vec![variable(1)]);
    let mut counter = 0;
    let tiled = tile(FramePointer::Omit, &function(vec![statement], 1), NAME, &mut counter);
    let statements = &tiled.statements;
    let inner = body(statements);
    assert!(is_move(&inner[0], Temporary::Register(Register::Rax), fixed(1)));
    let rets = statements
        .iter()
        .filter(|statement| matches!(statement, assembly::Statement::Nullary(assembly::Nullary::Ret(_))))
        .count();
    assert_eq!(rets, 1);
    assert!(matches!(statements.last(), Some(assembly::Statement::Nullary(assembly::Nullary::Ret(1)))));
}

#[test]
fn base_plus_offset_loads_with_no_shuttle() {
    let address = binary(ir::Binary::Add, variable(1), integer(8));
    let statement = lir::Statement::Move { destination: variable(2), source: lir::Expression::Memory(Box::new(address)) };
    let mut counter = 0;
    let tiled = tile(FramePointer::Omit, &function(vec![statement], 0), NAME, &mut counter);
    let inner = body(&tiled.statements);
    assert_eq!(inner.len(), 2);
    assert!(matches!(
        inner[0],
        assembly::Statement::Binary(
            assembly::Binary::Mov,
            operand::Binary::RM { destination, source: Memory::BO { base, offset: Immediate::Integer(8) } },
        ) if destination == fixed(2) && base == fixed(1)
    ));
}

use xic::analyze::anticipated_expressions;
use xic::analyze::anticipated_expressions::AnticipatedExpressions;
use xic::analyze::available_expressions::AvailableExpressions;
use xic::analyze::constant_propagation::ConstantPropagation;
use xic::analyze::copy_propagation::CopyPropagation;
use xic::analyze::live_ranges::Clobbered;
use xic::analyze::live_ranges::LiveRanges;
use xic::analyze::live_ranges::Range;
use xic::analyze::live_variables::LiveVariables;
use xic::analyze::postponable_expressions::PostponableExpressions;
use xic::analyze::used_expressions::UsedExpressions;
use xic::collections::meet;
use xic::collections::KeyMap;
use xic::collections::KeySet;
use xic::data::assembly;
use xic::data::ir;
use xic::data::lir;
use xic::data::operand;
use xic::data::operand::Immediate;
use xic::data::operand::Label;
use xic::data::operand::Register;
use xic::data::operand::Temporary;
use xic::data::symbol::Symbol;

fn temporary(index: usize) -> Temporary {
    Temporary::Fresh(Symbol(9), index)
}

fn mov(destination: Temporary, source: Temporary) -> assembly::Statement<Temporary> {
    assembly::Statement::Binary(assembly::Binary::Mov, operand::Binary::RR { destination, source })
}

#[test]
fn copy_propagation_records_and_forgets_copies() {
    let analysis = CopyPropagation::new();
    let mut copies = analysis.default();
    analysis.transfer(&mov(temporary(1), temporary(0)), &mut copies);
    assert_eq!(copies.get(&temporary(1)), Some(&temporary(0)));
    analysis.transfer(&mov(temporary(2), temporary(1)), &mut copies);
    assert_eq!(copies.get(&temporary(2)), Some(&temporary(1)));
    // Redefining `t0` kills `t1`, which copies it, and `t2`, which copies `t1`.
    analysis.transfer(
        &assembly::Statement::Binary(
            assembly::Binary::Mov,
            operand::Binary::RI { destination: temporary(0), source: Immediate::Integer(3) },
        ),
        &mut copies,
    );
    assert_eq!(copies.len(), 0);
    // Copies of callee-saved registers are not recorded.
    analysis.transfer(&mov(temporary(3), Temporary::Register(Register::Rbx)), &mut copies);
    assert_eq!(copies.get(&temporary(3)), None);
}

#[test]
fn constant_propagation_folds() {
    let analysis = ConstantPropagation::new();
    let mut constants = analysis.default();
    analysis.transfer(
        &assembly::Statement::Binary(
            assembly::Binary::Mov,
            operand::Binary::RI { destination: temporary(0), source: Immediate::Integer(6) },
        ),
        &mut constants,
    );
    assert_eq!(constants.get(&temporary(0)), Some(&Immediate::Integer(6)));
    analysis.transfer(
        &assembly::Statement::Binary(
            assembly::Binary::Mul,
            operand::Binary::RI { destination: temporary(0), source: Immediate::Integer(7) },
        ),
        &mut constants,
    );
    assert_eq!(constants.get(&temporary(0)), Some(&Immediate::Integer(42)));
    analysis.transfer(&mov(temporary(1), temporary(0)), &mut constants);
    assert_eq!(constants.get(&temporary(1)), Some(&Immediate::Integer(42)));
    analysis.transfer(&mov(temporary(1), temporary(5)), &mut constants);
    assert_eq!(constants.get(&temporary(1)), None);
    assert_eq!(constants.get(&temporary(0)), Some(&Immediate::Integer(42)));
}

#[test]
fn meet_keeps_agreeing_facts() {
    let mut left: KeyMap<Temporary, Immediate> = KeyMap::new();
    left.insert(temporary(0), Immediate::Integer(1));
    left.insert(temporary(1), Immediate::Integer(2));
    let mut right: KeyMap<Temporary, Immediate> = KeyMap::new();
    right.insert(temporary(0), Immediate::Integer(1));
    right.insert(temporary(1), Immediate::Integer(3));
    let mut input = KeyMap::new();
    meet(&vec![Some(&left), Some(&right)], &mut input);
    assert_eq!(input.len(), 1);
    assert_eq!(input.get(&temporary(0)), Some(&Immediate::Integer(1)));
    meet(&vec![Some(&left), None], &mut input);
    assert_eq!(input.len(), 0);
}

#[test]
fn live_variables_transfer_is_monotone() {
    let analysis = LiveVariables::new(Symbol(0));
    let statement = assembly::Statement::Binary(
        assembly::Binary::Add,
        operand::Binary::RR { destination: temporary(0), source: temporary(1) },
    );
    let mut smaller = analysis.default();
    let mut larger = analysis.default();
    larger.insert(temporary(0));
    analysis.transfer(&statement, &mut smaller);
    analysis.transfer(&statement, &mut larger);
    // `t0` is dead after the statement in the smaller set, so nothing is used.
    assert_eq!(smaller.len(), 0);
    assert!(larger.contains(&temporary(0)));
    assert!(larger.contains(&temporary(1)));
    for index in 0..smaller.len() {
        assert!(larger.contains(smaller.at(index)));
    }
}

fn sum(left: lir::Expression, right: lir::Expression) -> lir::Expression {
    lir::Expression::Binary(ir::Binary::Add, Box::new(left), Box::new(right))
}

#[test]
fn anticipated_expressions_transfer() {
    let analysis = AnticipatedExpressions::new();
    let mut output = analysis.default();
    let a = lir::Expression::Temporary(temporary(0));
    let b = lir::Expression::Temporary(temporary(1));
    let read = lir::Expression::Memory(Box::new(sum(a.clone(), b.clone())));
    let statement: lir::Statement<Label> = lir::Statement::Move {
        destination: lir::Expression::Temporary(temporary(2)),
        source: read.clone(),
    };
    analysis.transfer(&statement, &mut output);
    assert_eq!(output.len(), 2);
    assert!(output.contains(&read));
    assert!(output.contains(&sum(a.clone(), b.clone())));
    // Redefining `t0` kills every expression over it.
    let kill: lir::Statement<Label> = lir::Statement::Move {
        destination: a.clone(),
        source: lir::Expression::Immediate(Immediate::Integer(0)),
    };
    analysis.transfer(&kill, &mut output);
    assert_eq!(output.len(), 0);
}

#[test]
fn anticipated_expressions_merge_intersects() {
    let analysis = AnticipatedExpressions::new();
    let a = sum(lir::Expression::Temporary(temporary(0)), lir::Expression::Temporary(temporary(1)));
    let b = sum(lir::Expression::Temporary(temporary(1)), lir::Expression::Temporary(temporary(2)));
    let mut left = analysis.default();
    left.insert(a.clone());
    left.insert(b.clone());
    let mut right = analysis.default();
    right.insert(b.clone());
    let mut input = analysis.default();
    analysis.merge(&vec![Some(&left), Some(&right), None], &mut input);
    assert_eq!(input.len(), 1);
    assert!(input.contains(&b));
    let mut untouched = analysis.default();
    untouched.insert(a.clone());
    analysis.merge(&vec![], &mut untouched);
    assert!(untouched.contains(&a));
    assert!(anticipated_expressions::contains(&a, &lir::Expression::Temporary(temporary(0))));
}

#[test]
fn available_expressions_store_kills_memory_reads() {
    let a = lir::Expression::Temporary(temporary(0));
    let read = lir::Expression::Memory(Box::new(a.clone()));
    let plain = sum(a.clone(), lir::Expression::Temporary(temporary(1)));
    let mut anticipated_block: KeySet<lir::Expression> = KeySet::new();
    anticipated_block.insert(read.clone());
    anticipated_block.insert(plain.clone());
    let mut anticipated = KeyMap::new();
    let label = Label::Fixed(Symbol(4));
    anticipated.insert(label, vec![anticipated_block]);
    let analysis = AvailableExpressions::new(anticipated, Symbol(5));
    let mut output = analysis.default();
    let store: lir::Statement<Label> = lir::Statement::Move {
        destination: lir::Expression::Memory(Box::new(lir::Expression::Temporary(temporary(3)))),
        source: lir::Expression::Immediate(Immediate::Integer(1)),
    };
    analysis.transfer_with_metadata(&label, 0, &store, &mut output);
    assert_eq!(output.len(), 1);
    assert!(output.contains(&plain));
}

#[test]
fn postponable_expressions_stop_at_use() {
    let a = lir::Expression::Temporary(temporary(0));
    let plain = sum(a.clone(), lir::Expression::Temporary(temporary(1)));
    let mut earliest_block: KeySet<lir::Expression> = KeySet::new();
    earliest_block.insert(plain.clone());
    let mut earliest = KeyMap::new();
    let label = Label::Fixed(Symbol(4));
    earliest.insert(label, vec![earliest_block]);
    let analysis = PostponableExpressions::new(earliest);
    let mut output = analysis.default();
    let skip: lir::Statement<Label> = lir::Statement::Label(label);
    analysis.transfer_with_metadata(&label, 0, &skip, &mut output);
    assert!(output.contains(&plain));
    let use_it: lir::Statement<Label> = lir::Statement::Return(vec![plain.clone()]);
    analysis.transfer_with_metadata(&label, 0, &use_it, &mut output);
    assert_eq!(output.len(), 0);
}

#[test]
fn live_range_width() {
    let mut ranges = KeyMap::new();
    ranges.insert(temporary(0), Range { start: 0, end: 4, clobbered: Clobbered::Nothing });
    ranges.insert(temporary(1), Range { start: 1, end: 2, clobbered: Clobbered::Rax });
    ranges.insert(temporary(2), Range { start: 2, end: 5, clobbered: Clobbered::Nothing });
    ranges.insert(temporary(3), Range { start: 5, end: 6, clobbered: Clobbered::Nothing });
    let live = LiveRanges { ranges, function: empty_function() };
    assert_eq!(live.width(), 3);
    let none = LiveRanges { ranges: KeyMap::new(), function: empty_function() };
    assert_eq!(none.width(), 0);
}

#[test]
fn clobbered_registers_combine() {
    assert_eq!(Clobbered::Rax.or(&Clobbered::Rdx), Clobbered::RaxRdx);
    assert_eq!(Clobbered::Nothing.or(&Clobbered::Rax), Clobbered::Rax);
    assert_eq!(Clobbered::Rdx.or(&Clobbered::Caller), Clobbered::Caller);
    assert_eq!(Clobbered::RaxRdx.as_slice().len(), 2);
    assert_eq!(Clobbered::Caller.as_slice().len(), 9);
    assert_eq!(Range::new(3).start, 3);
}

fn empty_function() -> assembly::Function<Temporary> {
    assembly::Function {
        name: Symbol(0),
        statements: vec![],
        arguments: 0,
        returned: 0,
        linkage: ir::Linkage::Global,
        enter: Label::Fixed(Symbol(1)),
        exit: Label::Fixed(Symbol(2)),
    }
}

#[test]
fn used_expressions_stop_where_placed_latest() {
    let a = lir::Expression::Temporary(temporary(0));
    let plain = sum(a.clone(), lir::Expression::Temporary(temporary(1)));
    let mut placed: KeySet<lir::Expression> = KeySet::new();
    placed.insert(plain.clone());
    let mut latest = KeyMap::new();
    let label = Label::Fixed(Symbol(4));
    latest.insert(label, vec![KeySet::new(), placed]);
    let analysis = UsedExpressions::new(latest);
    let mut output = analysis.default();
    let use_it: lir::Statement<Label> = lir::Statement::Return(vec![plain.clone()]);
    analysis.transfer_with_metadata(&label, 0, &use_it, &mut output);
    assert_eq!(output.len(), 1);
    assert!(output.contains(&plain));
    let mut placed_here = analysis.default();
    analysis.transfer_with_metadata(&label, 1, &use_it, &mut placed_here);
    assert_eq!(placed_here.len(), 0);
    let mut merged = analysis.default();
    analysis.merge(&vec![Some(&output), None, Some(&placed_here)], &mut merged);
    assert_eq!(merged.len(), 1);
}

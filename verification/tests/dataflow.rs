use xic::allocate::linear;
use xic::analyze::conditional_constant_propagation::fold_binary;
use xic::analyze::conditional_constant_propagation::fold_condition;
use xic::analyze::conditional_constant_propagation::ConditionalConstantPropagation;
use xic::analyze::conditional_constant_propagation::Constant;
use xic::analyze::conditional_constant_propagation::Data;
use xic::analyze::conditional_constant_propagation::Edge;
use xic::analyze::conditional_constant_propagation::Reachable;
use xic::analyze::earliest::Earliest;
use xic::analyze::latest::Latest;
use xic::analyze::live_ranges::Clobbered;
use xic::analyze::live_ranges::LiveRanges;
use xic::analyze::live_ranges::Range;
use xic::collections::KeyMap;
use xic::collections::KeySet;
use xic::data::assembly;
use xic::data::ir;
use xic::data::lir;
use xic::data::operand::Immediate;
use xic::data::operand::Label;
use xic::data::operand::Register;
use xic::data::operand::Temporary;
use xic::data::symbol::Symbol;

fn temporary(index: usize) -> Temporary {
    Temporary::Fresh(Symbol(7), index)
}

fn integer(value: i64) -> lir::Expression {
    lir::Expression::Immediate(Immediate::Integer(value))
}

fn binary(operator: ir::Binary, left: lir::Expression, right: lir::Expression) -> lir::Expression {
    lir::Expression::Binary(operator, Box::new(left), Box::new(right))
}

fn move_into(destination: Temporary, source: lir::Expression) -> lir::Statement<Label> {
    lir::Statement::Move { destination: lir::Expression::Temporary(destination), source }
}

fn known(pairs: &[(Temporary, i64)]) -> Data {
    let mut constants = KeyMap::new();
    for (temporary, value) in pairs {
        constants.insert(*temporary, Constant::Defined(Immediate::Integer(*value)));
    }
    Data { reachable: Reachable::Linear(true), constants }
}

fn function() -> assembly::Function<Temporary> {
    assembly::Function {
        name: Symbol(1),
        statements: Vec::new(),
        arguments: 0,
        returned: 0,
        linkage: ir::Linkage::Global,
        enter: Label::Fixed(Symbol(2)),
        exit: Label::Fixed(Symbol(3)),
    }
}

#[test]
fn folding_wraps_and_refuses_traps() {
    assert_eq!(fold_binary(ir::Binary::Add, i64::MAX, 1), Some(i64::MIN));
    assert_eq!(fold_binary(ir::Binary::Mul, 6, 7), Some(42));
    assert_eq!(fold_binary(ir::Binary::Hul, i64::MAX, 4), Some(1));
    assert_eq!(fold_binary(ir::Binary::Div, -7, 2), Some(-3));
    assert_eq!(fold_binary(ir::Binary::Mod, -7, 2), Some(-1));
    assert_eq!(fold_binary(ir::Binary::Div, 1, 0), None);
    assert_eq!(fold_binary(ir::Binary::Mod, i64::MIN, -1), None);
    assert_eq!(fold_binary(ir::Binary::Xor, 6, 3), Some(5));
}

#[test]
fn conditions_fold_signed_and_unsigned() {
    assert!(fold_condition(ir::Condition::Lt, -1, 5));
    assert!(!fold_condition(ir::Condition::Ge, -1, 5));
    assert!(fold_condition(ir::Condition::Ae, -1, 5));
    assert!(!fold_condition(ir::Condition::Ae, 4, 5));
    assert!(fold_condition(ir::Condition::Eq, 3, 3));
}

#[test]
fn evaluation_uses_known_constants() {
    let data = known(&[(temporary(0), 6)]);
    let product = binary(ir::Binary::Mul, lir::Expression::Temporary(temporary(0)), integer(7));
    assert_eq!(data.evaluate_expression(&product), Some(Immediate::Integer(42)));
    let unknown = binary(ir::Binary::Add, lir::Expression::Temporary(temporary(1)), integer(1));
    assert_eq!(data.evaluate_expression(&unknown), None);
    let memory = lir::Expression::Memory(Box::new(integer(8)));
    assert_eq!(data.evaluate_expression(&memory), None);
    let by_zero = binary(ir::Binary::Div, integer(1), integer(0));
    assert_eq!(data.evaluate_expression(&by_zero), None);
}

#[test]
fn moves_refine_then_overdefine() {
    let analysis = ConditionalConstantPropagation::new();
    let mut data = analysis.default();
    analysis.transfer(&move_into(temporary(1), integer(5)), &mut data);
    assert_eq!(data.constants.get(&temporary(1)), Some(&Constant::Defined(Immediate::Integer(5))));
    analysis.transfer(&move_into(temporary(1), integer(5)), &mut data);
    assert_eq!(data.constants.get(&temporary(1)), Some(&Constant::Defined(Immediate::Integer(5))));
    analysis.transfer(&move_into(temporary(1), integer(6)), &mut data);
    assert_eq!(data.constants.get(&temporary(1)), Some(&Constant::Overdefined));
    analysis.transfer(&move_into(temporary(2), lir::Expression::Temporary(temporary(9))), &mut data);
    assert_eq!(data.constants.get(&temporary(2)), None);
}

#[test]
fn conditional_jumps_decide_branches() {
    let analysis = ConditionalConstantPropagation::new();
    let mut data = known(&[(temporary(0), 6)]);
    let jump = |left: lir::Expression| lir::Statement::CJump {
        condition: ir::Condition::Lt,
        left,
        right: integer(7),
        if_true: Label::Fixed(Symbol(4)),
        if_false: Label::Fixed(Symbol(5)),
    };
    analysis.transfer(&jump(lir::Expression::Temporary(temporary(0))), &mut data);
    assert_eq!(data.reachable, Reachable::Branch(true, false));
    analysis.transfer(&jump(integer(9)), &mut data);
    assert_eq!(data.reachable, Reachable::Branch(false, true));
    analysis.transfer(&jump(lir::Expression::Temporary(temporary(3))), &mut data);
    assert_eq!(data.reachable, Reachable::Branch(true, true));
}

#[test]
fn merging_combines_reachability_and_constants() {
    let analysis = ConditionalConstantPropagation::new();
    let first = known(&[(temporary(0), 1), (temporary(1), 2)]);
    let mut second = known(&[(temporary(0), 1), (temporary(1), 3), (temporary(2), 4)]);
    second.reachable = Reachable::Branch(true, false);
    let mut input = analysis.default();
    let outputs = vec![(Edge::Unconditional, Some(&first)), (Edge::Conditional(false), Some(&second))];
    analysis.merge_with_metadata(&outputs, &mut input);
    assert_eq!(input.reachable, Reachable::Linear(true));
    assert_eq!(input.constants.get(&temporary(0)), Some(&Constant::Defined(Immediate::Integer(1))));
    assert_eq!(input.constants.get(&temporary(1)), Some(&Constant::Overdefined));
    assert_eq!(input.constants.get(&temporary(2)), None);

    let mut unreached = known(&[]);
    unreached.reachable = Reachable::Linear(false);
    let outputs = vec![(Edge::Unconditional, Some(&unreached)), (Edge::Conditional(false), Some(&second))];
    analysis.merge_with_metadata(&outputs, &mut input);
    assert_eq!(input.reachable, Reachable::Linear(false));

    let before = input.constants.len();
    let outputs = vec![(Edge::Unconditional, None), (Edge::Conditional(true), Some(&second))];
    analysis.merge_with_metadata(&outputs, &mut input);
    assert_eq!(input.reachable, Reachable::Linear(false));
    assert_eq!(input.constants.len(), before);
}

fn ranges(entries: &[(Temporary, usize, usize, Clobbered)]) -> LiveRanges {
    let mut ranges = KeyMap::new();
    for (temporary, start, end, clobbered) in entries {
        ranges.insert(*temporary, Range { start: *start, end: *end, clobbered: *clobbered });
    }
    LiveRanges { ranges, function: function() }
}

#[test]
fn linear_scan_reuses_expired_registers() {
    let live = ranges(&[
        (temporary(0), 0, 4, Clobbered::Nothing),
        (temporary(1), 1, 2, Clobbered::Rax),
        (temporary(2), 2, 5, Clobbered::Nothing),
        (temporary(3), 5, 6, Clobbered::Nothing),
    ]);
    let (allocated, spilled) = linear::allocate(&live, vec![Register::Rbx, Register::Rcx]);
    assert_eq!(allocated.get(&temporary(0)), Some(&Register::Rcx));
    assert_eq!(allocated.get(&temporary(1)), Some(&Register::Rbx));
    assert_eq!(allocated.get(&temporary(3)), Some(&Register::Rcx));
    assert_eq!(allocated.get(&temporary(2)), None);
    assert_eq!(spilled.get(&temporary(2)), Some(&0));
    assert_eq!(spilled.len(), 1);
}

#[test]
fn linear_scan_steals_from_longer_range() {
    let live = ranges(&[(temporary(0), 0, 10, Clobbered::Nothing), (temporary(1), 1, 3, Clobbered::Nothing)]);
    let (allocated, spilled) = linear::allocate(&live, vec![Register::Rbx]);
    assert_eq!(allocated.get(&temporary(1)), Some(&Register::Rbx));
    assert_eq!(spilled.get(&temporary(0)), Some(&0));
    assert_eq!(allocated.len(), 1);
}

#[test]
fn linear_scan_avoids_clobbered_registers() {
    let live = ranges(&[(temporary(0), 0, 3, Clobbered::Rdx)]);
    let (allocated, spilled) = linear::allocate(&live, vec![Register::Rbx, Register::Rdx]);
    assert_eq!(allocated.get(&temporary(0)), Some(&Register::Rbx));
    assert_eq!(spilled.len(), 0);
}

#[test]
fn linear_scan_gives_fixed_registers_their_own() {
    let fixed = Temporary::Register(Register::Rbx);
    let live = ranges(&[(temporary(0), 0, 5, Clobbered::Nothing), (fixed, 2, 3, Clobbered::Nothing)]);
    let (allocated, spilled) = linear::allocate(&live, vec![Register::Rax, Register::Rbx]);
    assert_eq!(allocated.get(&fixed), Some(&Register::Rbx));
    assert_eq!(spilled.get(&temporary(0)), Some(&0));
    assert_eq!(allocated.len(), 1);
}

fn expressions(expressions: &[lir::Expression]) -> KeySet<lir::Expression> {
    let mut set = KeySet::new();
    for expression in expressions {
        set.insert(expression.copy());
    }
    set
}

#[test]
fn earliest_and_latest_hand_out_the_sets_of_each_point() {
    let label = Label::Fixed(Symbol(6));
    let sum = binary(ir::Binary::Add, lir::Expression::Temporary(temporary(0)), integer(1));
    let statement = move_into(temporary(1), integer(2));

    let mut points = KeyMap::new();
    points.insert(label, vec![expressions(&[]), expressions(&[sum.copy()])]);
    let earliest = Earliest::new(points);
    let mut data = earliest.default_with_metadata(&label);
    assert_eq!(data.len(), 0);
    earliest.transfer_with_metadata(&label, 0, &statement, &mut data);
    assert!(data.contains(&sum));

    let mut points = KeyMap::new();
    points.insert(label, vec![expressions(&[sum.copy()]), expressions(&[])]);
    let latest = Latest::new(points);
    let mut data = latest.default_with_metadata(&label);
    assert!(data.contains(&sum));
    latest.transfer_with_metadata(&label, 0, &statement, &mut data);
    assert_eq!(data.len(), 0);
}

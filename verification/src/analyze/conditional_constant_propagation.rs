use vstd::prelude::*;

use vstd::arithmetic::div_mod::lemma_fundamental_div_mod;
use vstd::arithmetic::div_mod::lemma_mod_multiples_basic;

use crate::analyze::constant_propagation::high_product;
use crate::analyze::constant_propagation::multiply_high;
use crate::assemble::machine::arithmetic;
use crate::assemble::machine::compare_flags;
use crate::assemble::machine::compares;
use crate::assemble::machine::jump_taken;
use crate::assemble::machine::lemma_jump_condition;
use crate::assemble::machine::lemma_wrap_to;
use crate::assemble::machine::modulus;
use crate::assemble::machine::quotient;
use crate::assemble::machine::remainder;
use crate::assemble::machine::unsigned;
use crate::assemble::machine::wrap;
use crate::assemble::machine::Machine;
use crate::collections::KeyMap;
use crate::data::assembly;
use crate::data::ir;
use crate::data::lir;
use crate::data::operand::Immediate;
use crate::data::operand::Temporary;

verus! {

/// Forward analysis that tracks, besides the constant value of each
/// temporary, which successors of a block can be reached.
pub struct ConditionalConstantPropagation;

/// Which way control can leave a block: on straight-line code, whether the
/// next block is reached at all; after a conditional jump, whether each of
/// the true and false branches can be taken.
#[derive(Copy, Clone, Debug, PartialEq, Eq, Structural)]
pub enum Reachable {
    Linear(bool),
    Branch(bool, bool),
}

/// What is known of a temporary: a single value, or more than one.
#[derive(Copy, Clone, Debug, PartialEq, Eq, Structural)]
pub enum Constant {
    Defined(Immediate),
    Overdefined,
}

/// The kind of control-flow edge between two blocks.
#[derive(Copy, Clone, Debug, PartialEq, Eq, Structural)]
pub enum Edge {
    Unconditional,
    Conditional(bool),
}

pub struct Data {
    pub reachable: Reachable,
    pub constants: KeyMap<Temporary, Constant>,
}

/// Reachability and constants, as the contracts see them.
pub type DataView = (Reachable, Map<Temporary, Constant>);

impl Data {
    pub open spec fn wf(&self) -> bool {
        self.constants.wf()
    }

    pub open spec fn spec_view(&self) -> DataView {
        (self.reachable, self.constants@)
    }
}

/// What a comparison of two known words decides.
pub open spec fn spec_fold_condition(condition: ir::Condition, left: i64, right: i64) -> bool {
    match condition {
        ir::Condition::Lt => left < right,
        ir::Condition::Le => left <= right,
        ir::Condition::Ge => left >= right,
        ir::Condition::Gt => left > right,
        ir::Condition::Ne => left != right,
        ir::Condition::Eq => left == right,
        ir::Condition::Ae => unsigned(left) >= unsigned(right),
    }
}

/// The value of an operator on two known words, where it has one: the
/// arithmetic wraps, and a division that traps (by zero, or of the least word
/// by -1) has none.
pub open spec fn spec_fold_binary(binary: ir::Binary, left: i64, right: i64) -> Option<i64> {
    match binary {
        ir::Binary::Add => Some(left.wrapping_add(right)),
        ir::Binary::Sub => Some(left.wrapping_sub(right)),
        ir::Binary::Mul => Some(left.wrapping_mul(right)),
        ir::Binary::Hul => Some(high_product(left, right)),
        ir::Binary::Div => left.checked_div(right),
        ir::Binary::Mod => left.checked_rem(right),
        ir::Binary::Xor => Some(left ^ right),
        ir::Binary::And => Some(left & right),
        ir::Binary::Or => Some(left | right),
    }
}

/// The known value of `expression`: immediates, temporaries with a single
/// known value, and operators over known integers; memory is never known.
pub open spec fn spec_evaluate(constants: Map<Temporary, Constant>, expression: lir::Expression) -> Option<Immediate>
    decreases expression,
{
    match expression {
        lir::Expression::Memory(_) => None,
        lir::Expression::Immediate(immediate) => Some(immediate),
        lir::Expression::Temporary(temporary) => if constants.contains_key(temporary@) {
            match constants[temporary@] {
                Constant::Defined(immediate) => Some(immediate),
                Constant::Overdefined => None,
            }
        } else {
            None
        },
        lir::Expression::Binary(binary, left, right) => match (spec_evaluate(constants, *left), spec_evaluate(constants, *right)) {
            (Some(Immediate::Integer(left)), Some(Immediate::Integer(right))) => match spec_fold_binary(binary, left, right) {
                Some(value) => Some(Immediate::Integer(value)),
                None => None,
            },
            _ => None,
        },
    }
}

/// The outcome of a conditional jump, where both operands are known integers.
pub open spec fn spec_evaluate_condition(
    constants: Map<Temporary, Constant>,
    condition: ir::Condition,
    left: lir::Expression,
    right: lir::Expression,
) -> Option<bool> {
    match (spec_evaluate(constants, left), spec_evaluate(constants, right)) {
        (Some(Immediate::Integer(left)), Some(Immediate::Integer(right))) => Some(spec_fold_condition(condition, left, right)),
        _ => None,
    }
}

/// The branches a conditional jump can take, given its known outcome.
pub open spec fn spec_branches(outcome: Option<bool>) -> Reachable {
    match outcome {
        None => Reachable::Branch(true, true),
        Some(true) => Reachable::Branch(true, false),
        Some(false) => Reachable::Branch(false, true),
    }
}

/// What is known of a temporary once it is also assigned `immediate`.
pub open spec fn spec_define(known: Option<Constant>, immediate: Immediate) -> Constant {
    match known {
        None => Constant::Defined(immediate),
        Some(Constant::Defined(value)) => if value == immediate {
            Constant::Defined(value)
        } else {
            Constant::Overdefined
        },
        Some(Constant::Overdefined) => Constant::Overdefined,
    }
}

/// A conditional jump decides which branches are reachable; a move of a known
/// value into a temporary refines what is known of it; nothing else changes.
pub open spec fn spec_transfer<T>(statement: lir::Statement<T>, data: DataView) -> DataView {
    match statement {
        lir::Statement::CJump { condition, left, right, .. } => (
            spec_branches(spec_evaluate_condition(data.1, condition, left, right)),
            data.1,
        ),
        lir::Statement::Move { destination: lir::Expression::Temporary(temporary), source } => match spec_evaluate(data.1, source) {
            Some(immediate) => (data.0, data.1.insert(temporary@, spec_define(data.1.get(temporary@), immediate))),
            None => data,
        },
        _ => data,
    }
}

/// Whether the reachability of a predecessor is of the shape its edge expects.
pub open spec fn edge_fits(edge: Edge, reachable: Reachable) -> bool {
    match (edge, reachable) {
        (Edge::Unconditional, Reachable::Linear(_)) => true,
        (Edge::Conditional(_), Reachable::Branch(_, _)) => true,
        _ => false,
    }
}

/// Whether control goes along `edge` out of a predecessor that reaches `reachable`.
pub open spec fn spec_along(edge: Edge, reachable: Reachable) -> bool {
    match (edge, reachable) {
        (Edge::Unconditional, Reachable::Linear(reached)) => reached,
        (Edge::Conditional(true), Reachable::Branch(reached, _)) => reached,
        (Edge::Conditional(false), Reachable::Branch(_, reached)) => reached,
        _ => false,
    }
}

/// What is known of a temporary after meeting what another predecessor knows:
/// two different values, or a value and many, make many.
pub open spec fn spec_combine(known: Constant, other: Option<Constant>) -> Constant {
    match (known, other) {
        (Constant::Defined(value), Some(Constant::Defined(other))) => if value == other {
            known
        } else {
            Constant::Overdefined
        },
        (Constant::Defined(_), Some(Constant::Overdefined)) => Constant::Overdefined,
        _ => known,
    }
}

/// The temporaries of `known`, each combined with what `other` knows of it.
pub open spec fn spec_combine_all(known: Map<Temporary, Constant>, other: Map<Temporary, Constant>) -> Map<Temporary, Constant> {
    Map::new(|temporary: Temporary| known.contains_key(temporary), |temporary: Temporary| spec_combine(known[temporary], other.get(temporary)))
}

/// Whether a block is reached so far.
pub open spec fn reached(reachable: Reachable) -> bool {
    match reachable {
        Reachable::Linear(reached) => reached,
        Reachable::Branch(_, _) => false,
    }
}

/// The meet of the first `count` predecessors, the first of which is computed.
pub open spec fn spec_merged(outputs: Seq<(Edge, Option<DataView>)>, count: nat) -> DataView
    decreases count,
{
    if count <= 1 {
        let first = outputs[0].1.unwrap();
        (Reachable::Linear(spec_along(outputs[0].0, first.0)), first.1)
    } else {
        let merged = spec_merged(outputs, (count - 1) as nat);
        match outputs[count - 1].1 {
            None => merged,
            Some(output) => (
                Reachable::Linear(reached(merged.0) || spec_along(outputs[count - 1].0, output.0)),
                spec_combine_all(merged.1, output.1),
            ),
        }
    }
}

/// The input of a block: unchanged while its first predecessor is not
/// computed; else reached if any computed predecessor leads to it, and knowing
/// the temporaries its first predecessor knows, combined with the others.
pub open spec fn spec_merge(outputs: Seq<(Edge, Option<DataView>)>, input: DataView) -> DataView {
    if outputs.len() == 0 || outputs[0].1 is None {
        input
    } else {
        spec_merged(outputs, outputs.len())
    }
}

pub open spec fn merge_views(outputs: Seq<(Edge, Option<&Data>)>) -> Seq<(Edge, Option<DataView>)> {
    outputs.map_values(
        |output: (Edge, Option<&Data>)|
            (
                output.0,
                match output.1 {
                    Some(data) => Some(data.spec_view()),
                    None => None,
                },
            ),
    )
}

/// Whether the outputs handed to a merge are well formed, and each computed
/// one leaves along an edge of its shape.
pub open spec fn mergeable(outputs: Seq<(Edge, Option<&Data>)>) -> bool {
    outputs.len() > 0 && outputs[0].1 is Some ==> forall|i: int|
        0 <= i < outputs.len() && (#[trigger] outputs[i]).1 is Some ==> outputs[i].1.unwrap().wf() && edge_fits(outputs[i].0, outputs[i].1.unwrap().reachable)
}

/// Decide a comparison of two known words.
pub fn fold_condition(condition: ir::Condition, left: i64, right: i64) -> (holds: bool)
    ensures
        holds == spec_fold_condition(condition, left, right),
{
    match condition {
        ir::Condition::Lt => left < right,
        ir::Condition::Le => left <= right,
        ir::Condition::Ge => left >= right,
        ir::Condition::Gt => left > right,
        ir::Condition::Ne => left != right,
        ir::Condition::Eq => left == right,
        ir::Condition::Ae => if (left < 0) == (right < 0) {
            left >= right
        } else {
            left < 0
        },
    }
}

/// Apply an operator to two known words.
pub fn fold_binary(binary: ir::Binary, left: i64, right: i64) -> (folded: Option<i64>)
    ensures
        folded == spec_fold_binary(binary, left, right),
{
    match binary {
        ir::Binary::Add => Some(left.wrapping_add(right)),
        ir::Binary::Sub => Some(left.wrapping_sub(right)),
        ir::Binary::Mul => Some(left.wrapping_mul(right)),
        ir::Binary::Hul => Some(multiply_high(left, right)),
        ir::Binary::Div => left.checked_div(right),
        ir::Binary::Mod => left.checked_rem(right),
        ir::Binary::Xor => Some(left ^ right),
        ir::Binary::And => Some(left & right),
        ir::Binary::Or => Some(left | right),
    }
}

impl Data {
    /// The known value of `expression`.
    pub fn evaluate_expression(&self, expression: &lir::Expression) -> (value: Option<Immediate>)
        requires
            self.wf(),
        ensures
            value == spec_evaluate(self.constants@, *expression),
        decreases expression,
    {
        match expression {
            lir::Expression::Memory(_) => None,
            lir::Expression::Immediate(immediate) => Some(*immediate),
            lir::Expression::Temporary(temporary) => match self.constants.get(temporary) {
                Some(Constant::Defined(immediate)) => Some(*immediate),
                _ => None,
            },
            lir::Expression::Binary(binary, left, right) => {
                let left = match self.evaluate_expression(left) {
                    Some(Immediate::Integer(left)) => left,
                    _ => return None,
                };
                let right = match self.evaluate_expression(right) {
                    Some(Immediate::Integer(right)) => right,
                    _ => return None,
                };
                match fold_binary(*binary, left, right) {
                    Some(value) => Some(Immediate::Integer(value)),
                    None => None,
                }
            },
        }
    }

    /// The outcome of a conditional jump, where both operands are known integers.
    pub fn evaluate_condition(&self, condition: &ir::Condition, left: &lir::Expression, right: &lir::Expression) -> (outcome: Option<bool>)
        requires
            self.wf(),
        ensures
            outcome == spec_evaluate_condition(self.constants@, *condition, *left, *right),
    {
        let left = match self.evaluate_expression(left) {
            Some(Immediate::Integer(left)) => left,
            _ => return None,
        };
        let right = match self.evaluate_expression(right) {
            Some(Immediate::Integer(right)) => right,
            _ => return None,
        };
        Some(fold_condition(*condition, left, right))
    }
}


/// Combine each temporary of `known` with what `other` knows of it.
fn combine_all(known: &mut KeyMap<Temporary, Constant>, other: &KeyMap<Temporary, Constant>)
    requires
        old(known).wf(),
        other.wf(),
    ensures
        final(known).wf(),
        final(known)@ == spec_combine_all(old(known)@, other@),
{
    let ghost start = *known;
    proof {
        start.lemma_entries();
    }
    let mut index: usize = 0;
    while index < known.len()
        invariant
            known.wf(),
            other.wf(),
            start.wf(),
            known.size() == start.size(),
            index <= known.size(),
            forall|j: int| 0 <= j < known.size() ==> #[trigger] known.key_at_spec(j) == start.key_at_spec(j),
            known@.dom() == start@.dom(),
            forall|j: int| 0 <= j < index ==> #[trigger] known@[start.key_at_spec(j)@] == spec_combine(
                start@[start.key_at_spec(j)@],
                other@.get(start.key_at_spec(j)@),
            ),
            forall|j: int| index <= j < known.size() ==> #[trigger] known@[start.key_at_spec(j)@] == start@[start.key_at_spec(j)@],
            forall|j: int| 0 <= j < start.size() ==> start@.contains_key(#[trigger] start.key_at_spec(j)@) && start@[start.key_at_spec(
                j,
            )@] == start.value_at_spec(j),
        decreases known.size() - index,
    {
        let ghost before = *known;
        let key = known.key_at(index);
        let current = *known.value_at(index);
        proof {
            before.lemma_entries();
            assert(before@[key@] == current);
        }
        let combined = match (current, other.get(key)) {
            (Constant::Defined(value), Some(Constant::Defined(seen))) => if value == *seen {
                current
            } else {
                Constant::Overdefined
            },
            (Constant::Defined(_), Some(Constant::Overdefined)) => Constant::Overdefined,
            _ => current,
        };
        let ghost key_view = key@;
        known.swap_value_at(index, combined);
        proof {
            assert forall|j: int| 0 <= j < known.size() && j != index implies #[trigger] start.key_at_spec(j)@ != key_view by {
                start.lemma_distinct(j, index as int);
            }
        }
        index += 1;
    }
    assert(known@ =~= spec_combine_all(start@, other@)) by {
        assert forall|temporary: Temporary| #[trigger] start@.contains_key(temporary) implies known@[temporary] == spec_combine(
            start@[temporary],
            other@.get(temporary),
        ) by {
            let j = choose|j: int| 0 <= j < start.size() && #[trigger] start.key_at_spec(j)@ == temporary;
            assert(known@[start.key_at_spec(j)@] == spec_combine(start@[start.key_at_spec(j)@], other@.get(start.key_at_spec(j)@)));
        }
    }
}

impl ConditionalConstantPropagation {
    pub fn new() -> (analysis: Self) {
        ConditionalConstantPropagation
    }

    /// A block starts reached, knowing nothing.
    pub fn default(&self) -> (data: Data)
        ensures
            data.wf(),
            data.spec_view() == (Reachable::Linear(true), Map::<Temporary, Constant>::empty()),
    {
        Data { reachable: Reachable::Linear(true), constants: KeyMap::new() }
    }

    /// A call is not analysed; every other statement is.
    pub fn transfer<T>(&self, statement: &lir::Statement<T>, output: &mut Data)
        requires
            old(output).wf(),
            !(statement is Call),
        ensures
            final(output).wf(),
            final(output).spec_view() == spec_transfer(*statement, old(output).spec_view()),
    {
        match statement {
            lir::Statement::CJump { condition, left, right, .. } => {
                output.reachable = match output.evaluate_condition(condition, left, right) {
                    None => Reachable::Branch(true, true),
                    Some(true) => Reachable::Branch(true, false),
                    Some(false) => Reachable::Branch(false, true),
                };
            },
            lir::Statement::Move { destination: lir::Expression::Temporary(temporary), source } => {
                if let Some(immediate) = output.evaluate_expression(source) {
                    let constant = match output.constants.get(temporary) {
                        None => Constant::Defined(immediate),
                        Some(Constant::Overdefined) => Constant::Overdefined,
                        Some(Constant::Defined(value)) => if *value == immediate {
                            Constant::Defined(*value)
                        } else {
                            Constant::Overdefined
                        },
                    };
                    output.constants.insert(*temporary, constant);
                }
            },
            _ => {},
        }
    }

    /// Meet the outputs of a block's predecessors, each with the edge that
    /// leads from it.
    pub fn merge_with_metadata(&self, outputs: &Vec<(Edge, Option<&Data>)>, input: &mut Data)
        requires
            old(input).wf(),
            mergeable(outputs@),
        ensures
            final(input).wf(),
            final(input).spec_view() == spec_merge(merge_views(outputs@), old(input).spec_view()),
    {
        let ghost views = merge_views(outputs@);
        if outputs.len() == 0 {
            return;
        }
        let first = match outputs[0].1 {
            None => return,
            Some(first) => first,
        };
        assert(outputs@[0].1 is Some);
        let along = match (outputs[0].0, first.reachable) {
            (Edge::Unconditional, Reachable::Linear(reached)) => reached,
            (Edge::Conditional(true), Reachable::Branch(reached, _)) => reached,
            (Edge::Conditional(false), Reachable::Branch(_, reached)) => reached,
            _ => false,
        };
        input.reachable = Reachable::Linear(along);
        input.constants = first.constants.copy();
        let mut index: usize = 1;
        while index < outputs.len()
            invariant
                mergeable(outputs@),
                outputs@.len() > 0 && outputs@[0].1 is Some,
                views == merge_views(outputs@),
                1 <= index <= outputs@.len(),
                input.wf(),
                input.reachable is Linear,
                input.spec_view() == spec_merged(views, index as nat),
            decreases outputs@.len() - index,
        {
            assert(views[index as int] == (outputs@[index as int].0, match outputs@[index as int].1 {
                Some(data) => Some(data.spec_view()),
                None => None,
            }));
            match outputs[index].1 {
                None => {},
                Some(output) => {
                    let along = match (outputs[index].0, output.reachable) {
                        (Edge::Unconditional, Reachable::Linear(reached)) => reached,
                        (Edge::Conditional(true), Reachable::Branch(reached, _)) => reached,
                        (Edge::Conditional(false), Reachable::Branch(_, reached)) => reached,
                        _ => false,
                    };
                    let before = match input.reachable {
                        Reachable::Linear(reached) => reached,
                        Reachable::Branch(_, _) => false,
                    };
                    input.reachable = Reachable::Linear(before || along);
                    combine_all(&mut input.constants, &output.constants);
                },
            }
            index += 1;
        }
    }
}


/// Folding an operator gives the word that the machine computes for it.
pub proof fn lemma_fold_binary_sound(binary: ir::Binary, left: i64, right: i64)
    ensures
        spec_fold_binary(binary, left, right) is Some ==> spec_fold_binary(binary, left, right).unwrap() == arithmetic(
            binary,
            left,
            right,
        ),
{
    let m = modulus();
    match binary {
        ir::Binary::Add => {
            let word = left.wrapping_add(right);
            assert((word - (left + right)) % m == 0);
            lemma_wrap_to(left + right, word);
        },
        ir::Binary::Sub => {
            let word = left.wrapping_sub(right);
            assert((word - (left - right)) % m == 0);
            lemma_wrap_to(left - right, word);
        },
        ir::Binary::Mul => {
            let product = left * right;
            let word = left.wrapping_mul(right);
            lemma_fundamental_div_mod(product, m);
            lemma_mod_multiples_basic(-(product / m), m);
            lemma_mod_multiples_basic(-(product / m) - 1, m);
            assert((word - product) % m == 0);
            lemma_wrap_to(product, word);
        },
        ir::Binary::Hul => {
            let product = left * right;
            assert(-0x4000_0000_0000_0000_0000_0000_0000_0000 <= product <= 0x4000_0000_0000_0000_0000_0000_0000_0000) by (nonlinear_arith)
                requires
                    -0x8000_0000_0000_0000 <= left < 0x8000_0000_0000_0000,
                    -0x8000_0000_0000_0000 <= right < 0x8000_0000_0000_0000,
                    product == left * right,
            ;
            lemma_fundamental_div_mod(product, m);
            let high = product / m;
            assert(-0x4000_0000_0000_0000 <= high <= 0x4000_0000_0000_0000);
            assert(high_product(left, right) == high);
            lemma_wrap_to(high, high as i64);
        },
        ir::Binary::Div => {
            if right != 0 {
                if let Some(word) = left.checked_div(right) {
                    assert(word == quotient(left as int, right as int));
                    lemma_wrap_to(quotient(left as int, right as int), word);
                }
            }
        },
        ir::Binary::Mod => {
            if right != 0 {
                if let Some(word) = left.checked_rem(right) {
                    let x = left as int;
                    let d = right as int;
                    let ax = if x < 0 { -x } else { x };
                    let ad = if d < 0 { -d } else { d };
                    lemma_fundamental_div_mod(ax, ad);
                    let q = ax / ad;
                    let r = ax % ad;
                    assert(word == remainder(x, d)) by (nonlinear_arith)
                        requires
                            ax == ad * q + r,
                            ax == (if x < 0 { -x } else { x }),
                            ad == (if d < 0 { -d } else { d }),
                            d != 0,
                            q == ax / ad,
                            r == ax % ad,
                            word == (if x == 0 {
                                0
                            } else if x > 0 && d > 0 {
                                x % d
                            } else if x < 0 && d < 0 {
                                ((x * -1) % (d * -1)) * -1
                            } else if x < 0 {
                                ((x * -1) % d) * -1
                            } else {
                                x % (d * -1)
                            }),
                            quotient(x, d) == (if d == 0 {
                                0
                            } else if (x < 0) == (d < 0) {
                                q
                            } else {
                                -q
                            }),
                            remainder(x, d) == x - d * quotient(x, d),
                    ;
                    lemma_wrap_to(remainder(x, d), word);
                }
            }
        },
        _ => {},
    }
}

/// Whether `machine` holds, in each temporary with a single known value, that value.
pub open spec fn holds(constants: Map<Temporary, Constant>, machine: Machine) -> bool {
    forall|temporary: Temporary| #[trigger] constants.contains_key(temporary) ==> match constants[temporary] {
        Constant::Defined(immediate) => machine.temporary(temporary) == machine.immediate(immediate),
        Constant::Overdefined => true,
    }
}

/// On a machine that holds the known constants, an expression that the
/// analysis evaluates has the value it evaluates to.
pub proof fn lemma_evaluate_sound(constants: Map<Temporary, Constant>, expression: lir::Expression, machine: Machine)
    requires
        holds(constants, machine),
        spec_evaluate(constants, expression) is Some,
    ensures
        machine.evaluate(expression) == machine.immediate(spec_evaluate(constants, expression).unwrap()),
    decreases expression,
{
    match expression {
        lir::Expression::Temporary(temporary) => {
            assert(constants.contains_key(temporary@));
            assert(temporary@@ == temporary@);
        },
        lir::Expression::Binary(binary, left, right) => {
            lemma_evaluate_sound(constants, *left, machine);
            lemma_evaluate_sound(constants, *right, machine);
            let l = spec_evaluate(constants, *left).unwrap()->Integer_0;
            let r = spec_evaluate(constants, *right).unwrap()->Integer_0;
            lemma_fold_binary_sound(binary, l, r);
        },
        _ => {},
    }
}


/// On a machine that holds the known constants, a conditional jump whose
/// outcome the analysis decides marks reachable exactly the branch that the
/// comparison of the operands' values takes.
pub proof fn lemma_branch_sound(
    constants: Map<Temporary, Constant>,
    condition: ir::Condition,
    left: lir::Expression,
    right: lir::Expression,
    machine: Machine,
)
    requires
        holds(constants, machine),
        spec_evaluate_condition(constants, condition, left, right) is Some,
    ensures
        spec_branches(spec_evaluate_condition(constants, condition, left, right)) == if compares(
            condition,
            machine.evaluate(left),
            machine.evaluate(right),
        ) {
            Reachable::Branch(true, false)
        } else {
            Reachable::Branch(false, true)
        },
        spec_branches(spec_evaluate_condition(constants, condition, left, right)) == if jump_taken(
            assembly::Condition::spec_from_ir(condition),
            compare_flags(machine.evaluate(left), machine.evaluate(right)),
        ) {
            Reachable::Branch(true, false)
        } else {
            Reachable::Branch(false, true)
        },
{
    lemma_evaluate_sound(constants, left, machine);
    lemma_evaluate_sound(constants, right, machine);
    lemma_fold_condition_sound(condition, machine.evaluate(left), machine.evaluate(right));
    lemma_jump_condition(condition, machine.evaluate(left), machine.evaluate(right));
}

/// Deciding a comparison of two known words gives what the comparison says of them.
pub proof fn lemma_fold_condition_sound(condition: ir::Condition, left: i64, right: i64)
    ensures
        spec_fold_condition(condition, left, right) == compares(condition, left, right),
{
}

} // verus!

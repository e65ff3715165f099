use vstd::prelude::*;

use crate::abi;
use crate::analyze::registers::insert_all;
use crate::analyze::registers::insert_register_set;
use crate::analyze::registers::register;
use crate::analyze::registers::registers_of;
use crate::analyze::registers::remove_register_set;
use crate::analyze::registers::temporaries_of;
use crate::collections::KeySet;
use crate::data::assembly;
use crate::data::lir;
use crate::data::operand;
use crate::data::operand::Immediate;
use crate::data::operand::Label;
use crate::data::operand::Register;
use crate::data::operand::Temporary;
use crate::data::symbol::Symbol;

verus! {

/// Backward analysis of (strongly) live temporaries: a temporary is live if its
/// value may be used, and assignments to dead temporaries do not make their
/// sources live.
pub struct LiveVariables {
    /// The symbol of `_xi_out_of_bounds`, which never returns.
    pub out_of_bounds: Symbol,
}

pub type Data = KeySet<Temporary>;

pub open spec fn at_most(count: nat, bound: nat) -> int {
    if count < bound { count as int } else { bound as int }
}

/// Whether writing `destination` is unobservable given the live set after it.
/// Callee-saved registers and memory are always observable.
pub open spec fn spec_dead(destination: operand::Unary<Temporary>, live: Set<Temporary>) -> bool {
    match destination {
        operand::Unary::R(temporary) => match temporary {
            Temporary::Register(r) => !r.spec_is_callee_saved() && !live.contains(temporary@),
            _ => !live.contains(temporary@),
        },
        _ => false,
    }
}

pub open spec fn operands_of(operand: operand::Unary<Temporary>) -> Set<Temporary> {
    temporaries_of(operand.operands())
}

/// Statements on which the transfer function is defined: a `cqo` leaves `rax`
/// live only if it leaves `rdx` live, `neg` has no immediate operand, and
/// `push`/`pop` only save and restore `rbp`.
pub open spec fn transferable(statement: assembly::Statement<Temporary>, live: Set<Temporary>) -> bool {
    match statement {
        assembly::Statement::Nullary(assembly::Nullary::Cqo) => spec_dead(
            operand::Unary::R(Temporary::Register(Register::Rdx)),
            live,
        ) ==> !live.contains(register(Register::Rax)),
        assembly::Statement::Unary(assembly::Unary::Neg, operand) => !(operand is I),
        assembly::Statement::Unary(assembly::Unary::Push, operand)
        | assembly::Statement::Unary(assembly::Unary::Pop, operand) => match operand {
            operand::Unary::R(temporary) => temporary@ == register(Register::Rbp),
            _ => false,
        },
        _ => true,
    }
}

impl LiveVariables {
    pub open spec fn diverges(self, operand: operand::Unary<Temporary>) -> bool {
        operand == operand::Unary::<Temporary>::I(Immediate::Label(Label::Fixed(self.out_of_bounds)))
    }

    /// Temporaries live before `statement`, given those live after it.
    pub open spec fn spec_transfer(self, statement: assembly::Statement<Temporary>, live: Set<Temporary>) -> Set<Temporary> {
        let rax = register(Register::Rax);
        let rdx = register(Register::Rdx);
        match statement {
            assembly::Statement::Nullary(assembly::Nullary::Cqo) => if spec_dead(
                operand::Unary::R(Temporary::Register(Register::Rdx)),
                live,
            ) {
                live
            } else {
                live.remove(rdx).insert(rax)
            },
            assembly::Statement::Nullary(assembly::Nullary::Ret(returned)) => live.union(
                registers_of(abi::spec_return().take(at_most(returned as nat, 2))),
            ).insert(register(Register::Rsp(true))),
            assembly::Statement::Binary(binary, operands) => {
                if binary != assembly::Binary::Cmp && spec_dead(operands.spec_destination(), live) {
                    live
                } else {
                    let written = match operands.spec_destination() {
                        operand::Unary::R(temporary) => if binary == assembly::Binary::Mov
                            || binary == assembly::Binary::Lea {
                            live.remove(temporary@)
                        } else {
                            live.insert(temporary@)
                        },
                        destination => live.union(operands_of(destination)),
                    };
                    written.union(operands_of(operands.spec_source()))
                }
            },
            assembly::Statement::Unary(assembly::Unary::Call { arguments, returned }, operand) => {
                if self.diverges(operand) {
                    Set::empty()
                } else {
                    live.difference(registers_of(abi::spec_return().take(at_most(returned as nat, 2)))).union(
                        registers_of(abi::spec_argument().take(at_most(arguments as nat, 6))),
                    ).union(operands_of(operand))
                }
            },
            assembly::Statement::Unary(assembly::Unary::Neg, operand) => if spec_dead(operand, live) {
                live
            } else {
                live.union(operands_of(operand))
            },
            assembly::Statement::Unary(assembly::Unary::Hul, operand) => if spec_dead(
                operand::Unary::R(Temporary::Register(Register::Rdx)),
                live,
            ) {
                live
            } else {
                live.remove(rdx).insert(rax).union(operands_of(operand))
            },
            assembly::Statement::Unary(assembly::Unary::Div, operand) => live.insert(rax).insert(rdx).union(
                operands_of(operand),
            ),
            assembly::Statement::Unary(assembly::Unary::Mod, operand) => live.remove(rdx).insert(rax).insert(
                rdx,
            ).union(operands_of(operand)),
            _ => live,
        }
    }
}


impl LiveVariables {
    /// A two-operand instruction whose result is used (or a `cmp`) reads its
    /// operands: every temporary of its source, and of its destination unless
    /// that is a register that a `mov` or `lea` only writes, is live before
    /// it; and every temporary live after it is live before it, except the
    /// register a `mov` or `lea` overwrites.
    pub proof fn lemma_binary_reads(self, binary: assembly::Binary, operands: operand::Binary<Temporary>, live: Set<Temporary>)
        requires
            binary == assembly::Binary::Cmp || forall|t: Temporary|
                operands.spec_destination() == operand::Unary::R(t) ==> #[trigger] live.contains(t@),
        ensures
            ({
                let before = self.spec_transfer(assembly::Statement::Binary(binary, operands), live);
                let source = operands.spec_source().operands();
                let destination = operands.spec_destination().operands();
                let overwritten = operands.spec_destination() is R && (binary == assembly::Binary::Mov || binary
                    == assembly::Binary::Lea);
                &&& forall|i: int| 0 <= i < source.len() ==> before.contains(#[trigger] source[i]@)
                &&& forall|i: int| 0 <= i < destination.len() && !overwritten ==> before.contains(#[trigger] destination[i]@)
                &&& forall|u: Temporary| #[trigger] live.contains(u) && !(overwritten && destination[0]@ == u) ==> before.contains(u)
            }),
    {
        let source = operands.spec_source().operands();
        let destination = operands.spec_destination().operands();
        assert forall|i: int| 0 <= i < source.len() implies #[trigger] temporaries_of(source).contains(source[i]@) by {
            assert(source.map_values(|t: Temporary| t@)[i] == source[i]@);
        }
        assert forall|i: int| 0 <= i < destination.len() implies #[trigger] temporaries_of(destination).contains(destination[i]@) by {
            assert(destination.map_values(|t: Temporary| t@)[i] == destination[i]@);
        }
        match operands.spec_destination() {
            operand::Unary::R(t) => {
                assert(destination[0] == t);
            },
            _ => {},
        }
    }

    /// A one-operand instruction reads what it computes from: a used `neg`
    /// reads its operand; `imul` with a used `rdx` reads `rax` and its operand;
    /// `idiv` reads `rax`, `rdx` and its operand; a call that returns reads its
    /// argument registers and its target.
    pub proof fn lemma_unary_reads(self, unary: assembly::Unary, operand: operand::Unary<Temporary>, live: Set<Temporary>)
        ensures
            ({
                let before = self.spec_transfer(assembly::Statement::Unary(unary, operand), live);
                let read = operand.operands();
                let rax = Temporary::Register(Register::Rax)@;
                let rdx = Temporary::Register(Register::Rdx)@;
                &&& unary == assembly::Unary::Neg && (forall|t: Temporary| operand == operand::Unary::R(t) ==> #[trigger] live.contains(t@))
                    ==> forall|i: int| 0 <= i < read.len() ==> before.contains(#[trigger] read[i]@)
                &&& unary == assembly::Unary::Hul && live.contains(rdx) ==> before.contains(rax) && forall|i: int|
                    0 <= i < read.len() ==> before.contains(#[trigger] read[i]@)
                &&& (unary == assembly::Unary::Div || unary == assembly::Unary::Mod) ==> before.contains(rax) && before.contains(rdx)
                    && forall|i: int| 0 <= i < read.len() ==> before.contains(#[trigger] read[i]@)
                &&& unary is Call && !self.diverges(operand) ==> (forall|i: int|
                    0 <= i < read.len() ==> before.contains(#[trigger] read[i]@)) && (forall|i: int|
                    0 <= i < at_most(unary->arguments as nat, 6) ==> before.contains(
                        Temporary::Register(#[trigger] abi::spec_argument()[i])@,
                    ))
            }),
    {
        let read = operand.operands();
        assert forall|i: int| 0 <= i < read.len() implies #[trigger] temporaries_of(read).contains(read[i]@) by {
            assert(read.map_values(|t: Temporary| t@)[i] == read[i]@);
        }
        let arguments = abi::spec_argument().take(at_most(unary->arguments as nat, 6));
        assert forall|i: int| 0 <= i < at_most(unary->arguments as nat, 6) implies registers_of(arguments).contains(
            Temporary::Register(#[trigger] abi::spec_argument()[i])@,
        ) by {
            assert(arguments.map_values(|r: Register| register(r))[i] == register(abi::spec_argument()[i]));
        }
    }

    /// The transfer is monotone: more temporaries live after a statement never
    /// leaves fewer live before it, as the fixed-point iteration of the analysis needs.
    pub proof fn lemma_transfer_monotone(
        self,
        statement: assembly::Statement<Temporary>,
        smaller: Set<Temporary>,
        larger: Set<Temporary>,
    )
        requires
            smaller.subset_of(larger),
        ensures
            self.spec_transfer(statement, smaller).subset_of(self.spec_transfer(statement, larger)),
    {
        let before_smaller = self.spec_transfer(statement, smaller);
        let before_larger = self.spec_transfer(statement, larger);
        assert forall|temporary: Temporary| before_smaller.contains(temporary) implies before_larger.contains(temporary) by {
            match statement {
                assembly::Statement::Binary(binary, operands) => {
                    if let operand::Unary::R(destination) = operands.spec_destination() {
                        if binary != assembly::Binary::Cmp && spec_dead(operands.spec_destination(), smaller) {
                            assert(smaller.contains(temporary));
                        }
                    }
                },
                _ => {},
            }
        }
    }
}

/// Whether writing `destination` is unobservable; see [`spec_dead`].
pub fn dead_assembly(destination: &operand::Unary<Temporary>, live: &Data) -> (dead: bool)
    ensures
        dead == spec_dead(*destination, live@),
{
    match destination {
        operand::Unary::R(temporary) => match temporary {
            Temporary::Register(r) => !r.is_callee_saved() && !live.contains(temporary),
            _ => !live.contains(temporary),
        },
        _ => false,
    }
}

fn insert_operands(output: &mut Data, operand: &operand::Unary<Temporary>)
    requires
        old(output).wf(),
    ensures
        final(output).wf(),
        final(output)@ == old(output)@.union(operands_of(*operand)),
{
    let operands = operand.operand_list();
    insert_all(output, &operands);
}

impl LiveVariables {
    pub fn new(out_of_bounds: Symbol) -> (analysis: Self)
        ensures
            analysis.out_of_bounds == out_of_bounds,
    {
        LiveVariables { out_of_bounds }
    }

    /// Nothing is live at the end of a block before analysis.
    pub fn default(&self) -> (data: Data)
        ensures
            data.wf(),
            data@ == Set::<Temporary>::empty(),
    {
        KeySet::new()
    }

    /// Live temporaries before an assembly statement.
    pub fn transfer(&self, statement: &assembly::Statement<Temporary>, output: &mut Data)
        requires
            old(output).wf(),
            transferable(*statement, old(output)@),
        ensures
            final(output).wf(),
            final(output)@ == self.spec_transfer(*statement, old(output)@),
    {
        let ghost live = output@;
        let rax = Temporary::Register(Register::Rax);
        let rdx = Temporary::Register(Register::Rdx);
        match statement {
            assembly::Statement::Nullary(assembly::Nullary::Cqo) => {
                if !dead_assembly(&operand::Unary::R(rdx), output) {
                    output.remove(&rdx);
                    output.insert(rax);
                }
            },
            assembly::Statement::Nullary(assembly::Nullary::Ret(returned)) => {
                let results = abi::return_registers();
                let count = if *returned < results.len() { *returned } else { results.len() };
                insert_register_set(output, &results, count);
                output.insert(Temporary::Register(Register::rsp()));
            },
            assembly::Statement::Binary(binary, operands) => {
                let destination = operands.destination();
                if !(*binary == assembly::Binary::Cmp) && dead_assembly(&destination, output) {
                    return;
                }
                match destination {
                    operand::Unary::R(temporary) => {
                        if *binary == assembly::Binary::Mov || *binary == assembly::Binary::Lea {
                            output.remove(&temporary);
                        } else {
                            output.insert(temporary);
                        }
                    },
                    destination => insert_operands(output, &destination),
                }
                insert_operands(output, &operands.source());
            },
            assembly::Statement::Unary(assembly::Unary::Call { arguments, returned }, operand) => {
                let diverges = match operand {
                    operand::Unary::I(Immediate::Label(Label::Fixed(label))) => label.0 == self.out_of_bounds.0,
                    _ => false,
                };
                if diverges {
                    output.clear();
                    return;
                }
                let results = abi::return_registers();
                let count = if *returned < results.len() { *returned } else { results.len() };
                remove_register_set(output, &results, count);
                let registers = abi::argument();
                let count = if *arguments < registers.len() { *arguments } else { registers.len() };
                insert_register_set(output, &registers, count);
                insert_operands(output, operand);
            },
            assembly::Statement::Unary(assembly::Unary::Neg, operand) => {
                if !dead_assembly(operand, output) {
                    insert_operands(output, operand);
                }
            },
            assembly::Statement::Unary(assembly::Unary::Hul, operand) => {
                if !dead_assembly(&operand::Unary::R(rdx), output) {
                    output.remove(&rdx);
                    output.insert(rax);
                    insert_operands(output, operand);
                }
            },
            assembly::Statement::Unary(assembly::Unary::Div, operand) => {
                output.insert(rax);
                output.insert(rdx);
                insert_operands(output, operand);
            },
            assembly::Statement::Unary(assembly::Unary::Mod, operand) => {
                output.remove(&rdx);
                output.insert(rax);
                output.insert(rdx);
                insert_operands(output, operand);
            },
            _ => {},
        }
    }
}

/// Temporaries read by evaluating `expression`.
pub open spec fn uses(expression: lir::Expression) -> Set<Temporary>
    decreases expression,
{
    match expression {
        lir::Expression::Immediate(_) => Set::empty(),
        lir::Expression::Temporary(temporary) => set![temporary@],
        lir::Expression::Memory(address) => uses(*address),
        lir::Expression::Binary(_, left, right) => uses(*left).union(uses(*right)),
    }
}

/// Temporaries read by evaluating each of `expressions`.
pub open spec fn uses_all(expressions: Seq<lir::Expression>) -> Set<Temporary>
    decreases expressions.len(),
{
    if expressions.len() == 0 {
        Set::empty()
    } else {
        uses_all(expressions.drop_last()).union(uses(expressions.last()))
    }
}

/// Whether an assignment to `destination` is unobservable (memory always is observable).
pub open spec fn spec_dead_lir(destination: lir::Expression, live: Set<Temporary>) -> bool {
    match destination {
        lir::Expression::Temporary(temporary) => !live.contains(temporary@),
        _ => false,
    }
}

/// Statements on which the transfer function is defined: moves write a temporary or memory.
pub open spec fn transferable_lir<T>(statement: lir::Statement<T>) -> bool {
    match statement {
        lir::Statement::Move { destination, .. } => destination is Temporary || destination is Memory,
        _ => true,
    }
}

/// Temporaries live before an IR statement, given those live after it.
pub open spec fn spec_transfer_lir<T>(statement: lir::Statement<T>, live: Set<Temporary>) -> Set<Temporary> {
    match statement {
        lir::Statement::CJump { left, right, .. } => live.union(uses(left)).union(uses(right)),
        lir::Statement::Call(function, arguments, returned) => live.difference(
            temporaries_of(returned@),
        ).union(uses(function)).union(uses_all(arguments@)),
        lir::Statement::Move { destination, source } => if spec_dead_lir(destination, live) {
            live
        } else {
            match destination {
                lir::Expression::Memory(address) => live.union(uses(*address)).union(uses(source)),
                lir::Expression::Temporary(temporary) => live.remove(temporary@).union(uses(source)),
                _ => live,
            }
        },
        lir::Statement::Return(returned) => live.union(uses_all(returned@)),
        _ => live,
    }
}

/// Add the temporaries read by `expression`.
pub fn transfer_expression(expression: &lir::Expression, output: &mut Data)
    requires
        old(output).wf(),
    ensures
        final(output).wf(),
        final(output)@ == old(output)@.union(uses(*expression)),
    decreases expression,
{
    let ghost before = output@;
    match expression {
        lir::Expression::Immediate(_) => {
            assert(before.union(Set::empty()) =~= before);
        },
        lir::Expression::Temporary(temporary) => {
            output.insert(*temporary);
            assert(output@ =~= before.union(set![temporary@]));
        },
        lir::Expression::Memory(address) => transfer_expression(address, output),
        lir::Expression::Binary(_, left, right) => {
            transfer_expression(left, output);
            transfer_expression(right, output);
            assert(output@ =~= before.union(uses(*expression)));
        },
    }
}

/// Add the temporaries read by each of `expressions`.
pub fn transfer_expressions(expressions: &Vec<lir::Expression>, output: &mut Data)
    requires
        old(output).wf(),
    ensures
        final(output).wf(),
        final(output)@ == old(output)@.union(uses_all(expressions@)),
{
    let ghost before = output@;
    let mut index: usize = 0;
    assert(before.union(uses_all(expressions@.take(0))) =~= before);
    while index < expressions.len()
        invariant
            output.wf(),
            index <= expressions@.len(),
            output@ == before.union(uses_all(expressions@.take(index as int))),
        decreases expressions@.len() - index,
    {
        transfer_expression(&expressions[index], output);
        assert(expressions@.take(index + 1).drop_last() =~= expressions@.take(index as int));
        index += 1;
        assert(output@ =~= before.union(uses_all(expressions@.take(index as int))));
    }
    assert(expressions@.take(expressions@.len() as int) =~= expressions@);
}

fn remove_all(output: &mut Data, temporaries: &Vec<Temporary>)
    requires
        old(output).wf(),
    ensures
        final(output).wf(),
        final(output)@ == old(output)@.difference(temporaries_of(temporaries@)),
{
    let ghost before = output@;
    let mut index: usize = 0;
    assert(temporaries_of(temporaries@.take(0)) =~= Set::empty());
    assert(before.difference(Set::empty()) =~= before);
    while index < temporaries.len()
        invariant
            output.wf(),
            index <= temporaries@.len(),
            output@ == before.difference(temporaries_of(temporaries@.take(index as int))),
        decreases temporaries@.len() - index,
    {
        let ghost previous = temporaries@.take(index as int);
        let ghost current = temporaries@[index as int];
        output.remove(&temporaries[index]);
        index += 1;
        assert(output@ =~= before.difference(temporaries_of(temporaries@.take(index as int)))) by {
            let now = temporaries@.take(index as int);
            assert(now =~= previous.push(current));
            assert(now.map_values(|t: Temporary| t@) =~= previous.map_values(|t: Temporary| t@).push(current@));
            assert forall|t: Temporary| #[trigger] temporaries_of(previous).contains(t) implies temporaries_of(now).contains(t) by {
                let j = previous.map_values(|t: Temporary| t@).index_of(t);
                assert(now.map_values(|t: Temporary| t@)[j] == t);
            }
            assert(now.map_values(|t: Temporary| t@)[index - 1] == current@);
        }
    }
    assert(temporaries@.take(temporaries@.len() as int) =~= temporaries@);
}

/// Whether an assignment to `destination` is unobservable; see [`spec_dead_lir`].
pub fn dead_lir(destination: &lir::Expression, live: &Data) -> (dead: bool)
    ensures
        dead == spec_dead_lir(*destination, live@),
{
    match destination {
        lir::Expression::Temporary(temporary) => !live.contains(temporary),
        _ => false,
    }
}

impl LiveVariables {
    /// Live temporaries before an IR statement.
    pub fn transfer_lir<T>(&self, statement: &lir::Statement<T>, output: &mut Data)
        requires
            old(output).wf(),
            transferable_lir(*statement),
        ensures
            final(output).wf(),
            final(output)@ == spec_transfer_lir(*statement, old(output)@),
    {
        match statement {
            lir::Statement::CJump { left, right, .. } => {
                transfer_expression(left, output);
                transfer_expression(right, output);
            },
            lir::Statement::Call(function, arguments, returned) => {
                remove_all(output, returned);
                transfer_expression(function, output);
                transfer_expressions(arguments, output);
            },
            lir::Statement::Move { destination, source } => {
                if dead_lir(destination, output) {
                    return;
                }
                match destination {
                    lir::Expression::Memory(address) => transfer_expression(address, output),
                    lir::Expression::Temporary(temporary) => {
                        output.remove(temporary);
                    },
                    _ => {},
                }
                transfer_expression(source, output);
            },
            lir::Statement::Return(returned) => transfer_expressions(returned, output),
            _ => {},
        }
    }

    /// Live temporaries after a block: those live at the start of any successor.
    pub fn merge(&self, outputs: &Vec<Option<&Data>>, input: &mut Data)
        requires
            forall|i: int| 0 <= i < outputs@.len() ==> (#[trigger] outputs@[i] matches Some(data) ==> data.wf()),
        ensures
            final(input).wf(),
            final(input)@ == union_of(outputs@),
    {
        input.clear();
        let mut index: usize = 0;
        while index < outputs.len()
            invariant
                forall|i: int| 0 <= i < outputs@.len() ==> (#[trigger] outputs@[i] matches Some(data) ==> data.wf()),
                index <= outputs@.len(),
                input.wf(),
                input@ == union_of(outputs@.take(index as int)),
            decreases outputs@.len() - index,
        {
            assert(outputs@.take(index + 1).drop_last() =~= outputs@.take(index as int));
            match outputs[index] {
                Some(output) => input.extend(output),
                None => {},
            }
            index += 1;
        }
        assert(outputs@.take(outputs@.len() as int) =~= outputs@);
    }
}

/// Union of the present sets.
pub open spec fn union_of(outputs: Seq<Option<&Data>>) -> Set<Temporary>
    decreases outputs.len(),
{
    if outputs.len() == 0 {
        Set::empty()
    } else {
        match outputs.last() {
            Some(data) => union_of(outputs.drop_last()).union(data@),
            None => union_of(outputs.drop_last()),
        }
    }
}

} // verus!

use vstd::prelude::*;

use crate::collections::KeyMap;
use crate::data::assembly;
use crate::data::operand;
use crate::data::operand::Memory;
use crate::data::operand::Temporary;

verus! {

/// The temporaries `statement` names, in the order they are met: those of the
/// destination, then those of the source.
pub open spec fn statement_operands(statement: assembly::Statement<Temporary>) -> Seq<Temporary> {
    match statement {
        assembly::Statement::Binary(_, operands) => operands.spec_destination().operands() + operands.spec_source().operands(),
        assembly::Statement::Unary(_, operand) => operand.operands(),
        _ => seq![],
    }
}

/// The temporaries of `statements`, statement by statement.
pub open spec fn all_operands(statements: Seq<assembly::Statement<Temporary>>) -> Seq<Temporary>
    decreases statements.len(),
{
    if statements.len() == 0 {
        seq![]
    } else {
        all_operands(statements.drop_last()) + statement_operands(statements.last())
    }
}

/// `spilled` with `temporary` given the next stack slot, unless it is a machine
/// register or already has a slot.
pub open spec fn number(spilled: Map<Temporary, usize>, temporary: Temporary) -> Map<Temporary, usize> {
    if temporary is Register || spilled.contains_key(temporary) {
        spilled
    } else {
        spilled.insert(temporary, spilled.len() as usize)
    }
}

pub open spec fn number_all(spilled: Map<Temporary, usize>, temporaries: Seq<Temporary>) -> Map<Temporary, usize>
    decreases temporaries.len(),
{
    if temporaries.len() == 0 {
        spilled
    } else {
        number(number_all(spilled, temporaries.drop_last()), temporaries.last())
    }
}

/// The stack slot of each temporary of `statements`: every temporary that is not
/// a machine register gets its own slot, numbered in order of first appearance.
pub open spec fn spec_allocate(statements: Seq<assembly::Statement<Temporary>>) -> Map<Temporary, usize> {
    number_all(Map::empty(), all_operands(statements))
}

/// Slots are numbered densely from zero.
pub open spec fn dense(spilled: Map<Temporary, usize>) -> bool {
    &&& spilled.dom().finite()
    &&& forall|temporary: Temporary| #[trigger] spilled.contains_key(temporary) ==> spilled[temporary] < spilled.len()
    &&& forall|temporary: Temporary| #[trigger] spilled.contains_key(temporary) ==> !(temporary is Register)
}

pub proof fn lemma_number_all_append(spilled: Map<Temporary, usize>, first: Seq<Temporary>, second: Seq<Temporary>)
    ensures
        number_all(spilled, first + second) == number_all(number_all(spilled, first), second),
    decreases second.len(),
{
    if second.len() == 0 {
        assert(first + second =~= first);
    } else {
        assert((first + second).drop_last() =~= first + second.drop_last());
        lemma_number_all_append(spilled, first, second.drop_last());
    }
}

/// Numbering keeps the slots already given and keeps them dense, and gives a slot
/// to each temporary that is not a machine register.
pub proof fn lemma_number_all(spilled: Map<Temporary, usize>, temporaries: Seq<Temporary>)
    requires
        dense(spilled),
    ensures
        dense(number_all(spilled, temporaries)),
        forall|temporary: Temporary| #[trigger] spilled.contains_key(temporary)
            ==> number_all(spilled, temporaries).contains_key(temporary)
                && number_all(spilled, temporaries)[temporary] == spilled[temporary],
        forall|i: int| 0 <= i < temporaries.len() && !(temporaries[i] is Register)
            ==> number_all(spilled, temporaries).contains_key(#[trigger] temporaries[i]),
        spilled.len() <= number_all(spilled, temporaries).len(),
    decreases temporaries.len(),
{
    if temporaries.len() > 0 {
        let prior = number_all(spilled, temporaries.drop_last());
        lemma_number_all(spilled, temporaries.drop_last());
        let temporary = temporaries.last();
        if !(temporary is Register) && !prior.contains_key(temporary) {
            let next = prior.insert(temporary, prior.len() as usize);
            assert(next.len() == prior.len() + 1);
            assert forall|other: Temporary| #[trigger] next.contains_key(other) implies next[other] < next.len() by {
                if other != temporary {
                    assert(prior.contains_key(other));
                }
            }
        }
        assert forall|i: int| 0 <= i < temporaries.len() && !(temporaries[i] is Register)
            implies number_all(spilled, temporaries).contains_key(#[trigger] temporaries[i]) by {
            if i < temporaries.len() - 1 {
                assert(temporaries.drop_last()[i] == temporaries[i]);
            }
        }
    }
}

/// Every temporary of `statements` that is not a machine register has a slot.
pub proof fn lemma_spec_allocate(statements: Seq<assembly::Statement<Temporary>>)
    ensures
        dense(spec_allocate(statements)),
        forall|i: int, j: int|
            0 <= i < statements.len() && 0 <= j < statement_operands(statements[i]).len()
                && !(statement_operands(statements[i])[j] is Register)
            ==> spec_allocate(statements).contains_key(#[trigger] statement_operands(#[trigger] statements[i])[j]),
    decreases statements.len(),
{
    let empty = Map::<Temporary, usize>::empty();
    assert(dense(empty)) by {
        assert(empty.dom() =~= Set::empty());
    }
    lemma_number_all(empty, all_operands(statements));
    if statements.len() > 0 {
        let prior = statements.drop_last();
        let last = statements.last();
        lemma_spec_allocate(prior);
        lemma_number_all_append(empty, all_operands(prior), statement_operands(last));
        lemma_number_all(spec_allocate(prior), statement_operands(last));
        assert forall|i: int, j: int|
            0 <= i < statements.len() && 0 <= j < statement_operands(statements[i]).len()
                && !(statement_operands(statements[i])[j] is Register)
            implies spec_allocate(statements).contains_key(#[trigger] statement_operands(#[trigger] statements[i])[j]) by {
            if i < statements.len() - 1 {
                assert(prior[i] == statements[i]);
                assert(spec_allocate(prior).contains_key(statement_operands(prior[i])[j]));
            }
        }
    }
}

/// Gives each temporary of a function its own stack slot.
pub struct Trivial {
    pub spilled: KeyMap<Temporary, usize>,
}

impl Trivial {
    fn allocate(&mut self, temporary: &Temporary)
        requires
            old(self).spilled.wf(),
        ensures
            final(self).spilled.wf(),
            final(self).spilled@ == number(old(self).spilled@, *temporary),
    {
        if temporary.is_register() {
            return;
        }
        proof {
            self.spilled.lemma_size();
        }
        let index = self.spilled.len();
        if !self.spilled.contains_key(temporary) {
            self.spilled.insert(*temporary, index);
        }
    }

    fn allocate_operands(&mut self, operands: &Vec<Temporary>)
        requires
            old(self).spilled.wf(),
        ensures
            final(self).spilled.wf(),
            final(self).spilled@ == number_all(old(self).spilled@, operands@),
    {
        let ghost start = self.spilled@;
        let mut index: usize = 0;
        while index < operands.len()
            invariant
                self.spilled.wf(),
                index <= operands@.len(),
                self.spilled@ == number_all(start, operands@.take(index as int)),
            decreases operands@.len() - index,
        {
            assert(operands@.take(index + 1).drop_last() =~= operands@.take(index as int));
            self.allocate(&operands[index]);
            index += 1;
        }
        assert(operands@.take(index as int) =~= operands@);
    }

    fn allocate_unary(&mut self, unary: &operand::Unary<Temporary>)
        requires
            old(self).spilled.wf(),
        ensures
            final(self).spilled.wf(),
            final(self).spilled@ == number_all(old(self).spilled@, unary.operands()),
    {
        let operands = unary.operand_list();
        self.allocate_operands(&operands);
    }

    fn allocate_memory(&mut self, memory: &Memory<Temporary>)
        requires
            old(self).spilled.wf(),
        ensures
            final(self).spilled.wf(),
            final(self).spilled@ == number_all(old(self).spilled@, memory.operands()),
    {
        let operands = memory.operand_list();
        self.allocate_operands(&operands);
    }

    fn allocate_binary(&mut self, binary: &operand::Binary<Temporary>)
        requires
            old(self).spilled.wf(),
        ensures
            final(self).spilled.wf(),
            final(self).spilled@ == number_all(
                old(self).spilled@,
                binary.spec_destination().operands() + binary.spec_source().operands(),
            ),
    {
        proof {
            lemma_number_all_append(self.spilled@, binary.spec_destination().operands(), binary.spec_source().operands());
        }
        self.allocate_unary(&binary.destination());
        self.allocate_unary(&binary.source());
    }

    fn allocate_statement(&mut self, statement: &assembly::Statement<Temporary>)
        requires
            old(self).spilled.wf(),
        ensures
            final(self).spilled.wf(),
            final(self).spilled@ == number_all(old(self).spilled@, statement_operands(*statement)),
    {
        match statement {
            assembly::Statement::Binary(_, operands) => self.allocate_binary(operands),
            assembly::Statement::Unary(_, operand) => self.allocate_unary(operand),
            _ => {
                assert(statement_operands(*statement) =~= seq![]);
            },
        }
    }
}

/// The stack slot of each temporary of `function`, numbered in order of first
/// appearance.
pub fn allocate(function: &assembly::Function<Temporary>) -> (spilled: KeyMap<Temporary, usize>)
    ensures
        spilled.wf(),
        spilled@ == spec_allocate(function.statements@),
{
    let ghost statements = function.statements@;
    let mut trivial = Trivial { spilled: KeyMap::new() };
    let mut index: usize = 0;
    while index < function.statements.len()
        invariant
            trivial.spilled.wf(),
            statements == function.statements@,
            index <= statements.len(),
            trivial.spilled@ == spec_allocate(statements.take(index as int)),
        decreases statements.len() - index,
    {
        let ghost prior = statements.take(index as int);
        assert(statements.take(index + 1).drop_last() =~= prior);
        proof {
            lemma_number_all_append(Map::empty(), all_operands(prior), statement_operands(statements[index as int]));
        }
        trivial.allocate_statement(&function.statements[index]);
        index += 1;
    }
    assert(statements.take(index as int) =~= statements);
    trivial.spilled
}

/// The trivial allocator never gives two temporaries the same stack slot.
pub proof fn lemma_slots_distinct(statements: Seq<assembly::Statement<Temporary>>, first: Temporary, second: Temporary)
    requires
        spec_allocate(statements).contains_key(first),
        spec_allocate(statements).contains_key(second),
        first != second,
        spec_allocate(statements).len() <= usize::MAX,
    ensures
        spec_allocate(statements)[first] != spec_allocate(statements)[second],
{
    let empty = Map::<Temporary, usize>::empty();
    assert(injective(empty));
    lemma_number_all_injective(empty, all_operands(statements));
}

/// No two temporaries share a slot, and every slot is below the count.
pub open spec fn injective(spilled: Map<Temporary, usize>) -> bool {
    &&& dense(spilled)
    &&& forall|a: Temporary, b: Temporary| #[trigger] spilled.contains_key(a) && #[trigger] spilled.contains_key(b) && a != b
        ==> spilled[a] != spilled[b]
}

proof fn lemma_number_all_injective(spilled: Map<Temporary, usize>, temporaries: Seq<Temporary>)
    requires
        injective(spilled),
        number_all(spilled, temporaries).len() <= usize::MAX,
    ensures
        injective(number_all(spilled, temporaries)),
    decreases temporaries.len(),
{
    if temporaries.len() > 0 {
        let prior = number_all(spilled, temporaries.drop_last());
        let temporary = temporaries.last();
        lemma_number_all(spilled, temporaries.drop_last());
        assert(number_all(spilled, temporaries) == number(prior, temporary));
        assert(prior.len() <= number(prior, temporary).len());
        lemma_number_all_injective(spilled, temporaries.drop_last());
        if !(temporary is Register) && !prior.contains_key(temporary) {
            let next = prior.insert(temporary, prior.len() as usize);
            assert(next.len() == prior.len() + 1);
            assert(prior.len() as usize == prior.len());
            assert forall|other: Temporary| #[trigger] next.contains_key(other) implies next[other] < next.len() by {
                if other != temporary {
                    assert(prior.contains_key(other));
                }
            }
        }
    }
}

} // verus!

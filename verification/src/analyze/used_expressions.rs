use vstd::prelude::*;

use crate::analyze::anticipated_expressions;
use crate::analyze::anticipated_expressions::subexpressions;
use crate::analyze::anticipated_expressions::subexpressions_all;
use crate::analyze::anticipated_expressions::Data;
use crate::collections::KeyMap;
use crate::collections::KeySet;
use crate::data::lir;
use crate::data::operand::Label;

verus! {

/// Backward analysis of the expressions placed latest that a later statement
/// still uses: what each statement uses is used before it, unless it is placed
/// latest right there.
pub struct UsedExpressions {
    /// The expressions placed latest before each statement of each block.
    pub latest: KeyMap<Label, Vec<Data>>,
}

/// The compound subexpressions that `statement` uses.
pub open spec fn uses<T>(statement: lir::Statement<T>) -> Set<lir::Expression> {
    match statement {
        lir::Statement::CJump { left, right, .. } => subexpressions(left).union(subexpressions(right)),
        lir::Statement::Call(function, arguments, _) => subexpressions(function).union(subexpressions_all(arguments@)),
        lir::Statement::Move { destination, source } => match destination {
            lir::Expression::Memory(address) => subexpressions(*address).union(subexpressions(source)),
            _ => subexpressions(source),
        },
        lir::Statement::Return(returned) => subexpressions_all(returned@),
        _ => Set::empty(),
    }
}

/// Expressions used before `statement`, given those used after it and those
/// placed latest before it.
pub open spec fn spec_transfer<T>(
    latest: Set<lir::Expression>,
    statement: lir::Statement<T>,
    used: Set<lir::Expression>,
) -> Set<lir::Expression> {
    used.union(uses(statement)).difference(latest)
}

/// The expressions used on some computed path out.
pub open spec fn spec_merge_all(outputs: Seq<Option<Set<lir::Expression>>>) -> Set<lir::Expression>
    decreases outputs.len(),
{
    if outputs.len() == 0 {
        Set::empty()
    } else {
        match outputs.last() {
            Some(last) => spec_merge_all(outputs.drop_last()).union(last),
            None => spec_merge_all(outputs.drop_last()),
        }
    }
}

/// Remove each element of `removed`.
fn remove_each(output: &mut Data, removed: &Data)
    requires
        old(output).wf(),
        removed.wf(),
    ensures
        final(output).wf(),
        final(output)@ == old(output)@.difference(removed@),
{
    let ghost before = output@;
    let mut index: usize = 0;
    proof {
        removed.lemma_elements();
    }
    while index < removed.len()
        invariant
            output.wf(),
            removed.wf(),
            index <= removed.size(),
            forall|expression: lir::Expression| #[trigger] output@.contains(expression) <==> before.contains(expression)
                && !(exists|j: int| 0 <= j < index && #[trigger] removed.element_at_spec(j)@ == expression),
        decreases removed.size() - index,
    {
        let element = removed.at(index);
        output.remove(element);
        assert forall|expression: lir::Expression| #[trigger] output@.contains(expression) <==> before.contains(expression)
            && !(exists|j: int| 0 <= j < index + 1 && #[trigger] removed.element_at_spec(j)@ == expression) by {
            if expression == element@ {
                assert(removed.element_at_spec(index as int)@ == expression);
            }
        }
        index += 1;
    }
    proof {
        removed.lemma_elements();
    }
    assert(output@ =~= before.difference(removed@));
}

impl UsedExpressions {
    pub closed spec fn wf(self) -> bool {
        &&& self.latest.wf()
        &&& forall|label: Label| #[trigger] self.latest@.contains_key(label) ==> forall|i: int|
            0 <= i < self.latest@[label]@.len() ==> (#[trigger] self.latest@[label]@[i]).wf()
    }

    /// The expressions placed latest before statement `index` of block `label`.
    pub closed spec fn latest_at(self, label: Label, index: int) -> Option<Set<lir::Expression>> {
        if self.latest@.contains_key(label) && 0 <= index < self.latest@[label]@.len() {
            Some(self.latest@[label]@[index]@)
        } else {
            None
        }
    }

    pub fn new(latest: KeyMap<Label, Vec<Data>>) -> (analysis: Self)
        requires
            latest.wf(),
            forall|label: Label| #[trigger] latest@.contains_key(label) ==> forall|i: int|
                0 <= i < latest@[label]@.len() ==> (#[trigger] latest@[label]@[i]).wf(),
        ensures
            analysis.wf(),
            forall|label: Label, index: int| #[trigger] analysis.latest_at(label, index) == if latest@.contains_key(label)
                && 0 <= index < latest@[label]@.len() {
                Some(latest@[label]@[index]@)
            } else {
                None
            },
    {
        UsedExpressions { latest }
    }

    pub fn default(&self) -> (data: Data)
        ensures
            data.wf(),
            data@ == Set::<lir::Expression>::empty(),
    {
        KeySet::new()
    }

    pub fn transfer_with_metadata<T>(&self, label: &Label, index: usize, statement: &lir::Statement<T>, output: &mut Data)
        requires
            self.wf(),
            old(output).wf(),
            self.latest_at(*label, index as int) is Some,
            anticipated_expressions::transferable(*statement),
        ensures
            final(output).wf(),
            final(output)@ == spec_transfer(self.latest_at(*label, index as int).unwrap(), *statement, old(output)@),
    {
        let ghost before = output@;
        match statement {
            lir::Statement::Jump(_) | lir::Statement::Label(_) => {
                assert(before.union(Set::empty()) =~= before);
            },
            lir::Statement::CJump { left, right, .. } => {
                anticipated_expressions::insert(output, left);
                anticipated_expressions::insert(output, right);
                assert(output@ =~= before.union(uses(*statement)));
            },
            lir::Statement::Call(function, arguments, _) => {
                anticipated_expressions::insert(output, function);
                anticipated_expressions::insert_all(output, arguments);
                assert(output@ =~= before.union(uses(*statement)));
            },
            lir::Statement::Move { destination, source } => {
                match destination {
                    lir::Expression::Memory(address) => anticipated_expressions::insert(output, address),
                    _ => {},
                }
                anticipated_expressions::insert(output, source);
                assert(output@ =~= before.union(uses(*statement)));
            },
            lir::Statement::Return(returned) => {
                anticipated_expressions::insert_all(output, returned);
            },
        }
        let block = match self.latest.get(label) {
            Some(block) => block,
            None => return,
        };
        assert((block@[index as int]).wf());
        remove_each(output, &block[index]);
    }

    /// The expressions used on some computed path out.
    pub fn merge(&self, outputs: &Vec<Option<&Data>>, input: &mut Data)
        requires
            old(input).wf(),
            forall|i: int| 0 <= i < outputs@.len() ==> (#[trigger] outputs@[i] matches Some(data) ==> data.wf()),
        ensures
            final(input).wf(),
            final(input)@ == spec_merge_all(anticipated_expressions::set_views(outputs@)),
    {
        input.clear();
        let mut index: usize = 0;
        while index < outputs.len()
            invariant
                input.wf(),
                index <= outputs@.len(),
                input@ == spec_merge_all(anticipated_expressions::set_views(outputs@).take(index as int)),
            decreases outputs@.len() - index,
        {
            let ghost views = anticipated_expressions::set_views(outputs@);
            assert(views.take(index + 1).drop_last() =~= views.take(index as int));
            match outputs[index] {
                Some(data) => input.extend(data),
                None => {},
            }
            index += 1;
        }
        assert(anticipated_expressions::set_views(outputs@).take(index as int) =~= anticipated_expressions::set_views(outputs@));
    }
}

} // verus!

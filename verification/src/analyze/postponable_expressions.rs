use vstd::prelude::*;

use crate::analyze::anticipated_expressions;
use crate::analyze::anticipated_expressions::AnticipatedExpressions;
use crate::analyze::anticipated_expressions::Data;
use crate::collections::KeyMap;
use crate::data::lir;
use crate::data::operand::Label;

verus! {

/// Forward analysis of the expressions whose computation can still be put off:
/// earliest placed on every path in, and not used since.
pub struct PostponableExpressions {
    /// The expressions earliest placed before each statement of each block.
    pub earliest: KeyMap<Label, Vec<Data>>,
}

/// `expression` and every expression inside it, by their views.
pub open spec fn nodes(expression: lir::Expression) -> Set<lir::Expression>
    decreases expression,
{
    match expression {
        lir::Expression::Immediate(_) | lir::Expression::Temporary(_) => set![expression@],
        lir::Expression::Memory(address) => nodes(*address).insert(expression@),
        lir::Expression::Binary(_, left, right) => nodes(*left).union(nodes(*right)).insert(expression@),
    }
}

pub open spec fn nodes_all(expressions: Seq<lir::Expression>) -> Set<lir::Expression>
    decreases expressions.len(),
{
    if expressions.len() == 0 {
        Set::empty()
    } else {
        nodes_all(expressions.drop_last()).union(nodes(expressions.last()))
    }
}

/// Expressions postponable after `statement`, given those postponable before
/// it and those earliest placed before it: what the statement uses stops being
/// postponable.
pub open spec fn spec_transfer<T>(
    earliest: Set<lir::Expression>,
    statement: lir::Statement<T>,
    postponable: Set<lir::Expression>,
) -> Set<lir::Expression> {
    let entering = postponable.union(earliest);
    match statement {
        lir::Statement::CJump { left, right, .. } => entering.difference(nodes(left)).difference(nodes(right)),
        lir::Statement::Call(function, arguments, _) => entering.difference(nodes(function)).difference(nodes_all(arguments@)),
        lir::Statement::Move { destination, source } => match destination {
            lir::Expression::Memory(address) => entering.difference(nodes(*address)).difference(nodes(source)),
            _ => entering.difference(nodes(source)),
        },
        lir::Statement::Return(returned) => entering.difference(nodes_all(returned@)),
        _ => entering,
    }
}

/// Remove `used` and every expression inside it.
pub fn remove(output: &mut Data, used: &lir::Expression)
    requires
        old(output).wf(),
    ensures
        final(output).wf(),
        final(output)@ == old(output)@.difference(nodes(*used)),
    decreases used,
{
    output.remove(used);
    match used {
        lir::Expression::Immediate(_) | lir::Expression::Temporary(_) => {},
        lir::Expression::Memory(address) => remove(output, address),
        lir::Expression::Binary(_, left, right) => {
            remove(output, left);
            remove(output, right);
        },
    }
    assert(output@ =~= old(output)@.difference(nodes(*used)));
}

fn remove_all(output: &mut Data, used: &Vec<lir::Expression>)
    requires
        old(output).wf(),
    ensures
        final(output).wf(),
        final(output)@ == old(output)@.difference(nodes_all(used@)),
{
    let ghost before = output@;
    let mut index: usize = 0;
    assert(before.difference(nodes_all(used@.take(0))) =~= before);
    while index < used.len()
        invariant
            output.wf(),
            index <= used@.len(),
            output@ == before.difference(nodes_all(used@.take(index as int))),
        decreases used@.len() - index,
    {
        let ghost prefix = used@.take(index + 1);
        assert(prefix.drop_last() =~= used@.take(index as int));
        assert(prefix.last() == used@[index as int]);
        remove(output, &used[index]);
        index += 1;
        assert(output@ =~= before.difference(nodes_all(used@.take(index as int))));
    }
    assert(used@.take(index as int) =~= used@);
}

impl PostponableExpressions {
    pub closed spec fn wf(self) -> bool {
        &&& self.earliest.wf()
        &&& forall|label: Label| #[trigger] self.earliest@.contains_key(label) ==> forall|i: int|
            0 <= i < self.earliest@[label]@.len() ==> (#[trigger] self.earliest@[label]@[i]).wf()
    }

    /// The expressions earliest placed before statement `index` of block `label`.
    pub closed spec fn earliest_at(self, label: Label, index: int) -> Option<Set<lir::Expression>> {
        if self.earliest@.contains_key(label) && 0 <= index < self.earliest@[label]@.len() {
            Some(self.earliest@[label]@[index]@)
        } else {
            None
        }
    }

    pub fn new(earliest: KeyMap<Label, Vec<Data>>) -> (analysis: Self)
        requires
            earliest.wf(),
            forall|label: Label| #[trigger] earliest@.contains_key(label) ==> forall|i: int|
                0 <= i < earliest@[label]@.len() ==> (#[trigger] earliest@[label]@[i]).wf(),
        ensures
            analysis.wf(),
            forall|label: Label, index: int| #[trigger] analysis.earliest_at(label, index) == if earliest@.contains_key(label)
                && 0 <= index < earliest@[label]@.len() {
                Some(earliest@[label]@[index]@)
            } else {
                None
            },
    {
        PostponableExpressions { earliest }
    }

    pub fn default(&self) -> (data: Data)
        ensures
            data.wf(),
            data@ == Set::<lir::Expression>::empty(),
    {
        crate::collections::KeySet::new()
    }

    pub fn transfer_with_metadata<T>(&self, label: &Label, index: usize, statement: &lir::Statement<T>, output: &mut Data)
        requires
            self.wf(),
            old(output).wf(),
            self.earliest_at(*label, index as int) is Some,
            anticipated_expressions::transferable(*statement),
        ensures
            final(output).wf(),
            final(output)@ == spec_transfer(self.earliest_at(*label, index as int).unwrap(), *statement, old(output)@),
    {
        let block = match self.earliest.get(label) {
            Some(block) => block,
            None => return,
        };
        assert((block@[index as int]).wf());
        output.extend(&block[index]);
        match statement {
            lir::Statement::Jump(_) | lir::Statement::Label(_) => {},
            lir::Statement::CJump { left, right, .. } => {
                remove(output, left);
                remove(output, right);
            },
            lir::Statement::Call(function, arguments, _) => {
                remove(output, function);
                remove_all(output, arguments);
            },
            lir::Statement::Move { destination, source } => {
                match destination {
                    lir::Expression::Memory(address) => remove(output, address),
                    _ => {},
                }
                remove(output, source);
            },
            lir::Statement::Return(returned) => remove_all(output, returned),
        }
    }

    /// The expressions postponable on every computed path in.
    pub fn merge(&self, outputs: &Vec<Option<&Data>>, input: &mut Data)
        requires
            old(input).wf(),
            forall|i: int| 0 <= i < outputs@.len() ==> (#[trigger] outputs@[i] matches Some(data) ==> data.wf()),
        ensures
            final(input).wf(),
            final(input)@ == if outputs@.len() == 0 {
                old(input)@
            } else {
                anticipated_expressions::spec_merge_all(anticipated_expressions::set_views(outputs@))
            },
    {
        AnticipatedExpressions.merge(outputs, input)
    }
}

} // verus!

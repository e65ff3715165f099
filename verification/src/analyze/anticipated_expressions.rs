use vstd::prelude::*;

use crate::collections::KeySet;
use crate::data::lir;
use crate::data::operand::Temporary;

verus! {

/// Backward analysis of the expressions computed on every path from a point
/// before any of their operands change.
pub struct AnticipatedExpressions;

pub type Data = KeySet<lir::Expression>;

/// The compound subexpressions of `expression` (memory reads and binary
/// operations), including itself, by their views.
pub open spec fn subexpressions(expression: lir::Expression) -> Set<lir::Expression>
    decreases expression,
{
    match expression {
        lir::Expression::Immediate(_) | lir::Expression::Temporary(_) => Set::empty(),
        lir::Expression::Memory(address) => subexpressions(*address).insert(expression@),
        lir::Expression::Binary(_, left, right) => subexpressions(*left).union(subexpressions(*right)).insert(expression@),
    }
}

pub open spec fn subexpressions_all(expressions: Seq<lir::Expression>) -> Set<lir::Expression>
    decreases expressions.len(),
{
    if expressions.len() == 0 {
        Set::empty()
    } else {
        subexpressions_all(expressions.drop_last()).union(subexpressions(expressions.last()))
    }
}

/// `expression` has the temporary `killed` among its operands.
pub open spec fn mentions(expression: lir::Expression, killed: lir::Expression) -> bool
    decreases expression,
{
    match expression {
        lir::Expression::Immediate(_) => false,
        lir::Expression::Temporary(_) => expression == killed,
        lir::Expression::Memory(address) => mentions(*address, killed),
        lir::Expression::Binary(_, left, right) => mentions(*left, killed) || mentions(*right, killed),
    }
}

/// The expressions that survive redefining `kill`: neither it nor any expression over it.
pub open spec fn kill(expressions: Set<lir::Expression>, kill: lir::Expression) -> Set<lir::Expression> {
    expressions.filter(|expression: lir::Expression| expression != kill@ && !mentions(expression, kill@))
}

pub open spec fn kill_all(expressions: Set<lir::Expression>, kills: Seq<Temporary>) -> Set<lir::Expression>
    decreases kills.len(),
{
    if kills.len() == 0 {
        expressions
    } else {
        kill(kill_all(expressions, kills.drop_last()), lir::Expression::Temporary(kills.last()))
    }
}

/// The statements the analysis is defined on: moves into a temporary or memory.
pub open spec fn transferable<T>(statement: lir::Statement<T>) -> bool {
    match statement {
        lir::Statement::Move { destination, .. } => destination is Temporary || destination is Memory,
        _ => true,
    }
}

/// Expressions anticipated before `statement`, given those anticipated after it.
pub open spec fn spec_transfer<T>(statement: lir::Statement<T>, anticipated: Set<lir::Expression>) -> Set<lir::Expression> {
    match statement {
        lir::Statement::CJump { left, right, .. } => anticipated.union(subexpressions(left)).union(subexpressions(right)),
        lir::Statement::Call(function, arguments, returned) => kill_all(anticipated, returned@).union(
            subexpressions(function),
        ).union(subexpressions_all(arguments@)),
        lir::Statement::Move { destination, source } => match destination {
            lir::Expression::Memory(address) => kill(anticipated, destination).union(subexpressions(*address)).union(
                subexpressions(source),
            ),
            _ => kill(anticipated, destination).union(subexpressions(source)),
        },
        lir::Statement::Return(returned) => anticipated.union(subexpressions_all(returned@)),
        _ => anticipated,
    }
}

/// The expressions anticipated after a block: those anticipated at every
/// computed successor (none known if the first successor is not computed yet).
pub open spec fn spec_merge_all(outputs: Seq<Option<Set<lir::Expression>>>) -> Set<lir::Expression>
    decreases outputs.len(),
{
    if outputs.len() <= 1 {
        match outputs.first() {
            Some(first) => first,
            None => Set::empty(),
        }
    } else {
        match outputs.last() {
            Some(last) => spec_merge_all(outputs.drop_last()).intersect(last),
            None => spec_merge_all(outputs.drop_last()),
        }
    }
}

pub open spec fn set_views(outputs: Seq<Option<&Data>>) -> Seq<Option<Set<lir::Expression>>> {
    outputs.map_values(|output: Option<&Data>| match output {
        Some(data) => Some(data@),
        None => None,
    })
}

/// Whether `expression` has the temporary `killed` among its operands.
pub fn contains(expression: &lir::Expression, killed: &lir::Expression) -> (found: bool)
    ensures
        found == mentions(expression@, killed@),
    decreases expression,
{
    match expression {
        lir::Expression::Immediate(_) => false,
        lir::Expression::Temporary(_) => expression.equals(killed),
        lir::Expression::Memory(address) => contains(address, killed),
        lir::Expression::Binary(_, left, right) => contains(left, killed) || contains(right, killed),
    }
}

/// Add the compound subexpressions of `used`.
pub fn insert(output: &mut Data, used: &lir::Expression)
    requires
        old(output).wf(),
    ensures
        final(output).wf(),
        final(output)@ == old(output)@.union(subexpressions(*used)),
    decreases used,
{
    match used {
        lir::Expression::Immediate(_) | lir::Expression::Temporary(_) => {
            assert(old(output)@.union(Set::empty()) =~= old(output)@);
        },
        lir::Expression::Memory(address) => {
            insert(output, address);
            output.insert(used.copy());
            assert(output@ =~= old(output)@.union(subexpressions(*used)));
        },
        lir::Expression::Binary(_, left, right) => {
            insert(output, left);
            insert(output, right);
            output.insert(used.copy());
            assert(output@ =~= old(output)@.union(subexpressions(*used)));
        },
    }
}

pub(crate) fn insert_all(output: &mut Data, used: &Vec<lir::Expression>)
    requires
        old(output).wf(),
    ensures
        final(output).wf(),
        final(output)@ == old(output)@.union(subexpressions_all(used@)),
{
    let ghost before = output@;
    let mut index: usize = 0;
    assert(before.union(subexpressions_all(used@.take(0))) =~= before);
    while index < used.len()
        invariant
            output.wf(),
            index <= used@.len(),
            output@ == before.union(subexpressions_all(used@.take(index as int))),
        decreases used@.len() - index,
    {
        let ghost prefix = used@.take(index + 1);
        assert(prefix.drop_last() =~= used@.take(index as int));
        assert(prefix.last() == used@[index as int]);
        insert(output, &used[index]);
        index += 1;
        assert(output@ =~= before.union(subexpressions_all(used@.take(index as int))));
    }
    assert(used@.take(index as int) =~= used@);
}

/// Remove `killed` and every expression over it.
fn remove_killed(output: &mut Data, killed: &lir::Expression)
    requires
        old(output).wf(),
    ensures
        final(output).wf(),
        final(output)@ == kill(old(output)@, *killed),
{
    let ghost before = output@;
    let mut kept: Data = KeySet::new();
    let mut index: usize = 0;
    proof {
        output.lemma_elements();
    }
    while index < output.len()
        invariant
            output.wf(),
            kept.wf(),
            before == output@,
            index <= output.size(),
            forall|i: int| 0 <= i < output.size() ==> output@.contains(#[trigger] output.element_at_spec(i)@),
            kept@ == before.filter(|expression: lir::Expression|
                (exists|j: int| 0 <= j < index && output.element_at_spec(j)@ == expression)
                && expression != killed@ && !mentions(expression, killed@)),
        decreases output.size() - index,
    {
        let element = output.at(index);
        let ghost previous = kept@;
        if !element.equals(killed) && !contains(element, killed) {
            kept.insert(element.copy());
        }
        index += 1;
        assert(kept@ =~= before.filter(|expression: lir::Expression|
            (exists|j: int| 0 <= j < index && output.element_at_spec(j)@ == expression)
            && expression != killed@ && !mentions(expression, killed@))) by {
            assert forall|e: lir::Expression| #[trigger] kept@.contains(e) implies before.contains(e)
                && (exists|j: int| 0 <= j < index && output.element_at_spec(j)@ == e)
                && e != killed@ && !mentions(e, killed@) by {
                if e != element@ {
                    assert(previous.contains(e));
                }
            }
            assert forall|e: lir::Expression| before.contains(e)
                && (exists|j: int| 0 <= j < index && output.element_at_spec(j)@ == e)
                && e != killed@ && !mentions(e, killed@) implies #[trigger] kept@.contains(e) by {
                let j = choose|j: int| 0 <= j < index && output.element_at_spec(j)@ == e;
                if j < index - 1 {
                    assert(previous.contains(e));
                }
            }
        }
    }
    proof {
        output.lemma_elements();
    }
    assert(kept@ =~= kill(before, *killed));
    *output = kept;
}

/// Keep the elements of `output` that `other` holds too.
fn retain_shared(output: &mut Data, other: &Data)
    requires
        old(output).wf(),
    ensures
        final(output).wf(),
        final(output)@ == old(output)@.intersect(other@),
{
    let ghost before = output@;
    let mut kept: Data = KeySet::new();
    let mut index: usize = 0;
    proof {
        output.lemma_elements();
    }
    while index < output.len()
        invariant
            output.wf(),
            kept.wf(),
            before == output@,
            index <= output.size(),
            forall|i: int| 0 <= i < output.size() ==> output@.contains(#[trigger] output.element_at_spec(i)@),
            kept@ == before.filter(|expression: lir::Expression|
                (exists|j: int| 0 <= j < index && output.element_at_spec(j)@ == expression) && other@.contains(expression)),
        decreases output.size() - index,
    {
        let element = output.at(index);
        let ghost previous = kept@;
        if other.contains(element) {
            kept.insert(element.copy());
        }
        index += 1;
        assert(kept@ =~= before.filter(|expression: lir::Expression|
            (exists|j: int| 0 <= j < index && output.element_at_spec(j)@ == expression) && other@.contains(expression))) by {
            assert forall|e: lir::Expression| #[trigger] kept@.contains(e) implies before.contains(e)
                && (exists|j: int| 0 <= j < index && output.element_at_spec(j)@ == e) && other@.contains(e) by {
                if e != element@ {
                    assert(previous.contains(e));
                }
            }
            assert forall|e: lir::Expression| before.contains(e)
                && (exists|j: int| 0 <= j < index && output.element_at_spec(j)@ == e) && other@.contains(e)
                implies #[trigger] kept@.contains(e) by {
                let j = choose|j: int| 0 <= j < index && output.element_at_spec(j)@ == e;
                if j < index - 1 {
                    assert(previous.contains(e));
                }
            }
        }
    }
    proof {
        output.lemma_elements();
    }
    assert(kept@ =~= before.intersect(other@));
    *output = kept;
}

impl AnticipatedExpressions {
    pub fn new() -> (analysis: Self) {
        AnticipatedExpressions
    }

    pub fn default(&self) -> (data: Data)
        ensures
            data.wf(),
            data@ == Set::<lir::Expression>::empty(),
    {
        KeySet::new()
    }

    pub fn transfer<T>(&self, statement: &lir::Statement<T>, output: &mut Data)
        requires
            old(output).wf(),
            transferable(*statement),
        ensures
            final(output).wf(),
            final(output)@ == spec_transfer(*statement, old(output)@),
    {
        let ghost before = output@;
        match statement {
            lir::Statement::Jump(_) | lir::Statement::Label(_) => {},
            lir::Statement::CJump { left, right, .. } => {
                insert(output, left);
                insert(output, right);
            },
            lir::Statement::Call(function, arguments, returned) => {
                let mut index: usize = 0;
                assert(returned@.take(0) =~= Seq::<Temporary>::empty());
                while index < returned.len()
                    invariant
                        output.wf(),
                        index <= returned@.len(),
                        output@ == kill_all(before, returned@.take(index as int)),
                    decreases returned@.len() - index,
                {
                    let ghost prefix = returned@.take(index + 1);
                    assert(prefix.drop_last() =~= returned@.take(index as int));
                    assert(prefix.last() == returned@[index as int]);
                    let killed = lir::Expression::Temporary(returned[index]);
                    remove_killed(output, &killed);
                    index += 1;
                }
                assert(returned@.take(index as int) =~= returned@);
                insert(output, function);
                insert_all(output, arguments);
            },
            lir::Statement::Move { destination, source } => {
                remove_killed(output, destination);
                match destination {
                    lir::Expression::Memory(address) => {
                        insert(output, address);
                    },
                    _ => {},
                }
                insert(output, source);
            },
            lir::Statement::Return(returned) => {
                insert_all(output, returned);
            },
        }
    }

    /// The expressions anticipated at every computed successor; with no
    /// successors, `input` is left as it is.
    pub fn merge(&self, outputs: &Vec<Option<&Data>>, input: &mut Data)
        requires
            old(input).wf(),
            forall|i: int| 0 <= i < outputs@.len() ==> (#[trigger] outputs@[i] matches Some(data) ==> data.wf()),
        ensures
            final(input).wf(),
            final(input)@ == if outputs@.len() == 0 {
                old(input)@
            } else {
                spec_merge_all(set_views(outputs@))
            },
    {
        if outputs.len() == 0 {
            return;
        }
        let ghost views = set_views(outputs@);
        let mut merged: Data = KeySet::new();
        match outputs[0] {
            Some(first) => merged.extend(first),
            None => {},
        }
        assert(views.take(1).first() == views[0]);
        assert(merged@ =~= spec_merge_all(views.take(1)));
        let mut index: usize = 1;
        while index < outputs.len()
            invariant
                1 <= index <= outputs@.len(),
                views == set_views(outputs@),
                forall|i: int| 0 <= i < outputs@.len() ==> (#[trigger] outputs@[i] matches Some(data) ==> data.wf()),
                merged.wf(),
                merged@ == spec_merge_all(views.take(index as int)),
            decreases outputs@.len() - index,
        {
            let ghost prefix = views.take(index + 1);
            assert(prefix.drop_last() =~= views.take(index as int));
            assert(prefix.last() == views[index as int]);
            match outputs[index] {
                Some(output) => retain_shared(&mut merged, output),
                None => {},
            }
            index += 1;
        }
        assert(views.take(index as int) =~= views);
        *input = merged;
    }
}

} // verus!

use vstd::prelude::*;

use crate::analyze::anticipated_expressions;
use crate::analyze::anticipated_expressions::AnticipatedExpressions;
use crate::analyze::anticipated_expressions::Data;
use crate::collections::KeyMap;
use crate::collections::KeySet;
use crate::data::lir;
use crate::data::operand::Label;
use crate::data::operand::Temporary;
use crate::data::symbol::Symbol;

verus! {

/// Forward analysis of the expressions already computed (or anticipated) on
/// every path to a point, with none of their operands changed since.
pub struct AvailableExpressions {
    /// The expressions anticipated before each statement of each block.
    pub anticipated: KeyMap<Label, Vec<Data>>,
    /// The symbol naming the placeholder temporary whose memory read stands for
    /// all of memory.
    pub clobber: Symbol,
}

/// `expression` has a memory read among its subexpressions.
pub open spec fn reads_memory(expression: lir::Expression) -> bool
    decreases expression,
{
    match expression {
        lir::Expression::Immediate(_) | lir::Expression::Temporary(_) => false,
        lir::Expression::Memory(_) => true,
        lir::Expression::Binary(_, left, right) => reads_memory(*left) || reads_memory(*right),
    }
}

/// Redefining `killed` changes `expression`: it reads the temporary `killed`,
/// or reads memory while `killed` is a memory location (any store may alias).
pub open spec fn touches(expression: lir::Expression, killed: lir::Expression) -> bool
    decreases expression,
{
    match expression {
        lir::Expression::Immediate(_) => false,
        lir::Expression::Temporary(_) => expression == killed,
        lir::Expression::Memory(address) => killed is Memory || touches(*address, killed),
        lir::Expression::Binary(_, left, right) => touches(*left, killed) || touches(*right, killed),
    }
}

/// The expressions that survive redefining `kill`: not `kill`, not touched by
/// it, and, once a memory read is lost, no expression reading memory.
pub open spec fn kill(expressions: Set<lir::Expression>, kill: lir::Expression) -> Set<lir::Expression> {
    let cascade = kill@ is Memory || exists|expression: lir::Expression|
        expressions.contains(expression) && touches(expression, kill@) && expression is Memory;
    expressions.filter(|expression: lir::Expression|
        expression != kill@ && !touches(expression, kill@) && !(cascade && reads_memory(expression)))
}

pub open spec fn kill_all(expressions: Set<lir::Expression>, kills: Seq<Temporary>) -> Set<lir::Expression>
    decreases kills.len(),
{
    if kills.len() == 0 {
        expressions
    } else {
        kill(kill_all(expressions, kills.drop_last()), lir::Expression::Temporary(kills.last()))
    }
}

/// The placeholder memory read that stands for all of memory.
pub open spec fn clobbered(clobber: Symbol) -> lir::Expression {
    lir::Expression::Memory(Box::new(lir::Expression::Temporary(Temporary::Fixed(clobber))))
}

pub fn touches_exec(expression: &lir::Expression, killed: &lir::Expression) -> (found: bool)
    ensures
        found == touches(expression@, killed@),
    decreases expression,
{
    match expression {
        lir::Expression::Immediate(_) => false,
        lir::Expression::Temporary(_) => expression.equals(killed),
        lir::Expression::Memory(address) => {
            let memory = match killed {
                lir::Expression::Memory(_) => true,
                _ => false,
            };
            memory || touches_exec(address, killed)
        },
        lir::Expression::Binary(_, left, right) => touches_exec(left, killed) || touches_exec(right, killed),
    }
}

fn reads_memory_exec(expression: &lir::Expression) -> (found: bool)
    ensures
        found == reads_memory(expression@),
    decreases expression,
{
    match expression {
        lir::Expression::Immediate(_) | lir::Expression::Temporary(_) => false,
        lir::Expression::Memory(_) => true,
        lir::Expression::Binary(_, left, right) => reads_memory_exec(left) || reads_memory_exec(right),
    }
}

/// Remove `killed` and the expressions it touches; `true` if a memory read was
/// among those touched.
fn remove_touched(output: &mut Data, killed: &lir::Expression) -> (memory: bool)
    requires
        old(output).wf(),
    ensures
        final(output).wf(),
        final(output)@ == old(output)@.filter(|expression: lir::Expression| expression != killed@ && !touches(expression, killed@)),
        memory == exists|expression: lir::Expression|
            old(output)@.contains(expression) && touches(expression, killed@) && expression is Memory,
{
    let ghost before = output@;
    let mut kept: Data = KeySet::new();
    let mut memory = false;
    let mut index: usize = 0;
    proof {
        output.lemma_elements();
    }
    while index < output.len()
        invariant
            output.wf(),
            kept.wf(),
            before == output@,
            index <= output.size(),
            forall|i: int| 0 <= i < output.size() ==> output@.contains(#[trigger] output.element_at_spec(i)@),
            kept@ == before.filter(|expression: lir::Expression|
                (exists|j: int| 0 <= j < index && output.element_at_spec(j)@ == expression)
                && expression != killed@ && !touches(expression, killed@)),
            memory == exists|j: int| 0 <= j < index && touches(#[trigger] output.element_at_spec(j)@, killed@)
                && output.element_at_spec(j)@ is Memory,
        decreases output.size() - index,
    {
        let element = output.at(index);
        let ghost previous = kept@;
        let touched = touches_exec(element, killed);
        if !element.equals(killed) && !touched {
            kept.insert(element.copy());
        }
        if touched {
            match element {
                lir::Expression::Memory(_) => {
                    memory = true;
                },
                _ => {},
            }
        }
        index += 1;
        assert(kept@ =~= before.filter(|expression: lir::Expression|
            (exists|j: int| 0 <= j < index && output.element_at_spec(j)@ == expression)
            && expression != killed@ && !touches(expression, killed@))) by {
            assert forall|e: lir::Expression| #[trigger] kept@.contains(e) implies before.contains(e)
                && (exists|j: int| 0 <= j < index && output.element_at_spec(j)@ == e)
                && e != killed@ && !touches(e, killed@) by {
                if e != element@ {
                    assert(previous.contains(e));
                }
            }
            assert forall|e: lir::Expression| before.contains(e)
                && (exists|j: int| 0 <= j < index && output.element_at_spec(j)@ == e)
                && e != killed@ && !touches(e, killed@) implies #[trigger] kept@.contains(e) by {
                let j = choose|j: int| 0 <= j < index && output.element_at_spec(j)@ == e;
                if j < index - 1 {
                    assert(previous.contains(e));
                }
            }
        }
        assert(memory == exists|j: int| 0 <= j < index && touches(#[trigger] output.element_at_spec(j)@, killed@)
            && output.element_at_spec(j)@ is Memory) by {
            if memory && !touched {
                let j = choose|j: int| 0 <= j < index - 1 && touches(#[trigger] output.element_at_spec(j)@, killed@)
                    && output.element_at_spec(j)@ is Memory;
                assert(0 <= j < index);
            }
            if touched && element@ is Memory {
                assert(touches(output.element_at_spec(index - 1)@, killed@));
            }
        }
    }
    proof {
        output.lemma_elements();
        if memory {
            let j = choose|j: int| 0 <= j < index && touches(#[trigger] output.element_at_spec(j)@, killed@)
                && output.element_at_spec(j)@ is Memory;
            assert(before.contains(output.element_at_spec(j)@));
        }
        if exists|expression: lir::Expression| before.contains(expression) && touches(expression, killed@) && expression is Memory {
            let e = choose|expression: lir::Expression| before.contains(expression) && touches(expression, killed@) && expression is Memory;
            let j = choose|j: int| 0 <= j < output.size() && #[trigger] output.element_at_spec(j)@ == e;
            assert(touches(output.element_at_spec(j)@, killed@));
        }
    }
    assert(kept@ =~= before.filter(|expression: lir::Expression| expression != killed@ && !touches(expression, killed@)));
    *output = kept;
    memory
}

/// Remove every expression that reads memory.
fn remove_memory_reads(output: &mut Data)
    requires
        old(output).wf(),
    ensures
        final(output).wf(),
        final(output)@ == old(output)@.filter(|expression: lir::Expression| !reads_memory(expression)),
{
    let ghost before = output@;
    let mut kept: Data = KeySet::new();
    let mut index: usize = 0;
    proof {
        output.lemma_elements();
    }
    while index < output.len()
        invariant
            output.wf(),
            kept.wf(),
            before == output@,
            index <= output.size(),
            forall|i: int| 0 <= i < output.size() ==> output@.contains(#[trigger] output.element_at_spec(i)@),
            kept@ == before.filter(|expression: lir::Expression|
                (exists|j: int| 0 <= j < index && output.element_at_spec(j)@ == expression) && !reads_memory(expression)),
        decreases output.size() - index,
    {
        let element = output.at(index);
        let ghost previous = kept@;
        if !reads_memory_exec(element) {
            kept.insert(element.copy());
        }
        index += 1;
        assert(kept@ =~= before.filter(|expression: lir::Expression|
            (exists|j: int| 0 <= j < index && output.element_at_spec(j)@ == expression) && !reads_memory(expression))) by {
            assert forall|e: lir::Expression| #[trigger] kept@.contains(e) implies before.contains(e)
                && (exists|j: int| 0 <= j < index && output.element_at_spec(j)@ == e) && !reads_memory(e) by {
                if e != element@ {
                    assert(previous.contains(e));
                }
            }
            assert forall|e: lir::Expression| before.contains(e)
                && (exists|j: int| 0 <= j < index && output.element_at_spec(j)@ == e) && !reads_memory(e)
                implies #[trigger] kept@.contains(e) by {
                let j = choose|j: int| 0 <= j < index && output.element_at_spec(j)@ == e;
                if j < index - 1 {
                    assert(previous.contains(e));
                }
            }
        }
    }
    proof {
        output.lemma_elements();
    }
    assert(kept@ =~= before.filter(|expression: lir::Expression| !reads_memory(expression)));
    *output = kept;
}

/// Remove `killed` and what it changes.
fn remove(output: &mut Data, killed: &lir::Expression)
    requires
        old(output).wf(),
    ensures
        final(output).wf(),
        final(output)@ == kill(old(output)@, *killed),
{
    let ghost before = output@;
    let memory = remove_touched(output, killed);
    let killed_memory = match killed {
        lir::Expression::Memory(_) => true,
        _ => false,
    };
    if killed_memory || memory {
        remove_memory_reads(output);
    }
    assert(output@ =~= kill(before, *killed));
}

/// Expressions available after `statement`, given those available before it
/// and those `anticipated` before it.
pub open spec fn spec_transfer<T>(
    clobber: Symbol,
    anticipated: Set<lir::Expression>,
    statement: lir::Statement<T>,
    available: Set<lir::Expression>,
) -> Set<lir::Expression> {
    let entering = available.union(anticipated);
    match statement {
        lir::Statement::Call(_, _, returned) => kill(kill_all(entering, returned@), clobbered(clobber)),
        lir::Statement::Move { destination, .. } => kill(entering, destination),
        _ => entering,
    }
}

impl AvailableExpressions {
    pub closed spec fn wf(self) -> bool {
        &&& self.anticipated.wf()
        &&& forall|label: Label| #[trigger] self.anticipated@.contains_key(label) ==> forall|i: int|
            0 <= i < self.anticipated@[label]@.len() ==> (#[trigger] self.anticipated@[label]@[i]).wf()
    }

    /// The expressions anticipated before statement `index` of block `label`.
    pub closed spec fn anticipated_at(self, label: Label, index: int) -> Option<Set<lir::Expression>> {
        if self.anticipated@.contains_key(label) && 0 <= index < self.anticipated@[label]@.len() {
            Some(self.anticipated@[label]@[index]@)
        } else {
            None
        }
    }

    pub fn new(anticipated: KeyMap<Label, Vec<Data>>, clobber: Symbol) -> (analysis: Self)
        requires
            anticipated.wf(),
            forall|label: Label| #[trigger] anticipated@.contains_key(label) ==> forall|i: int|
                0 <= i < anticipated@[label]@.len() ==> (#[trigger] anticipated@[label]@[i]).wf(),
        ensures
            analysis.wf(),
            forall|label: Label, index: int| #[trigger] analysis.anticipated_at(label, index) == if anticipated@.contains_key(label)
                && 0 <= index < anticipated@[label]@.len() {
                Some(anticipated@[label]@[index]@)
            } else {
                None
            },
            analysis.clobber == clobber,
    {
        AvailableExpressions { anticipated, clobber }
    }

    pub fn default(&self) -> (data: Data)
        ensures
            data.wf(),
            data@ == Set::<lir::Expression>::empty(),
    {
        KeySet::new()
    }

    pub fn transfer_with_metadata<T>(&self, label: &Label, index: usize, statement: &lir::Statement<T>, output: &mut Data)
        requires
            self.wf(),
            old(output).wf(),
            self.anticipated_at(*label, index as int) is Some,
        ensures
            final(output).wf(),
            final(output)@ == spec_transfer(
                self.clobber,
                self.anticipated_at(*label, index as int).unwrap(),
                *statement,
                old(output)@,
            ),
    {
        let block = match self.anticipated.get(label) {
            Some(block) => block,
            None => return,
        };
        assert((block@[index as int]).wf());
        output.extend(&block[index]);
        match statement {
            lir::Statement::Call(_, _, returned) => {
                let ghost entering = output@;
                let mut position: usize = 0;
                assert(returned@.take(0) =~= Seq::<Temporary>::empty());
                while position < returned.len()
                    invariant
                        output.wf(),
                        position <= returned@.len(),
                        output@ == kill_all(entering, returned@.take(position as int)),
                    decreases returned@.len() - position,
                {
                    let ghost prefix = returned@.take(position + 1);
                    assert(prefix.drop_last() =~= returned@.take(position as int));
                    assert(prefix.last() == returned@[position as int]);
                    let killed = lir::Expression::Temporary(returned[position]);
                    remove(output, &killed);
                    position += 1;
                }
                assert(returned@.take(position as int) =~= returned@);
                let memory = lir::Expression::Memory(Box::new(lir::Expression::Temporary(Temporary::Fixed(self.clobber))));
                assert(memory@ == clobbered(self.clobber)@);
                remove(output, &memory);
            },
            lir::Statement::Move { destination, .. } => {
                remove(output, destination);
            },
            _ => {},
        }
    }

    /// The expressions available on every computed path in.
    pub fn merge(&self, outputs: &Vec<Option<&Data>>, input: &mut Data)
        requires
            old(input).wf(),
            forall|i: int| 0 <= i < outputs@.len() ==> (#[trigger] outputs@[i] matches Some(data) ==> data.wf()),
        ensures
            final(input).wf(),
            final(input)@ == if outputs@.len() == 0 {
                old(input)@
            } else {
                anticipated_expressions::spec_merge_all(anticipated_expressions::set_views(outputs@))
            },
    {
        AnticipatedExpressions.merge(outputs, input)
    }
}

} // verus!

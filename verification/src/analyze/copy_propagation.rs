use vstd::prelude::*;

use crate::abi;
use crate::analyze::registers::register;
use crate::analyze::registers::registers_of;
use crate::analyze::registers::lemma_temporaries_of_concat;
use crate::analyze::registers::lemma_temporaries_of_push;
use crate::analyze::registers::temporaries_of;
use crate::collections::map_views;
use crate::collections::meet;
use crate::collections::meet_all;
use crate::collections::KeyMap;
use crate::data::assembly;
use crate::data::lir;
use crate::data::operand;
use crate::data::operand::Register;
use crate::data::operand::Temporary;

verus! {

/// Forward analysis mapping each temporary to the temporary it is a copy of.
pub struct CopyPropagation;

pub type Data = KeyMap<Temporary, Temporary>;

/// `key` is `kill`, or copies (through at most `steps` copies in `copies`) the value of `kill`.
pub open spec fn depends(copies: Map<Temporary, Temporary>, key: Temporary, kill: Temporary, steps: nat) -> bool
    decreases steps,
{
    if key == kill {
        true
    } else if steps == 0 {
        false
    } else {
        copies.contains_key(key) && depends(copies, copies[key]@, kill, (steps - 1) as nat)
    }
}

pub open spec fn dependent(copies: Map<Temporary, Temporary>, key: Temporary, kill: Temporary) -> bool {
    exists|steps: nat| depends(copies, key, kill, steps)
}

/// The copies that survive redefining `kill`: those that do not (transitively) copy it.
pub open spec fn spec_kill(copies: Map<Temporary, Temporary>, kill: Temporary) -> Map<Temporary, Temporary> {
    Map::new(
        |key: Temporary| copies.contains_key(key) && !dependent(copies, key, kill@),
        |key: Temporary| copies[key],
    )
}

/// Remove the entries whose value is `killed`, pushing their keys onto `stack`.
fn drop_copies_of(output: &mut Data, killed: &Temporary, stack: &mut Vec<Temporary>)
    requires
        old(output).wf(),
    ensures
        final(output).wf(),
        final(output)@ == Map::new(
            |key: Temporary| old(output)@.contains_key(key) && old(output)@[key]@ != killed@,
            |key: Temporary| old(output)@[key],
        ),
        final(stack)@.len() >= old(stack)@.len(),
        final(stack)@.take(old(stack)@.len() as int) == old(stack)@,
        temporaries_of(final(stack)@.skip(old(stack)@.len() as int)) == Set::new(
            |key: Temporary| old(output)@.contains_key(key) && old(output)@[key]@ == killed@,
        ),
        final(output).size() + final(stack)@.len() == old(output).size() + old(stack)@.len(),
{
    let ghost before = output@;
    let ghost original = stack@;
    let mut kept: Data = KeyMap::new();
    let mut index: usize = 0;
    assert(stack@.skip(original.len() as int) =~= Seq::<Temporary>::empty());
    assert(temporaries_of(Seq::<Temporary>::empty()) =~= Set::<Temporary>::empty());
    while index < output.len()
        invariant
            output.wf(),
            output@ == before,
            kept.wf(),
            index <= output.size(),
            stack@.len() >= original.len(),
            stack@.take(original.len() as int) == original,
            kept.size() + stack@.len() == index + original.len(),
            kept@ == Map::new(
                |key: Temporary| (exists|j: int| 0 <= j < index && output.key_at_spec(j)@ == key) && before[key]@ != killed@,
                |key: Temporary| before[key],
            ),
            temporaries_of(stack@.skip(original.len() as int)) == Set::new(
                |key: Temporary| (exists|j: int| 0 <= j < index && output.key_at_spec(j)@ == key) && before[key]@ == killed@,
            ),
        decreases output.size() - index,
    {
        proof {
            output.lemma_entries();
        }
        let key = *output.key_at(index);
        let value = *output.value_at(index);
        let ghost previous_kept = kept@;
        let ghost previous_stack = stack@;
        if value.same(killed) {
            stack.push(key);
        } else {
            assert(!kept@.contains_key(key@)) by {
                if kept@.contains_key(key@) {
                    let j = choose|j: int| 0 <= j < index && output.key_at_spec(j)@ == key@;
                    output.lemma_distinct(j, index as int);
                }
            }
            kept.insert(key, value);
        }
        index += 1;
        proof {
            assert(stack@.take(original.len() as int) =~= original);
            assert(before[key@] == value);
            let prefix = |k: Temporary| (exists|j: int| 0 <= j < index && output.key_at_spec(j)@ == k);
            let old_prefix = |k: Temporary| (exists|j: int| 0 <= j < index - 1 && output.key_at_spec(j)@ == k);
            assert forall|k: Temporary| #[trigger] prefix(k) <==> old_prefix(k) || k == key@ by {
                if prefix(k) {
                    let j = choose|j: int| 0 <= j < index && output.key_at_spec(j)@ == k;
                    if j < index - 1 {
                        assert(old_prefix(k));
                    }
                }
                if k == key@ {
                    assert(output.key_at_spec(index - 1)@ == k);
                }
            }
            assert(kept@ =~= Map::new(
                |k: Temporary| (exists|j: int| 0 <= j < index && output.key_at_spec(j)@ == k) && before[k]@ != killed@,
                |k: Temporary| before[k],
            ));
            let pushed = stack@.skip(original.len() as int);
            let old_pushed = previous_stack.skip(original.len() as int);
            if value@ == killed@ {
                assert(pushed =~= old_pushed.push(key));
                lemma_temporaries_of_push(old_pushed, key);
            } else {
                assert(pushed =~= old_pushed);
            }
            assert(temporaries_of(stack@.skip(original.len() as int)) =~= Set::new(
                |k: Temporary| (exists|j: int| 0 <= j < index && output.key_at_spec(j)@ == k) && before[k]@ == killed@,
            ));
        }
    }
    proof {
        output.lemma_entries();
        assert forall|k: Temporary| before.contains_key(k) implies (exists|j: int| 0 <= j < index && output.key_at_spec(j)@ == k) by {
        }
        assert(kept@ =~= Map::new(
            |key: Temporary| before.contains_key(key) && before[key]@ != killed@,
            |key: Temporary| before[key],
        ));
        assert(temporaries_of(stack@.skip(original.len() as int)) =~= Set::new(
            |key: Temporary| before.contains_key(key) && before[key]@ == killed@,
        ));
    }
    *output = kept;
}

proof fn lemma_depends_step(copies: Map<Temporary, Temporary>, key: Temporary, kill: Temporary, steps: nat)
    requires
        copies.contains_key(key),
        depends(copies, copies[key]@, kill, steps),
    ensures
        depends(copies, key, kill, steps + 1),
{
}

/// Keys left in `current` do not copy anything removed.
proof fn lemma_closed(copies: Map<Temporary, Temporary>, current: Map<Temporary, Temporary>, removed: Set<Temporary>, kill: Temporary, key: Temporary, steps: nat)
    requires
        removed.contains(kill),
        current == copies.remove_keys(removed),
        forall|k: Temporary| #[trigger] current.contains_key(k) ==> !removed.contains(current[k]@),
        current.contains_key(key),
    ensures
        !depends(copies, key, kill, steps),
    decreases steps,
{
    if steps > 0 {
        let next = copies[key]@;
        assert(current[key] == copies[key]);
        if copies.contains_key(next) && !removed.contains(next) {
            lemma_closed(copies, current, removed, kill, next, (steps - 1) as nat);
        } else {
            assert(next != kill);
            if steps - 1 > 0 {
                assert(!depends(copies, next, kill, (steps - 1) as nat));
            }
        }
    }
}

/// Remove the entry for `kill`, as well as all entries that recursively depend on it.
pub fn remove(output: &mut Data, kill: &Temporary)
    requires
        old(output).wf(),
    ensures
        final(output).wf(),
        final(output)@ == spec_kill(old(output)@, *kill),
{
    let ghost copies = output@;
    output.remove(kill);
    let mut stack: Vec<Temporary> = Vec::new();
    stack.push(*kill);
    let ghost mut removed: Set<Temporary> = set![kill@];
    proof {
        assert(depends(copies, kill@, kill@, 0));
        assert(output@ =~= copies.remove_keys(removed));
        assert(temporaries_of(stack@) =~= set![kill@]) by {
            assert(stack@.map_values(|t: Temporary| t@)[0] == kill@);
        }
    }
    while stack.len() > 0
        invariant
            output.wf(),
            removed.contains(kill@),
            output@ == copies.remove_keys(removed),
            forall|r: Temporary| #[trigger] removed.contains(r) ==> dependent(copies, r, kill@),
            temporaries_of(stack@).subset_of(removed),
            forall|k: Temporary| #[trigger] output@.contains_key(k) && removed.contains(output@[k]@) ==> temporaries_of(stack@).contains(output@[k]@),
        decreases output.size() * 2 + stack@.len(),
    {
        let ghost before_stack = stack@;
        let ghost before_output = output@;
        let killed = stack.pop().unwrap();
        let ghost rest = stack@;
        proof {
            assert(before_stack =~= rest.push(killed));
            assert(temporaries_of(before_stack).contains(killed@)) by {
                assert(before_stack.map_values(|t: Temporary| t@)[rest.len() as int] == killed@);
            }
            assert forall|t: Temporary| #[trigger] temporaries_of(rest).contains(t) implies temporaries_of(before_stack).contains(t) by {
                let j = rest.map_values(|t: Temporary| t@).index_of(t);
                assert(before_stack.map_values(|t: Temporary| t@)[j] == t);
            }
            assert forall|t: Temporary| #[trigger] temporaries_of(before_stack).contains(t) && t != killed@ implies temporaries_of(rest).contains(t) by {
                let j = before_stack.map_values(|t: Temporary| t@).index_of(t);
                if j == rest.len() {
                } else {
                    assert(rest.map_values(|t: Temporary| t@)[j] == t);
                }
            }
        }
        drop_copies_of(output, &killed, &mut stack);
        proof {
            let pushed = stack@.skip(rest.len() as int);
            let dropped = Set::new(|key: Temporary| before_output.contains_key(key) && before_output[key]@ == killed@);
            let new_removed = removed.union(dropped);
            assert forall|r: Temporary| #[trigger] new_removed.contains(r) implies dependent(copies, r, kill@) by {
                if dropped.contains(r) && !removed.contains(r) {
                    assert(removed.contains(killed@));
                    let steps = choose|steps: nat| depends(copies, killed@, kill@, steps);
                    assert(copies.contains_key(r) && copies[r] == before_output[r]);
                    lemma_depends_step(copies, r, kill@, steps);
                }
            }
            assert(output@ =~= copies.remove_keys(new_removed));
            assert(stack@ =~= rest + pushed);
            assert forall|t: Temporary| #[trigger] temporaries_of(stack@).contains(t) <==> temporaries_of(rest).contains(t) || temporaries_of(pushed).contains(t) by {
                if temporaries_of(stack@).contains(t) {
                    let j = stack@.map_values(|t: Temporary| t@).index_of(t);
                    if j < rest.len() {
                        assert(rest.map_values(|t: Temporary| t@)[j] == t);
                    } else {
                        assert(pushed.map_values(|t: Temporary| t@)[j - rest.len()] == t);
                    }
                }
                if temporaries_of(rest).contains(t) {
                    let j = rest.map_values(|t: Temporary| t@).index_of(t);
                    assert(stack@.map_values(|t: Temporary| t@)[j] == t);
                }
                if temporaries_of(pushed).contains(t) {
                    let j = pushed.map_values(|t: Temporary| t@).index_of(t);
                    assert(stack@.map_values(|t: Temporary| t@)[j + rest.len()] == t);
                }
            }
            assert(temporaries_of(stack@).subset_of(new_removed));
            assert forall|k: Temporary| #[trigger] output@.contains_key(k) && new_removed.contains(output@[k]@) implies temporaries_of(stack@).contains(output@[k]@) by {
                assert(before_output.contains_key(k) && before_output[k] == output@[k]);
                if removed.contains(output@[k]@) {
                    assert(temporaries_of(before_stack).contains(output@[k]@));
                    assert(output@[k]@ != killed@);
                }
            }
            removed = new_removed;
        }
    }
    proof {
        assert forall|k: Temporary| #[trigger] output@.contains_key(k) implies !dependent(copies, k, kill@) by {
            if dependent(copies, k, kill@) {
                let steps = choose|steps: nat| depends(copies, k, kill@, steps);
                lemma_closed(copies, output@, removed, kill@, k, steps);
            }
        }
        assert(output@ =~= spec_kill(copies, *kill));
    }
}

/// The copies that survive redefining each of `kills`, in order.
pub open spec fn spec_kill_all(copies: Map<Temporary, Temporary>, kills: Seq<Temporary>) -> Map<Temporary, Temporary>
    decreases kills.len(),
{
    if kills.len() == 0 {
        copies
    } else {
        spec_kill(spec_kill_all(copies, kills.drop_last()), kills.last())
    }
}

/// The temporaries naming `registers`.
pub open spec fn register_temporaries(registers: Seq<Register>) -> Seq<Temporary> {
    registers.map_values(|r: Register| Temporary::Register(r))
}

/// The registers a call with `returned` results clobbers: the caller-saved ones, then the result registers.
pub open spec fn spec_call_kills(returned: nat) -> (Seq<Temporary>, Seq<Temporary>) {
    (
        register_temporaries(abi::spec_caller_saved()),
        register_temporaries(abi::spec_return().take(if returned < 2 { returned as int } else { 2 })),
    )
}

/// Copies holding after an assembly statement, given those holding before it.
pub open spec fn spec_transfer(statement: assembly::Statement<Temporary>, copies: Map<Temporary, Temporary>) -> Map<Temporary, Temporary> {
    match statement {
        assembly::Statement::Binary(assembly::Binary::Mov, operands) => match operands {
            operand::Binary::RR { destination, source } => {
                let killed = spec_kill(copies, destination);
                match source {
                    Temporary::Register(r) if r.spec_is_callee_saved() => killed,
                    _ => killed.insert(destination@, source),
                }
            },
            operand::Binary::RI { destination, .. } => spec_kill(copies, destination),
            operand::Binary::RM { destination, .. } => spec_kill(copies, destination),
            _ => copies,
        },
        assembly::Statement::Binary(assembly::Binary::Cmp, _) => copies,
        assembly::Statement::Binary(_, operands) => match operands.spec_destination() {
            operand::Unary::R(temporary) => spec_kill(copies, temporary),
            _ => copies,
        },
        assembly::Statement::Unary(assembly::Unary::Hul, _)
        | assembly::Statement::Unary(assembly::Unary::Div, _)
        | assembly::Statement::Unary(assembly::Unary::Mod, _)
        | assembly::Statement::Nullary(assembly::Nullary::Cqo) => spec_kill(
            spec_kill(copies, Temporary::Register(Register::Rax)),
            Temporary::Register(Register::Rdx),
        ),
        assembly::Statement::Unary(assembly::Unary::Neg, operand::Unary::R(temporary)) => spec_kill(copies, temporary),
        assembly::Statement::Unary(assembly::Unary::Call { returned, .. }, _) => {
            let (callers, results) = spec_call_kills(returned as nat);
            spec_kill_all(spec_kill_all(copies, callers), results)
        },
        _ => copies,
    }
}

/// Copies holding after an IR statement, given those holding before it.
pub open spec fn spec_transfer_lir<T>(statement: lir::Statement<T>, copies: Map<Temporary, Temporary>) -> Map<Temporary, Temporary> {
    match statement {
        lir::Statement::Call(_, _, returned) => spec_kill_all(copies, returned@),
        lir::Statement::Move { destination: lir::Expression::Temporary(destination), source } => {
            let killed = spec_kill(copies, destination);
            match source {
                lir::Expression::Temporary(source) => killed.insert(destination@, source),
                _ => killed,
            }
        },
        _ => copies,
    }
}

/// Apply `remove` for each of `kills`, in order.
fn remove_each(output: &mut Data, kills: &Vec<Temporary>)
    requires
        old(output).wf(),
    ensures
        final(output).wf(),
        final(output)@ == spec_kill_all(old(output)@, kills@),
{
    let ghost before = output@;
    let mut index: usize = 0;
    assert(kills@.take(0) =~= Seq::<Temporary>::empty());
    while index < kills.len()
        invariant
            output.wf(),
            index <= kills@.len(),
            output@ == spec_kill_all(before, kills@.take(index as int)),
        decreases kills@.len() - index,
    {
        remove(output, &kills[index]);
        proof {
            let now = kills@.take(index + 1);
            assert(now.drop_last() =~= kills@.take(index as int));
            assert(now.last() == kills@[index as int]);
        }
        index += 1;
    }
    assert(kills@.take(kills@.len() as int) =~= kills@);
}

/// Apply `remove` for the first `count` of `registers`, in order.
fn remove_registers(output: &mut Data, registers: &Vec<Register>, count: usize)
    requires
        old(output).wf(),
        count <= registers@.len(),
    ensures
        final(output).wf(),
        final(output)@ == spec_kill_all(old(output)@, register_temporaries(registers@.take(count as int))),
{
    let ghost before = output@;
    let mut index: usize = 0;
    assert(register_temporaries(registers@.take(0)) =~= Seq::<Temporary>::empty());
    while index < count
        invariant
            output.wf(),
            index <= count <= registers@.len(),
            output@ == spec_kill_all(before, register_temporaries(registers@.take(index as int))),
        decreases count - index,
    {
        remove(output, &Temporary::Register(registers[index]));
        proof {
            let now = register_temporaries(registers@.take(index + 1));
            assert(now.drop_last() =~= register_temporaries(registers@.take(index as int)));
            assert(now.last() == Temporary::Register(registers@[index as int]));
        }
        index += 1;
    }
}

impl CopyPropagation {
    pub fn new() -> (analysis: Self) {
        CopyPropagation
    }

    /// No copies are known at the start of a block.
    pub fn default(&self) -> (data: Data)
        ensures
            data.wf(),
            data@ == Map::<Temporary, Temporary>::empty(),
    {
        KeyMap::new()
    }

    pub fn transfer(&self, statement: &assembly::Statement<Temporary>, output: &mut Data)
        requires
            old(output).wf(),
            match statement {
                assembly::Statement::Unary(assembly::Unary::Push, operand)
                | assembly::Statement::Unary(assembly::Unary::Pop, operand) => *operand == operand::Unary::<Temporary>::R(
                    Temporary::Register(Register::Rbp),
                ),
                _ => true,
            },
        ensures
            final(output).wf(),
            final(output)@ == spec_transfer(*statement, old(output)@),
    {
        match statement {
            assembly::Statement::Binary(assembly::Binary::Mov, operands) => match operands {
                operand::Binary::RR { destination, source } => {
                    remove(output, destination);
                    let reserved = match source {
                        Temporary::Register(r) => r.is_callee_saved(),
                        _ => false,
                    };
                    if !reserved {
                        output.insert(*destination, *source);
                    }
                },
                operand::Binary::RI { destination, .. } => remove(output, destination),
                operand::Binary::RM { destination, .. } => remove(output, destination),
                _ => {},
            },
            assembly::Statement::Binary(assembly::Binary::Cmp, _) => {},
            assembly::Statement::Binary(_, operands) => match operands.destination() {
                operand::Unary::R(temporary) => remove(output, &temporary),
                _ => {},
            },
            assembly::Statement::Unary(assembly::Unary::Hul, _)
            | assembly::Statement::Unary(assembly::Unary::Div, _)
            | assembly::Statement::Unary(assembly::Unary::Mod, _)
            | assembly::Statement::Nullary(assembly::Nullary::Cqo) => {
                remove(output, &Temporary::Register(Register::Rax));
                remove(output, &Temporary::Register(Register::Rdx));
            },
            assembly::Statement::Unary(assembly::Unary::Neg, operand::Unary::R(temporary)) => remove(output, temporary),
            assembly::Statement::Unary(assembly::Unary::Call { returned, .. }, _) => {
                let callers = abi::caller_saved();
                remove_registers(output, &callers, callers.len());
                let results = abi::return_registers();
                let count = if *returned < results.len() { *returned } else { results.len() };
                remove_registers(output, &results, count);
                assert(callers@.take(callers@.len() as int) =~= callers@);
            },
            _ => {},
        }
    }

    pub fn transfer_lir<T>(&self, statement: &lir::Statement<T>, output: &mut Data)
        requires
            old(output).wf(),
        ensures
            final(output).wf(),
            final(output)@ == spec_transfer_lir(*statement, old(output)@),
    {
        match statement {
            lir::Statement::Call(_, _, returned) => remove_each(output, returned),
            lir::Statement::Move { destination: lir::Expression::Temporary(destination), source } => {
                remove(output, destination);
                match source {
                    lir::Expression::Temporary(source) => output.insert(*destination, *source),
                    _ => {},
                }
            },
            _ => {},
        }
    }

    /// Meet of the predecessors' outputs: a copy survives only where every predecessor agrees on it.
    pub fn merge(&self, outputs: &Vec<Option<&Data>>, input: &mut Data)
        requires
            forall|i: int| 0 <= i < outputs@.len() ==> (#[trigger] outputs@[i] matches Some(data) ==> data.wf()),
        ensures
            final(input).wf(),
            final(input)@ == meet_all(map_views(outputs@)),
    {
        meet(outputs, input);
    }
}

/// Once `kill` is redefined, no surviving copy is `kill` itself or a copy of it.
pub proof fn lemma_kill_forgets(copies: Map<Temporary, Temporary>, kill: Temporary, key: Temporary)
    requires
        spec_kill(copies, kill).contains_key(key),
    ensures
        key != kill@,
        spec_kill(copies, kill)[key]@ != kill@,
{
    if key == kill@ {
        assert(depends(copies, key, kill@, 0));
    }
    if copies[key]@ == kill@ {
        assert(depends(copies, copies[key]@, kill@, 0));
        assert(depends(copies, key, kill@, 1));
    }
}

/// After `mov destination, source` from a temporary that is not a callee-saved
/// register, `destination` is known to be a copy of `source`.
pub proof fn lemma_move_records_copy(copies: Map<Temporary, Temporary>, destination: Temporary, source: Temporary)
    requires
        !(source matches Temporary::Register(register) && register.spec_is_callee_saved()),
    ensures
        spec_transfer(
            assembly::Statement::Binary(assembly::Binary::Mov, operand::Binary::RR { destination, source }),
            copies,
        )[destination@] == source,
{
}

} // verus!

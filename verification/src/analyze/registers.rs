use vstd::prelude::*;

use crate::collections::KeyMap;
use crate::collections::KeySet;
use crate::data::operand::Register;
use crate::data::operand::Temporary;

verus! {

/// The temporary naming `register`, by its view.
pub open spec fn register(register: Register) -> Temporary {
    Temporary::Register(register)@
}

/// The temporaries naming `registers`.
pub open spec fn registers_of(registers: Seq<Register>) -> Set<Temporary> {
    registers.map_values(|r: Register| register(r)).to_set()
}

proof fn lemma_registers_of_push(registers: Seq<Register>, last: Register)
    ensures
        registers_of(registers.push(last)) == registers_of(registers).insert(register(last)),
{
    let pushed = registers.push(last);
    assert(pushed.map_values(|r: Register| register(r)) =~= registers.map_values(|r: Register| register(r)).push(register(last)));
    assert(registers_of(pushed) =~= registers_of(registers).insert(register(last))) by {
        let mapped = registers.map_values(|r: Register| register(r));
        assert forall|t: Temporary| #[trigger] registers_of(registers).contains(t) implies registers_of(pushed).contains(t) by {
            let j = mapped.index_of(t);
            assert(pushed.map_values(|r: Register| register(r))[j] == t);
        }
        assert(pushed.map_values(|r: Register| register(r))[registers.len() as int] == register(last));
    }
}

/// Forget what is known of the first `count` of `registers`.
pub fn remove_registers<V>(output: &mut KeyMap<Temporary, V>, registers: &Vec<Register>, count: usize)
    requires
        old(output).wf(),
        count <= registers@.len(),
    ensures
        final(output).wf(),
        final(output)@ == old(output)@.remove_keys(registers_of(registers@.take(count as int))),
{
    let ghost before = output@;
    let mut index: usize = 0;
    assert(registers_of(registers@.take(0)) =~= Set::empty());
    assert(before.remove_keys(Set::empty()) =~= before);
    while index < count
        invariant
            output.wf(),
            count <= registers@.len(),
            index <= count,
            output@ == before.remove_keys(registers_of(registers@.take(index as int))),
        decreases count - index,
    {
        let ghost previous = registers@.take(index as int);
        output.remove(&Temporary::Register(registers[index]));
        proof {
            assert(registers@.take(index + 1) =~= previous.push(registers@[index as int]));
            lemma_registers_of_push(previous, registers@[index as int]);
        }
        index += 1;
        assert(output@ =~= before.remove_keys(registers_of(registers@.take(index as int))));
    }
}

/// Remove the first `count` of `registers` from a set of temporaries.
pub fn remove_register_set(output: &mut KeySet<Temporary>, registers: &Vec<Register>, count: usize)
    requires
        old(output).wf(),
        count <= registers@.len(),
    ensures
        final(output).wf(),
        final(output)@ == old(output)@.difference(registers_of(registers@.take(count as int))),
{
    let ghost before = output@;
    let mut index: usize = 0;
    assert(registers_of(registers@.take(0)) =~= Set::empty());
    assert(before.difference(Set::empty()) =~= before);
    while index < count
        invariant
            output.wf(),
            count <= registers@.len(),
            index <= count,
            output@ == before.difference(registers_of(registers@.take(index as int))),
        decreases count - index,
    {
        let ghost previous = registers@.take(index as int);
        output.remove(&Temporary::Register(registers[index]));
        proof {
            assert(registers@.take(index + 1) =~= previous.push(registers@[index as int]));
            lemma_registers_of_push(previous, registers@[index as int]);
        }
        index += 1;
        assert(output@ =~= before.difference(registers_of(registers@.take(index as int))));
    }
}

/// Add the first `count` of `registers` to a set of temporaries.
pub fn insert_register_set(output: &mut KeySet<Temporary>, registers: &Vec<Register>, count: usize)
    requires
        old(output).wf(),
        count <= registers@.len(),
    ensures
        final(output).wf(),
        final(output)@ == old(output)@.union(registers_of(registers@.take(count as int))),
{
    let ghost before = output@;
    let mut index: usize = 0;
    assert(registers_of(registers@.take(0)) =~= Set::empty());
    assert(before.union(Set::empty()) =~= before);
    while index < count
        invariant
            output.wf(),
            count <= registers@.len(),
            index <= count,
            output@ == before.union(registers_of(registers@.take(index as int))),
        decreases count - index,
    {
        let ghost previous = registers@.take(index as int);
        output.insert(Temporary::Register(registers[index]));
        proof {
            assert(registers@.take(index + 1) =~= previous.push(registers@[index as int]));
            lemma_registers_of_push(previous, registers@[index as int]);
        }
        index += 1;
        assert(output@ =~= before.union(registers_of(registers@.take(index as int))));
    }
}

/// The views of `temporaries`.
pub open spec fn temporaries_of(temporaries: Seq<Temporary>) -> Set<Temporary> {
    temporaries.map_values(|t: Temporary| t@).to_set()
}

pub proof fn lemma_temporaries_of_push(temporaries: Seq<Temporary>, last: Temporary)
    ensures
        temporaries_of(temporaries.push(last)) == temporaries_of(temporaries).insert(last@),
{
    let before = temporaries.map_values(|t: Temporary| t@);
    let after = temporaries.push(last).map_values(|t: Temporary| t@);
    assert(after =~= before.push(last@));
    assert forall|t: Temporary| #[trigger] temporaries_of(temporaries.push(last)).contains(t) <==> temporaries_of(temporaries).insert(last@).contains(t) by {
        if after.contains(t) {
            let j = after.index_of(t);
            if j < before.len() {
                assert(before[j] == t);
            }
        }
        if before.contains(t) {
            let j = before.index_of(t);
            assert(after[j] == t);
        }
        if t == last@ {
            assert(after[before.len() as int] == t);
        }
    }
    assert(temporaries_of(temporaries.push(last)) =~= temporaries_of(temporaries).insert(last@));
}

pub proof fn lemma_temporaries_of_concat(front: Seq<Temporary>, back: Seq<Temporary>)
    ensures
        temporaries_of(front + back) == temporaries_of(front).union(temporaries_of(back)),
    decreases back.len(),
{
    if back.len() == 0 {
        assert(front + back =~= front);
        assert(temporaries_of(back) =~= Set::empty()) by {
            assert(back.map_values(|t: Temporary| t@) =~= Seq::empty());
        }
        assert(temporaries_of(front).union(Set::empty()) =~= temporaries_of(front));
    } else {
        let shorter = back.drop_last();
        lemma_temporaries_of_concat(front, shorter);
        assert(front + back =~= (front + shorter).push(back.last()));
        assert(back =~= shorter.push(back.last()));
        lemma_temporaries_of_push(front + shorter, back.last());
        lemma_temporaries_of_push(shorter, back.last());
        assert(temporaries_of(front + back) =~= temporaries_of(front).union(temporaries_of(back)));
    }
}

/// Add every temporary of `temporaries` to `output`.
pub fn insert_all(output: &mut KeySet<Temporary>, temporaries: &Vec<Temporary>)
    requires
        old(output).wf(),
    ensures
        final(output).wf(),
        final(output)@ == old(output)@.union(temporaries_of(temporaries@)),
{
    let ghost before = output@;
    let mut index: usize = 0;
    assert(temporaries_of(temporaries@.take(0)) =~= Set::empty());
    assert(before.union(Set::empty()) =~= before);
    while index < temporaries.len()
        invariant
            output.wf(),
            index <= temporaries@.len(),
            output@ == before.union(temporaries_of(temporaries@.take(index as int))),
        decreases temporaries@.len() - index,
    {
        let ghost previous = temporaries@.take(index as int);
        let ghost current = temporaries@[index as int];
        output.insert(temporaries[index]);
        index += 1;
        assert(output@ =~= before.union(temporaries_of(temporaries@.take(index as int)))) by {
            let now = temporaries@.take(index as int);
            assert(now =~= previous.push(current));
            assert(now.map_values(|t: Temporary| t@) =~= previous.map_values(|t: Temporary| t@).push(current@));
            assert forall|t: Temporary| #[trigger] temporaries_of(previous).contains(t) implies temporaries_of(now).contains(t) by {
                let j = previous.map_values(|t: Temporary| t@).index_of(t);
                assert(now.map_values(|t: Temporary| t@)[j] == t);
            }
            assert(now.map_values(|t: Temporary| t@)[index - 1] == current@);
        }
    }
    assert(temporaries@.take(temporaries@.len() as int) =~= temporaries@);
}

} // verus!

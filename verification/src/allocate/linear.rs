use vstd::prelude::*;

use crate::analyze::live_ranges::Clobbered;
use crate::analyze::live_ranges::LiveRanges;
use crate::analyze::live_ranges::Range;
use crate::collections::KeyMap;
use crate::data::operand::Register;
use crate::data::operand::Temporary;

verus! {

/// Whether `clobbered` includes `register`.
pub open spec fn clobbers(clobbered: Clobbered, register: Register) -> bool {
    exists|i: int| 0 <= i < clobbered.registers().len() && #[trigger] clobbered.registers()[i]@ == register@
}

/// The registers by their views.
pub open spec fn register_views(registers: Seq<Register>) -> Seq<Register> {
    registers.map_values(|register: Register| register@)
}

/// Whether two live ranges share a statement.
pub open spec fn overlap(a: Range, b: Range) -> bool {
    !(a.end < b.start || b.end < a.start)
}

/// What a linear scan allocation promises of its result, for the live ranges
/// `ranges` and the available `registers`: every temporary is either given a
/// register or a stack slot, the slots are numbered densely from zero, a
/// register temporary keeps its own register, every other one gets an
/// available register that is not clobbered while it is live, and temporaries
/// that are live at once never share a register.
pub open spec fn allocation(
    ranges: Map<Temporary, Range>,
    registers: Seq<Register>,
    allocated: Map<Temporary, Register>,
    spilled: Map<Temporary, usize>,
) -> bool {
    &&& forall|t: Temporary| #[trigger] ranges.contains_key(t) <==> (allocated.contains_key(t) || spilled.contains_key(t))
    &&& forall|t: Temporary| !(#[trigger] allocated.contains_key(t) && spilled.contains_key(t))
    &&& forall|t: Temporary| #[trigger] spilled.contains_key(t) ==> spilled[t] < spilled.len()
    &&& forall|t: Temporary, u: Temporary|
        #[trigger] spilled.contains_key(t) && #[trigger] spilled.contains_key(u) && t != u ==> spilled[t] != spilled[u]
    &&& forall|t: Temporary| #[trigger] allocated.contains_key(t) ==> register_views(registers).contains(allocated[t]@)
    &&& forall|register: Register|
        #[trigger] allocated.contains_key(Temporary::Register(register)) ==> allocated[Temporary::Register(register)]@ == register@
    &&& forall|t: Temporary|
        #[trigger] allocated.contains_key(t) && !(t is Register) ==> !clobbers(ranges[t].clobbered, allocated[t])
    &&& forall|t: Temporary, u: Temporary|
        #[trigger] allocated.contains_key(t) && #[trigger] allocated.contains_key(u) && t != u && allocated[t]@ == allocated[u]@
            ==> !overlap(ranges[t], ranges[u])
}

fn clobbered_contains(clobbered: &Clobbered, register: &Register) -> (contains: bool)
    ensures
        contains == clobbers(*clobbered, *register),
{
    let registers = clobbered.as_slice();
    let mut index: usize = 0;
    while index < registers.len()
        invariant
            registers@ == clobbered.registers(),
            index <= registers@.len(),
            forall|j: int| 0 <= j < index ==> registers@[j]@ != register@,
        decreases registers@.len() - index,
    {
        if registers[index].same(register) {
            assert(registers@[index as int]@ == register@);
            return true;
        }
        index += 1;
    }
    false
}

fn clobbered_rank(clobbered: &Clobbered) -> u8 {
    match clobbered {
        Clobbered::Caller => 0,
        Clobbered::RaxRdx => 1,
        Clobbered::Rax => 2,
        Clobbered::Rdx => 3,
        Clobbered::Nothing => 4,
    }
}

fn temporary_rank(temporary: &Temporary) -> (u8, usize, usize) {
    match temporary {
        Temporary::Register(register) => (0, register.number() as usize, 0),
        Temporary::Fixed(symbol) => (1, symbol.0, 0),
        Temporary::Fresh(symbol, index) => (2, symbol.0, *index),
    }
}

/// The order of temporaries: registers by number, then named, then fresh ones.
fn temporary_less(a: &Temporary, b: &Temporary) -> bool {
    let (a0, a1, a2) = temporary_rank(a);
    let (b0, b1, b2) = temporary_rank(b);
    a0 < b0 || (a0 == b0 && (a1 < b1 || (a1 == b1 && a2 < b2)))
}

/// The order in which ranges are scanned: by start, then end, clobbered
/// registers and temporary.
fn range_less(a: &Range, a_temporary: &Temporary, b: &Range, b_temporary: &Temporary) -> (less: bool)
    ensures
        a.start < b.start ==> less,
        less ==> a.start <= b.start,
{
    if a.start != b.start {
        return a.start < b.start;
    }
    if a.end != b.end {
        return a.end < b.end;
    }
    let a_rank = clobbered_rank(&a.clobbered);
    let b_rank = clobbered_rank(&b.clobbered);
    if a_rank != b_rank {
        return a_rank < b_rank;
    }
    temporary_less(a_temporary, b_temporary)
}

/// The order of active temporaries: by end, then temporary.
fn active_less(a: &(usize, Temporary), b: &(usize, Temporary)) -> bool {
    a.0 < b.0 || (a.0 == b.0 && temporary_less(&a.1, &b.1))
}

/// Linear scan over live ranges in order of their start: a range takes a free
/// register, or the register of the active range that ends last (when that
/// one ends later), or a stack slot. Register temporaries take their own
/// register, spilling the temporary that holds it.
struct Linear {
    /// The temporaries holding a register, by decreasing end.
    active: Vec<(usize, Temporary)>,
    allocated: KeyMap<Temporary, Register>,
    spilled: KeyMap<Temporary, usize>,
    /// Free registers.
    registers: Vec<Register>,
    ranges: Ghost<Map<Temporary, Range>>,
    initial: Ghost<Seq<Register>>,
    current: Ghost<int>,
}

impl Linear {
    spec fn held(self, j: int) -> Register {
        self.allocated@[self.active@[j].1@]
    }

    spec fn inactive(self, t: Temporary) -> bool {
        forall|j: int| 0 <= j < self.active@.len() ==> #[trigger] self.active@[j].1@ != t
    }

    spec fn free(self, x: Register) -> bool {
        exists|i: int| 0 <= i < self.registers@.len() && #[trigger] self.registers@[i]@ == x
    }

    spec fn taken(self, x: Register) -> bool {
        exists|j: int| 0 <= j < self.active@.len() && #[trigger] self.held(j)@ == x
    }

    /// Every available register is free or held by an active temporary.
    spec fn inv(self) -> bool {
        &&& self.consistent()
        &&& forall|x: Register| #[trigger] self.initial@.contains(x) ==> self.free(x) || self.taken(x)
    }

    /// The invariant, with `x` released: neither free nor held.
    spec fn released(self, x: Register) -> bool {
        &&& self.consistent()
        &&& forall|y: Register| #[trigger] self.initial@.contains(y) && y != x ==> self.free(y) || self.taken(y)
        &&& !self.free(x)
        &&& !self.taken(x)
    }

    spec fn consistent(self) -> bool {
        let ranges = self.ranges@;
        let allocated = self.allocated@;
        let spilled = self.spilled@;
        let active = self.active@;
        let pool = self.registers@;
        &&& self.allocated.wf()
        &&& self.spilled.wf()
        &&& forall|t: Temporary| #[trigger] allocated.contains_key(t) ==> ranges.contains_key(t) && !spilled.contains_key(t)
            && ranges[t].start <= self.current@
        &&& forall|t: Temporary| #[trigger] spilled.contains_key(t) ==> ranges.contains_key(t) && ranges[t].start <= self.current@
        &&& forall|t: Temporary| #[trigger] spilled.contains_key(t) ==> spilled[t] < self.spilled.size()
        &&& forall|t: Temporary, u: Temporary|
            #[trigger] spilled.contains_key(t) && #[trigger] spilled.contains_key(u) && t != u ==> spilled[t] != spilled[u]
        &&& forall|j: int| 0 <= j < active.len() ==> #[trigger] allocated.contains_key(active[j].1@) && active[j].0 == ranges[active[j].1@].end
        &&& forall|i: int, j: int|
            0 <= i < active.len() && 0 <= j < active.len() && i != j ==> #[trigger] self.held(i)@ != #[trigger] self.held(j)@
        &&& forall|i: int, j: int| 0 <= i < pool.len() && 0 <= j < pool.len() && i != j ==> #[trigger] pool[i]@ != #[trigger] pool[j]@
        &&& forall|i: int, j: int| 0 <= i < pool.len() && 0 <= j < active.len() ==> #[trigger] pool[i]@ != #[trigger] self.held(j)@
        &&& forall|i: int| 0 <= i < pool.len() ==> self.initial@.contains(#[trigger] pool[i]@)
        &&& forall|t: Temporary| #[trigger] allocated.contains_key(t) ==> self.initial@.contains(allocated[t]@)
        &&& forall|register: Register|
            #[trigger] allocated.contains_key(Temporary::Register(register)) ==> allocated[Temporary::Register(register)]@ == register@
        &&& forall|t: Temporary|
            #[trigger] allocated.contains_key(t) && !(t is Register) ==> !clobbers(ranges[t].clobbered, allocated[t])
        &&& forall|t: Temporary, u: Temporary|
            #[trigger] allocated.contains_key(t) && #[trigger] allocated.contains_key(u) && t != u && allocated[t]@ == allocated[u]@
                ==> !overlap(ranges[t], ranges[u])
        &&& forall|t: Temporary| #[trigger] allocated.contains_key(t) && self.inactive(t) ==> ranges[t].end < self.current@
    }
}


/// Insert `entry` before the first active entry that it does not follow.
fn insert_active(active: &mut Vec<(usize, Temporary)>, entry: (usize, Temporary)) -> (position: usize)
    ensures
        position <= old(active)@.len(),
        final(active)@ == old(active)@.insert(position as int, entry),
{
    let mut position: usize = 0;
    while position < active.len()
        invariant
            position <= active@.len(),
        decreases active@.len() - position,
    {
        if active_less(&active[position], &entry) {
            break;
        }
        position += 1;
    }
    active.insert(position, entry);
    position
}

/// The position of `register` among `registers`.
fn find_register(registers: &Vec<Register>, register: &Register) -> (found: Option<usize>)
    ensures
        found matches Some(index) ==> index < registers@.len() && registers@[index as int]@ == register@,
        found is None ==> forall|i: int| 0 <= i < registers@.len() ==> #[trigger] registers@[i]@ != register@,
{
    let mut index: usize = 0;
    while index < registers.len()
        invariant
            index <= registers@.len(),
            forall|i: int| 0 <= i < index ==> #[trigger] registers@[i]@ != register@,
        decreases registers@.len() - index,
    {
        if registers[index].same(register) {
            return Some(index);
        }
        index += 1;
    }
    None
}

/// The last of `registers` that `clobbered` leaves alone.
fn last_unclobbered(registers: &Vec<Register>, clobbered: &Clobbered) -> (found: Option<usize>)
    ensures
        found matches Some(index) ==> index < registers@.len() && !clobbers(*clobbered, registers@[index as int]),
{
    let mut index: usize = registers.len();
    while index > 0
        invariant
            index <= registers@.len(),
        decreases index,
    {
        index -= 1;
        if !clobbered_contains(clobbered, &registers[index]) {
            return Some(index);
        }
    }
    None
}

impl Linear {
    /// The position of the active temporary holding `register`.
    fn find_holder(&self, register: &Register) -> (found: Option<usize>)
        requires
            self.inv(),
        ensures
            found matches Some(j) ==> j < self.active@.len() && self.held(j as int)@ == register@,
            found is None ==> forall|j: int| 0 <= j < self.active@.len() ==> #[trigger] self.held(j)@ != register@,
    {
        let mut index: usize = 0;
        while index < self.active.len()
            invariant
                self.inv(),
                index <= self.active@.len(),
                forall|j: int| 0 <= j < index ==> #[trigger] self.held(j)@ != register@,
            decreases self.active@.len() - index,
        {
            let holder = self.active[index].1;
            assert(self.allocated@.contains_key(self.active@[index as int].1@));
            let held = match self.allocated.get(&holder) {
                Some(held) => *held,
                None => return None,
            };
            if held.same(register) {
                return Some(index);
            }
            index += 1;
        }
        None
    }

    /// The first active temporary (so the one ending last) that is not a
    /// register and whose register `clobbered` leaves alone.
    fn steal_candidate(&self, clobbered: &Clobbered) -> (found: Option<usize>)
        requires
            self.inv(),
        ensures
            found matches Some(j) ==> j < self.active@.len() && !clobbers(*clobbered, self.held(j as int)) && !(
            self.active@[j as int].1 is Register),
    {
        let mut index: usize = 0;
        while index < self.active.len()
            invariant
                self.inv(),
                index <= self.active@.len(),
            decreases self.active@.len() - index,
        {
            let holder = self.active[index].1;
            assert(self.allocated@.contains_key(self.active@[index as int].1@));
            let held = match self.allocated.get(&holder) {
                Some(held) => *held,
                None => return None,
            };
            if !clobbered_contains(clobbered, &held) {
                match holder {
                    Temporary::Register(_) => {},
                    _ => return Some(index),
                }
            }
            index += 1;
        }
        None
    }

    /// Move `temporary` to the next stack slot.
    fn spill(&mut self, temporary: Temporary)
        requires
            old(self).allocated.wf(),
            old(self).spilled.wf(),
            !old(self).spilled@.contains_key(temporary@),
        ensures
            final(self).allocated.wf(),
            final(self).spilled.wf(),
            final(self).allocated@ == old(self).allocated@.remove(temporary@),
            final(self).spilled@ == old(self).spilled@.insert(temporary@, old(self).spilled.size() as usize),
            final(self).spilled.size() == old(self).spilled.size() + 1,
            final(self).active == old(self).active,
            final(self).registers == old(self).registers,
            final(self).ranges == old(self).ranges,
            final(self).initial == old(self).initial,
            final(self).current == old(self).current,
    {
        let index = self.spilled.len();
        self.allocated.remove(&temporary);
        self.spilled.insert(temporary, index);
    }
}


impl Linear {
    /// Free the registers of the active temporaries, from the one ending
    /// first, whose ranges end before `start`.
    fn expire(&mut self, start: usize)
        requires
            old(self).inv(),
            old(self).current@ == start,
        ensures
            final(self).inv(),
            final(self).allocated@ == old(self).allocated@,
            final(self).spilled@ == old(self).spilled@,
            final(self).spilled.size() == old(self).spilled.size(),
            final(self).ranges == old(self).ranges,
            final(self).initial == old(self).initial,
            final(self).current == old(self).current,
    {
        while self.active.len() > 0
            invariant
                self.inv(),
                self.current@ == start,
                self.current == old(self).current,
                self.allocated@ == old(self).allocated@,
                self.spilled@ == old(self).spilled@,
                self.spilled.size() == old(self).spilled.size(),
                self.ranges == old(self).ranges,
                self.initial == old(self).initial,
            decreases self.active@.len(),
        {
            let last = self.active.len() - 1;
            let (end, temporary) = self.active[last];
            if end >= start {
                return;
            }
            assert(self.allocated@.contains_key(temporary@));
            let register = match self.allocated.get(&temporary) {
                Some(register) => *register,
                None => return,
            };
            let ghost before = *self;
            self.registers.push(register);
            self.active.pop();
            proof {
                let n = before.active@.len() - 1;
                assert(register@ == before.held(n)@);
                assert forall|j: int| 0 <= j < self.active@.len() implies #[trigger] self.held(j) == before.held(j) by {
                    assert(self.active@[j] == before.active@[j]);
                }
                assert forall|k: int| 0 <= k < self.active@.len() implies #[trigger] self.allocated@.contains_key(self.active@[k].1@)
                    && self.active@[k].0 == self.ranges@[self.active@[k].1@].end by {
                    assert(self.active@[k] == before.active@[k]);
                    assert(before.allocated@.contains_key(before.active@[k].1@));
                }
                assert forall|i: int, j: int| 0 <= i < self.registers@.len() && 0 <= j < self.active@.len() implies
                    #[trigger] self.registers@[i]@ != #[trigger] self.held(j)@ by {
                    assert(self.held(j) == before.held(j));
                    if i < before.registers@.len() {
                        assert(self.registers@[i] == before.registers@[i]);
                    }
                }
                assert forall|i: int, j: int| 0 <= i < self.registers@.len() && 0 <= j < self.registers@.len() && i != j implies
                    #[trigger] self.registers@[i]@ != #[trigger] self.registers@[j]@ by {
                    if i < before.registers@.len() {
                        assert(self.registers@[i] == before.registers@[i]);
                    }
                    if j < before.registers@.len() {
                        assert(self.registers@[j] == before.registers@[j]);
                    }
                }
                assert forall|x: Register| #[trigger] self.initial@.contains(x) implies self.free(x) || self.taken(x) by {
                    if before.free(x) {
                        let i = choose|i: int| 0 <= i < before.registers@.len() && #[trigger] before.registers@[i]@ == x;
                        assert(self.registers@[i] == before.registers@[i]);
                    } else {
                        let j = choose|j: int| 0 <= j < before.active@.len() && #[trigger] before.held(j)@ == x;
                        if j == n {
                            assert(self.registers@[before.registers@.len() as int] == register);
                        } else {
                            assert(self.held(j) == before.held(j));
                        }
                    }
                }
                assert forall|i: int| 0 <= i < self.registers@.len() implies self.initial@.contains(#[trigger] self.registers@[i]@) by {
                    if i < before.registers@.len() {
                        assert(self.registers@[i] == before.registers@[i]);
                    }
                }
                assert forall|t: Temporary| #[trigger] self.allocated@.contains_key(t) && self.inactive(t) implies self.ranges@[t].end
                    < self.current@ by {
                    if t != temporary@ {
                        assert forall|j: int| 0 <= j < before.active@.len() implies #[trigger] before.active@[j].1@ != t by {
                            if j < n {
                                assert(self.active@[j] == before.active@[j]);
                            }
                        }
                    }
                }
                assert(self.consistent());
            }
        }
    }
}


/// Taking register `x` out of the free pool releases it.
proof fn lemma_release_free(before: Linear, mid: Linear, i: int, x: Register)
    requires
        before.inv(),
        0 <= i < before.registers@.len(),
        before.registers@[i]@ == x,
        mid.registers@ == before.registers@.remove(i),
        mid.active == before.active,
        mid.allocated == before.allocated,
        mid.spilled == before.spilled,
        mid.ranges == before.ranges,
        mid.initial == before.initial,
        mid.current == before.current,
    ensures
        mid.released(x),
{
    let pool = before.registers@;
    assert forall|k: int| 0 <= k < mid.registers@.len() implies #[trigger] mid.registers@[k] == pool[if k < i { k } else { k + 1 }] by {}
    assert forall|j: int| 0 <= j < mid.active@.len() implies #[trigger] mid.held(j) == before.held(j) by {}
    assert forall|a: int, b: int| 0 <= a < mid.registers@.len() && 0 <= b < mid.registers@.len() && a != b implies
        #[trigger] mid.registers@[a]@ != #[trigger] mid.registers@[b]@ by {
        assert(mid.registers@[a] == pool[if a < i { a } else { a + 1 }]);
        assert(mid.registers@[b] == pool[if b < i { b } else { b + 1 }]);
    }
    assert forall|a: int, j: int| 0 <= a < mid.registers@.len() && 0 <= j < mid.active@.len() implies
        #[trigger] mid.registers@[a]@ != #[trigger] mid.held(j)@ by {
        assert(mid.registers@[a] == pool[if a < i { a } else { a + 1 }]);
        assert(mid.held(j) == before.held(j));
    }
    assert forall|a: int| 0 <= a < mid.registers@.len() implies mid.initial@.contains(#[trigger] mid.registers@[a]@) by {
        assert(mid.registers@[a] == pool[if a < i { a } else { a + 1 }]);
    }
    assert(mid.consistent());
    assert forall|y: Register| #[trigger] mid.initial@.contains(y) && y != x implies mid.free(y) || mid.taken(y) by {
        if before.free(y) {
            let k = choose|k: int| 0 <= k < pool.len() && #[trigger] pool[k]@ == y;
            assert(k != i);
            let m = if k < i { k } else { k - 1 };
            assert(mid.registers@[m] == pool[k]);
        } else {
            let j = choose|j: int| 0 <= j < before.active@.len() && #[trigger] before.held(j)@ == y;
            assert(mid.held(j) == before.held(j));
        }
    }
    assert(!mid.free(x)) by {
        if mid.free(x) {
            let a = choose|a: int| 0 <= a < mid.registers@.len() && #[trigger] mid.registers@[a]@ == x;
            let k = if a < i { a } else { a + 1 };
            assert(mid.registers@[a] == pool[k]);
            assert(k != i);
        }
    }
    assert(!mid.taken(x)) by {
        if mid.taken(x) {
            let j = choose|j: int| 0 <= j < mid.active@.len() && #[trigger] mid.held(j)@ == x;
            assert(before.held(j)@ == x);
            assert(pool[i]@ != before.held(j)@);
        }
    }
}

/// Spilling the active temporary at `j`, which holds `x`, releases `x`.
proof fn lemma_release_active(before: Linear, mid: Linear, j: int, x: Register)
    requires
        before.inv(),
        0 <= j < before.active@.len(),
        before.held(j)@ == x,
        mid.allocated.wf(),
        mid.spilled.wf(),
        mid.allocated@ == before.allocated@.remove(before.active@[j].1@),
        mid.spilled@ == before.spilled@.insert(before.active@[j].1@, before.spilled.size() as usize),
        mid.spilled.size() == before.spilled.size() + 1,
        mid.active@ == before.active@.remove(j),
        mid.registers == before.registers,
        mid.ranges == before.ranges,
        mid.initial == before.initial,
        mid.current == before.current,
        before.spilled.size() < usize::MAX,
    ensures
        mid.released(x),
{
    let active = before.active@;
    let t = active[j].1@;
    let index = |k: int| if k < j { k } else { k + 1 };
    assert(before.allocated@.contains_key(active[j].1@));
    lemma_spilled_slot(before.spilled@, before.spilled.size(), t, mid.spilled@, mid.spilled.size());
    assert forall|k: int| 0 <= k < mid.active@.len() implies #[trigger] mid.active@[k] == active[index(k)] by {}
    assert forall|k: int| 0 <= k < mid.active@.len() implies #[trigger] mid.held(k) == before.held(index(k)) && mid.allocated@.contains_key(
        mid.active@[k].1@,
    ) by {
        assert(mid.active@[k] == active[index(k)]);
        assert(before.held(index(k))@ != before.held(j)@);
    }
    assert forall|a: int, b: int| 0 <= a < mid.active@.len() && 0 <= b < mid.active@.len() && a != b implies
        #[trigger] mid.held(a)@ != #[trigger] mid.held(b)@ by {
        assert(mid.held(a) == before.held(index(a)));
        assert(mid.held(b) == before.held(index(b)));
    }
    assert forall|a: int, k: int| 0 <= a < mid.registers@.len() && 0 <= k < mid.active@.len() implies
        #[trigger] mid.registers@[a]@ != #[trigger] mid.held(k)@ by {
        assert(mid.held(k) == before.held(index(k)));
    }
    assert forall|u: Temporary| #[trigger] mid.allocated@.contains_key(u) && mid.inactive(u) implies mid.ranges@[u].end
        < mid.current@ by {
        assert forall|k: int| 0 <= k < active.len() implies #[trigger] active[k].1@ != u by {
            if k != j {
                let m = if k < j { k } else { k - 1 };
                assert(mid.active@[m] == active[k]);
            }
        }
    }
    assert forall|k: int| 0 <= k < mid.active@.len() implies #[trigger] mid.allocated@.contains_key(mid.active@[k].1@)
        && mid.active@[k].0 == mid.ranges@[mid.active@[k].1@].end by {
        assert(mid.active@[k] == active[index(k)]);
        assert(before.held(index(k))@ != before.held(j)@);
        assert(before.allocated@.contains_key(active[index(k)].1@));
    }
    assert(mid.consistent());
    assert forall|y: Register| #[trigger] mid.initial@.contains(y) && y != x implies mid.free(y) || mid.taken(y) by {
        if !before.free(y) {
            let k = choose|k: int| 0 <= k < active.len() && #[trigger] before.held(k)@ == y;
            assert(k != j);
            let m = if k < j { k } else { k - 1 };
            assert(mid.held(m) == before.held(k));
        } else {
            let i = choose|i: int| 0 <= i < before.registers@.len() && #[trigger] before.registers@[i]@ == y;
            assert(mid.registers@[i]@ == y);
        }
    }
    assert(!mid.free(x)) by {
        if mid.free(x) {
            let i = choose|i: int| 0 <= i < mid.registers@.len() && #[trigger] mid.registers@[i]@ == x;
            assert(before.registers@[i]@ != before.held(j)@);
        }
    }
    assert(!mid.taken(x)) by {
        if mid.taken(x) {
            let k = choose|k: int| 0 <= k < mid.active@.len() && #[trigger] mid.held(k)@ == x;
            assert(mid.held(k) == before.held(index(k)));
        }
    }
}

/// A new slot numbered after the others keeps the slots dense and distinct.
proof fn lemma_spilled_slot(before: Map<Temporary, usize>, size: nat, t: Temporary, after: Map<Temporary, usize>, after_size: nat)
    requires
        forall|u: Temporary| #[trigger] before.contains_key(u) ==> before[u] < size,
        forall|u: Temporary, v: Temporary|
            #[trigger] before.contains_key(u) && #[trigger] before.contains_key(v) && u != v ==> before[u] != before[v],
        !before.contains_key(t),
        after == before.insert(t, size as usize),
        after_size == size + 1,
        size < usize::MAX,
    ensures
        forall|u: Temporary| #[trigger] after.contains_key(u) ==> after[u] < after_size,
        forall|u: Temporary, v: Temporary|
            #[trigger] after.contains_key(u) && #[trigger] after.contains_key(v) && u != v ==> after[u] != after[v],
{
}


/// Giving the released register `r` to the new temporary `n`, which becomes
/// active at `position`, restores the invariant.
proof fn lemma_grant(mid: Linear, after: Linear, n: Temporary, r: Register, position: int)
    requires
        mid.released(r@),
        mid.initial@.contains(r@),
        mid.ranges@.contains_key(n),
        !mid.allocated@.contains_key(n),
        !mid.spilled@.contains_key(n),
        mid.ranges@[n].start == mid.current@,
        forall|y: Register| n == Temporary::Register(y) ==> r@ == y@,
        !(n is Register) ==> !clobbers(mid.ranges@[n].clobbered, r),
        after.allocated.wf(),
        after.allocated@ == mid.allocated@.insert(n, r),
        0 <= position <= mid.active@.len(),
        after.active@ == mid.active@.insert(position, after.active@[position]),
        after.active@[position].1@ == n,
        after.active@[position].0 == mid.ranges@[n].end,
        after.spilled == mid.spilled,
        after.registers == mid.registers,
        after.ranges == mid.ranges,
        after.initial == mid.initial,
        after.current == mid.current,
    ensures
        after.inv(),
{
    let active = mid.active@;
    let index = |k: int| if k < position { k } else { k - 1 };
    assert forall|k: int| 0 <= k < after.active@.len() && k != position implies #[trigger] after.active@[k] == active[index(k)]
        && after.held(k) == mid.held(index(k)) by {
        assert(mid.allocated@.contains_key(active[index(k)].1@));
    }
    assert(after.held(position) == r);
    assert forall|k: int| 0 <= k < after.active@.len() implies #[trigger] after.allocated@.contains_key(after.active@[k].1@)
        && after.active@[k].0 == after.ranges@[after.active@[k].1@].end by {
        if k != position {
            assert(after.active@[k] == active[index(k)]);
            assert(mid.allocated@.contains_key(active[index(k)].1@));
        }
    }
    assert forall|a: int, b: int| 0 <= a < after.active@.len() && 0 <= b < after.active@.len() && a != b implies
        #[trigger] after.held(a)@ != #[trigger] after.held(b)@ by {
        if a == position {
            assert(after.held(b) == mid.held(index(b)));
            assert(!mid.taken(r@));
        } else if b == position {
            assert(after.held(a) == mid.held(index(a)));
            assert(!mid.taken(r@));
        } else {
            assert(after.held(a) == mid.held(index(a)));
            assert(after.held(b) == mid.held(index(b)));
        }
    }
    assert forall|i: int, k: int| 0 <= i < after.registers@.len() && 0 <= k < after.active@.len() implies
        #[trigger] after.registers@[i]@ != #[trigger] after.held(k)@ by {
        if k == position {
            assert(!mid.free(r@));
        } else {
            assert(after.held(k) == mid.held(index(k)));
        }
    }
    assert forall|t: Temporary, u: Temporary|
        #[trigger] after.allocated@.contains_key(t) && #[trigger] after.allocated@.contains_key(u) && t != u
            && after.allocated@[t]@ == after.allocated@[u]@ implies !overlap(after.ranges@[t], after.ranges@[u]) by {
        if t == n || u == n {
            let other = if t == n { u } else { t };
            assert(mid.allocated@.contains_key(other));
            assert(mid.allocated@[other]@ == r@);
            assert(mid.inactive(other)) by {
                assert forall|k: int| 0 <= k < active.len() implies #[trigger] active[k].1@ != other by {
                    if active[k].1@ == other {
                        assert(mid.held(k)@ == r@);
                        assert(!mid.taken(r@));
                    }
                }
            }
        }
    }
    assert forall|t: Temporary| #[trigger] after.allocated@.contains_key(t) && after.inactive(t) implies after.ranges@[t].end
        < after.current@ by {
        assert(t != n) by {
            assert(after.active@[position].1@ == n);
        }
        assert(mid.inactive(t)) by {
            assert forall|k: int| 0 <= k < active.len() implies #[trigger] active[k].1@ != t by {
                let m = if k < position { k } else { k + 1 };
                assert(after.active@[m] == active[k]);
            }
        }
    }
    assert forall|register: Register| #[trigger] after.allocated@.contains_key(Temporary::Register(register)) implies after.allocated@[
        Temporary::Register(register)]@ == register@ by {
        if Temporary::Register(register) != n {
            assert(mid.allocated@.contains_key(Temporary::Register(register)));
        }
    }
    assert(after.consistent());
    assert forall|y: Register| #[trigger] after.initial@.contains(y) implies after.free(y) || after.taken(y) by {
        if y == r@ {
            assert(after.held(position)@ == y);
        } else if mid.free(y) {
            let i = choose|i: int| 0 <= i < mid.registers@.len() && #[trigger] mid.registers@[i]@ == y;
            assert(after.registers@[i]@ == y);
        } else {
            let k = choose|k: int| 0 <= k < active.len() && #[trigger] mid.held(k)@ == y;
            let m = if k < position { k } else { k + 1 };
            assert(after.held(m) == mid.held(k));
        }
    }
}

/// Spilling a new temporary keeps the invariant.
proof fn lemma_spill_new(before: Linear, after: Linear, n: Temporary)
    requires
        before.inv(),
        before.ranges@.contains_key(n),
        !before.allocated@.contains_key(n),
        !before.spilled@.contains_key(n),
        before.ranges@[n].start <= before.current@,
        after.allocated.wf(),
        after.spilled.wf(),
        after.allocated@ == before.allocated@.remove(n),
        after.spilled@ == before.spilled@.insert(n, before.spilled.size() as usize),
        after.spilled.size() == before.spilled.size() + 1,
        before.spilled.size() < usize::MAX,
        after.active == before.active,
        after.registers == before.registers,
        after.ranges == before.ranges,
        after.initial == before.initial,
        after.current == before.current,
    ensures
        after.inv(),
{
    assert(after.allocated@ =~= before.allocated@);
    lemma_spilled_slot(before.spilled@, before.spilled.size(), n, after.spilled@, after.spilled.size());
    assert forall|j: int| 0 <= j < after.active@.len() implies #[trigger] after.held(j) == before.held(j) by {}
    assert(after.consistent());
    assert forall|y: Register| #[trigger] after.initial@.contains(y) implies after.free(y) || after.taken(y) by {
        if !before.free(y) {
            let k = choose|k: int| 0 <= k < before.active@.len() && #[trigger] before.held(k)@ == y;
            assert(after.held(k) == before.held(k));
        }
    }
}


impl Linear {
    /// Give the register temporary for `register` its own register, spilling
    /// the active temporary that holds it.
    fn allocate_register(&mut self, register: Register, range: Range)
        requires
            old(self).inv(),
            old(self).ranges@.contains_key(Temporary::Register(register)@),
            old(self).ranges@[Temporary::Register(register)@] == range,
            range.start == old(self).current@,
            !old(self).allocated@.contains_key(Temporary::Register(register)@),
            !old(self).spilled@.contains_key(Temporary::Register(register)@),
            old(self).initial@.contains(register@),
            old(self).spilled.size() < usize::MAX,
        ensures
            final(self).inv(),
            forall|t: Temporary|
                (#[trigger] final(self).allocated@.contains_key(t) || final(self).spilled@.contains_key(t)) == (old(
                    self,
                ).allocated@.contains_key(t) || old(self).spilled@.contains_key(t) || t == Temporary::Register(register)@),
            final(self).spilled.size() <= old(self).spilled.size() + 1,
            final(self).ranges == old(self).ranges,
            final(self).initial == old(self).initial,
            final(self).current == old(self).current,
    {
        let ghost before = *self;
        let ghost n = Temporary::Register(register)@;
        match find_register(&self.registers, &register) {
            Some(i) => {
                self.registers.remove(i);
                proof {
                    lemma_release_free(before, *self, i as int, register@);
                }
            },
            None => {
                let j = match self.find_holder(&register) {
                    Some(j) => j,
                    None => {
                        proof {
                            assert(before.free(register@) || before.taken(register@));
                        }
                        return;
                    },
                };
                let holder = self.active[j].1;
                assert(self.allocated@.contains_key(self.active@[j as int].1@));
                self.spill(holder);
                self.active.remove(j);
                proof {
                    lemma_release_active(before, *self, j as int, register@);
                }
            },
        }
        let ghost mid = *self;
        self.allocated.insert(Temporary::Register(register), register);
        let position = insert_active(&mut self.active, (range.end, Temporary::Register(register)));
        proof {
            lemma_grant(mid, *self, n, register, position as int);
        }
    }

    /// Give `temporary` the last free register its range leaves alone; else
    /// take the register of the active temporary ending last, where that one
    /// ends after `range`, spilling it; else spill `temporary`.
    fn allocate_temporary(&mut self, temporary: Temporary, range: Range)
        requires
            old(self).inv(),
            !(temporary is Register),
            old(self).ranges@.contains_key(temporary@),
            old(self).ranges@[temporary@] == range,
            range.start == old(self).current@,
            !old(self).allocated@.contains_key(temporary@),
            !old(self).spilled@.contains_key(temporary@),
            old(self).spilled.size() < usize::MAX,
        ensures
            final(self).inv(),
            forall|t: Temporary|
                (#[trigger] final(self).allocated@.contains_key(t) || final(self).spilled@.contains_key(t)) == (old(
                    self,
                ).allocated@.contains_key(t) || old(self).spilled@.contains_key(t) || t == temporary@),
            final(self).spilled.size() <= old(self).spilled.size() + 1,
            final(self).ranges == old(self).ranges,
            final(self).initial == old(self).initial,
            final(self).current == old(self).current,
    {
        let ghost before = *self;
        let ghost n = temporary@;
        match last_unclobbered(&self.registers, &range.clobbered) {
            Some(i) => {
                assert(self.initial@.contains(self.registers@[i as int]@));
                let register = self.registers.remove(i);
                proof {
                    lemma_release_free(before, *self, i as int, register@);
                }
                let ghost mid = *self;
                self.allocated.insert(temporary, register);
                let position = insert_active(&mut self.active, (range.end, temporary));
                proof {
                    lemma_grant(mid, *self, n, register, position as int);
                }
                return;
            },
            None => {},
        }
        match self.steal_candidate(&range.clobbered) {
            Some(j) => {
                let (end, existing) = self.active[j];
                if end > range.end {
                    assert(self.allocated@.contains_key(existing@));
                    let register = match self.allocated.get(&existing) {
                        Some(register) => *register,
                        None => return,
                    };
                    self.spill(existing);
                    self.active.remove(j);
                    proof {
                        lemma_release_active(before, *self, j as int, register@);
                    }
                    let ghost mid = *self;
                    self.allocated.insert(temporary, register);
                    let position = insert_active(&mut self.active, (range.end, temporary));
                    proof {
                        lemma_grant(mid, *self, n, register, position as int);
                    }
                    return;
                }
            },
            None => {},
        }
        self.spill(temporary);
        proof {
            lemma_spill_new(before, *self, n);
        }
    }
}


/// How many temporaries are still to be scanned.
spec fn pending(done: Seq<bool>) -> nat
    decreases done.len(),
{
    if done.len() == 0 {
        0
    } else {
        pending(done.drop_last()) + if done.last() {
            0nat
        } else {
            1nat
        }
    }
}

proof fn lemma_pending_mark(done: Seq<bool>, k: int)
    requires
        0 <= k < done.len(),
        !done[k],
    ensures
        pending(done.update(k, true)) + 1 == pending(done),
    decreases done.len(),
{
    if k == done.len() - 1 {
        assert(done.update(k, true).drop_last() =~= done.drop_last());
    } else {
        lemma_pending_mark(done.drop_last(), k);
        assert(done.update(k, true).drop_last() =~= done.drop_last().update(k, true));
    }
}

proof fn lemma_pending_bound(done: Seq<bool>)
    ensures
        pending(done) <= done.len(),
    decreases done.len(),
{
    if done.len() > 0 {
        lemma_pending_bound(done.drop_last());
    }
}

proof fn lemma_pending_none(done: Seq<bool>)
    requires
        forall|j: int| 0 <= j < done.len() ==> !#[trigger] done[j],
    ensures
        pending(done) == done.len(),
    decreases done.len(),
{
    if done.len() > 0 {
        lemma_pending_none(done.drop_last());
    }
}

/// The first in scan order of the temporaries not yet scanned.
fn select(ranges: &KeyMap<Temporary, Range>, done: &Vec<bool>) -> (choice: Option<usize>)
    requires
        done@.len() == ranges.size(),
    ensures
        choice matches Some(k) ==> k < done@.len() && !done@[k as int] && forall|j: int|
            0 <= j < done@.len() && !done@[j] ==> ranges.value_at_spec(k as int).start <= #[trigger] ranges.value_at_spec(j).start,
        choice is None ==> forall|j: int| 0 <= j < done@.len() ==> #[trigger] done@[j],
{
    let mut best: Option<usize> = None;
    let mut index: usize = 0;
    while index < done.len()
        invariant
            index <= done@.len(),
            done@.len() == ranges.size(),
            best matches Some(b) ==> b < index && !done@[b as int] && forall|j: int|
                0 <= j < index && !done@[j] ==> ranges.value_at_spec(b as int).start <= #[trigger] ranges.value_at_spec(j).start,
            best is None ==> forall|j: int| 0 <= j < index ==> #[trigger] done@[j],
        decreases done@.len() - index,
    {
        if !done[index] {
            match best {
                None => {
                    best = Some(index);
                },
                Some(b) => {
                    if range_less(ranges.value_at(index), ranges.key_at(index), ranges.value_at(b), ranges.key_at(b)) {
                        best = Some(index);
                    }
                },
            }
        }
        index += 1;
    }
    best
}

/// Moving the scan point up to a start no earlier than the current one keeps the invariant.
proof fn lemma_advance(before: Linear, after: Linear)
    requires
        before.inv(),
        before.current@ <= after.current@,
        after.active == before.active,
        after.allocated == before.allocated,
        after.spilled == before.spilled,
        after.registers == before.registers,
        after.ranges == before.ranges,
        after.initial == before.initial,
    ensures
        after.inv(),
{
    assert forall|j: int| 0 <= j < after.active@.len() implies #[trigger] after.held(j) == before.held(j) by {}
    assert(after.consistent());
    assert forall|y: Register| #[trigger] after.initial@.contains(y) implies after.free(y) || after.taken(y) by {
        if !before.free(y) {
            let k = choose|k: int| 0 <= k < before.active@.len() && #[trigger] before.held(k)@ == y;
            assert(after.held(k) == before.held(k));
        }
    }
}

/// Allocate registers by linear scan over the live ranges of `ranges`, using
/// the available `registers`: returns the register of each temporary that got
/// one, and the stack slot of each other temporary.
pub fn allocate(ranges: &LiveRanges, registers: Vec<Register>) -> (result: (KeyMap<Temporary, Register>, KeyMap<Temporary, usize>))
    requires
        ranges.ranges.wf(),
        forall|i: int, j: int|
            0 <= i < registers@.len() && 0 <= j < registers@.len() && i != j ==> registers@[i]@ != registers@[j]@,
        forall|register: Register|
            #[trigger] ranges.ranges@.contains_key(Temporary::Register(register)) ==> register_views(registers@).contains(register@),
    ensures
        result.0.wf(),
        result.1.wf(),
        allocation(ranges.ranges@, registers@, result.0@, result.1@),
{
    let ghost initial = register_views(registers@);
    let ghost available = registers@;
    let mut linear = Linear {
        active: Vec::new(),
        allocated: KeyMap::new(),
        spilled: KeyMap::new(),
        registers,
        ranges: Ghost(ranges.ranges@),
        initial: Ghost(initial),
        current: Ghost(0),
    };
    proof {
        assert forall|i: int| 0 <= i < linear.registers@.len() implies linear.initial@.contains(#[trigger] linear.registers@[i]@) by {
            assert(initial[i] == available[i]@);
        }
        assert forall|y: Register| #[trigger] linear.initial@.contains(y) implies linear.free(y) || linear.taken(y) by {
            let i = choose|i: int| 0 <= i < initial.len() && initial[i] == y;
            assert(linear.registers@[i]@ == y);
        }
        assert(linear.consistent());
        ranges.ranges.lemma_entries();
    }
    let size = ranges.ranges.len();
    let mut done: Vec<bool> = Vec::new();
    while done.len() < size
        invariant
            done@.len() <= size,
            forall|j: int| 0 <= j < done@.len() ==> !#[trigger] done@[j],
        decreases size - done@.len(),
    {
        done.push(false);
    }
    let mut step: usize = 0;
    proof {
        lemma_pending_none(done@);
    }
    loop
        invariant
            linear.inv(),
            linear.ranges@ == ranges.ranges@,
            linear.initial@ == initial,
            initial == register_views(available),
            ranges.ranges.wf(),
            size == ranges.ranges.size(),
            done@.len() == size,
            step + pending(done@) == size,
            linear.spilled.size() <= step,
            forall|k: int|
                0 <= k < size ==> (#[trigger] done@[k] <==> (linear.allocated@.contains_key(ranges.ranges.key_at_spec(k)@)
                    || linear.spilled@.contains_key(ranges.ranges.key_at_spec(k)@))),
            forall|k: int| 0 <= k < size && !done@[k] ==> linear.current@ <= #[trigger] ranges.ranges.value_at_spec(k).start,
            forall|k: int|
                0 <= k < size ==> ranges.ranges@.contains_key(#[trigger] ranges.ranges.key_at_spec(k)@)
                    && ranges.ranges@[ranges.ranges.key_at_spec(k)@] == ranges.ranges.value_at_spec(k),
            forall|t: Temporary|
                ranges.ranges@.contains_key(t) ==> exists|k: int| 0 <= k < size && #[trigger] ranges.ranges.key_at_spec(k)@ == t,
            forall|register: Register|
                #[trigger] ranges.ranges@.contains_key(Temporary::Register(register)) ==> initial.contains(register@),
        ensures
            linear.inv(),
            linear.ranges@ == ranges.ranges@,
            linear.initial@ == initial,
            forall|k: int| 0 <= k < size ==> #[trigger] done@[k],
            forall|k: int|
                0 <= k < size ==> (#[trigger] done@[k] <==> (linear.allocated@.contains_key(ranges.ranges.key_at_spec(k)@)
                    || linear.spilled@.contains_key(ranges.ranges.key_at_spec(k)@))),
            forall|t: Temporary|
                ranges.ranges@.contains_key(t) ==> exists|k: int| 0 <= k < size && #[trigger] ranges.ranges.key_at_spec(k)@ == t,
        decreases pending(done@),
    {
        let k = match select(&ranges.ranges, &done) {
            Some(k) => k,
            None => break,
        };
        let temporary = *ranges.ranges.key_at(k);
        let range = *ranges.ranges.value_at(k);
        proof {
            lemma_pending_mark(done@, k as int);
            lemma_pending_bound(done@.update(k as int, true));
        }
        let ghost before = linear;
        linear.current = Ghost(range.start as int);
        proof {
            lemma_advance(before, linear);
        }
        linear.expire(range.start);
        match temporary {
            Temporary::Register(register) => {
                assert(ranges.ranges@.contains_key(Temporary::Register(register@)));
                assert(register@@ == register@);
                linear.allocate_register(register, range);
            },
            _ => {
                linear.allocate_temporary(temporary, range);
            },
        }
        let ghost old_done = done@;
        done.set(k, true);
        step += 1;
        proof {
            assert forall|j: int| 0 <= j < size && j != k implies ranges.ranges.key_at_spec(j)@ != temporary@ by {
                ranges.ranges.lemma_distinct(j, k as int);
            }
            assert forall|j: int| 0 <= j < size implies (#[trigger] done@[j] <==> (linear.allocated@.contains_key(
                ranges.ranges.key_at_spec(j)@,
            ) || linear.spilled@.contains_key(ranges.ranges.key_at_spec(j)@))) by {
                let t = ranges.ranges.key_at_spec(j)@;
                if j == k {
                    assert(t == temporary@);
                    assert(linear.allocated@.contains_key(t) || linear.spilled@.contains_key(t));
                } else {
                    assert(done@[j] == old_done[j]);
                    assert(t != temporary@);
                    assert((linear.allocated@.contains_key(t) || linear.spilled@.contains_key(t)) == (before.allocated@.contains_key(t)
                        || before.spilled@.contains_key(t)));
                }
            }
        }
    }
    let allocated = linear.allocated;
    let spilled = linear.spilled;
    proof {
        spilled.lemma_size();
        assert forall|t: Temporary| #[trigger] ranges.ranges@.contains_key(t) implies allocated@.contains_key(t) || spilled@.contains_key(t) by {
            let k = choose|k: int| 0 <= k < size && #[trigger] ranges.ranges.key_at_spec(k)@ == t;
            assert(done@[k]);
        }
    }
    (allocated, spilled)
}

} // verus!

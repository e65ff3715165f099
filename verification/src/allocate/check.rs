use vstd::prelude::*;

use crate::abi;
use crate::collections::Key;
use crate::collections::KeyMap;
use crate::collections::map_views;
use crate::data::assembly;
use crate::data::operand;
use crate::data::operand::Register;
use crate::data::operand::Temporary;

verus! {

/// Where a checked allocation keeps a value: a stack slot or a register.
#[derive(Copy, Clone, Debug)]
pub enum Location {
    Stack(usize),
    Register(Register),
}

impl View for Location {
    type V = Location;

    open spec fn view(&self) -> Location {
        match self {
            Location::Register(register) => Location::Register(register@),
            location => *location,
        }
    }
}

impl Key for Location {
    fn same(&self, other: &Self) -> (same: bool) {
        match (self, other) {
            (Location::Stack(a), Location::Stack(b)) => *a == *b,
            (Location::Register(a), Location::Register(b)) => a.same(b),
            _ => false,
        }
    }

    fn duplicate(&self) -> (copy: Self) {
        *self
    }
}

/// What a location is known to hold: one temporary, nothing known, or a conflict
/// (different temporaries along different paths, or a value clobbered by a call).
#[derive(Copy, Clone, Debug)]
pub enum Value {
    Conflict,
    Temporary(Temporary),
    Unknown,
}

impl Value {
    pub open spec fn spec_merge(self, value: Value) -> Value {
        match (self, value) {
            (Value::Conflict, _) | (_, Value::Conflict) => Value::Conflict,
            (Value::Unknown, _) | (_, Value::Unknown) => Value::Unknown,
            (Value::Temporary(left), Value::Temporary(right)) => if left@ == right@ {
                self
            } else {
                Value::Conflict
            },
        }
    }

    /// The value known where two paths join.
    pub fn merge(&self, value: &Self) -> (merged: Self)
        ensures
            merged == self.spec_merge(*value),
    {
        match (self, value) {
            (Value::Conflict, _) | (_, Value::Conflict) => Value::Conflict,
            (Value::Unknown, _) | (_, Value::Unknown) => Value::Unknown,
            (Value::Temporary(left), Value::Temporary(right)) => if left.same(right) {
                *self
            } else {
                Value::Conflict
            },
        }
    }
}

/// How a statement uses an operand.
#[derive(Copy, Clone, Debug)]
pub enum Access {
    Read,
    ReadWrite,
    Write,
}

/// One effect of a statement on what each location holds.
pub enum Event {
    /// The temporary is read: its location must hold it (or nothing known).
    Read(Temporary),
    /// The temporary is written: its location now holds it.
    Write(Temporary),
    /// The register is overwritten with something no temporary names.
    Clobber(Register),
}

pub open spec fn reads(temporaries: Seq<Temporary>) -> Seq<Event> {
    temporaries.map_values(|temporary: Temporary| Event::Read(temporary))
}

pub open spec fn writes(temporaries: Seq<Temporary>) -> Seq<Event> {
    temporaries.map_values(|temporary: Temporary| Event::Write(temporary))
}

pub open spec fn clobbers(registers: Seq<Register>) -> Seq<Event> {
    registers.map_values(|register: Register| Event::Clobber(register))
}

pub open spec fn temporaries(registers: Seq<Register>) -> Seq<Temporary> {
    registers.map_values(|register: Register| Temporary::Register(register))
}

/// The effects of using `operand` with `access`: its temporaries are read
/// (unless only written), then a register operand is written (unless only read).
pub open spec fn unary_events(access: Access, operand: operand::Unary<Temporary>) -> Seq<Event> {
    let read = match access {
        Access::Write => seq![],
        _ => reads(operand.operands()),
    };
    let written = match (access, operand) {
        (Access::Read, _) => seq![],
        (_, operand::Unary::R(temporary)) => seq![Event::Write(temporary)],
        _ => seq![],
    };
    read + written
}

/// The source is always read; the destination is used with `access`.
pub open spec fn binary_events(access: Access, operands: operand::Binary<Temporary>) -> Seq<Event> {
    unary_events(Access::Read, operands.spec_source()) + unary_events(access, operands.spec_destination())
}

pub open spec fn binary_access(binary: assembly::Binary) -> Access {
    match binary {
        assembly::Binary::Cmp => Access::Read,
        assembly::Binary::Mov | assembly::Binary::Lea => Access::Write,
        _ => Access::ReadWrite,
    }
}

pub open spec fn at_most(count: usize, bound: nat) -> int {
    if count < bound { count as int } else { bound as int }
}

/// The effects of a statement on what each location holds, in order.
pub open spec fn statement_events(statement: assembly::Statement<Temporary>) -> Seq<Event> {
    match statement {
        assembly::Statement::Binary(binary, operands) => binary_events(binary_access(binary), operands),
        assembly::Statement::Unary(unary, operand) => match unary {
            assembly::Unary::Push => unary_events(Access::Write, operand),
            assembly::Unary::Pop => unary_events(Access::Read, operand),
            assembly::Unary::Neg => unary_events(Access::ReadWrite, operand),
            assembly::Unary::Call { arguments, returned } => unary_events(Access::Read, operand)
                + reads(temporaries(abi::spec_argument().take(at_most(arguments, 6))))
                + clobbers(abi::spec_caller_saved())
                + writes(temporaries(abi::spec_return().take(at_most(returned, 2)))),
            _ => {
                let (written, clobbered) = match unary {
                    assembly::Unary::Div => (Register::Rax, Register::Rdx),
                    _ => (Register::Rdx, Register::Rax),
                };
                seq![
                    Event::Read(Temporary::Register(Register::Rax)),
                    Event::Read(Temporary::Register(Register::Rdx)),
                    Event::Clobber(clobbered),
                    Event::Write(Temporary::Register(written)),
                ]
            },
        },
        _ => seq![],
    }
}

/// The temporaries an event names.
pub open spec fn event_temporary(event: Event) -> Option<Temporary> {
    match event {
        Event::Read(temporary) | Event::Write(temporary) => Some(temporary),
        Event::Clobber(_) => None,
    }
}

/// Checks, statement by statement, that an allocation never reads a temporary
/// from a location that holds another one.
pub struct ValidAllocation<const LINEAR: bool> {
    pub allocated: KeyMap<Temporary, Register>,
    pub spilled: KeyMap<Temporary, usize>,
}

pub type Data = KeyMap<Location, Value>;

impl<const LINEAR: bool> ValidAllocation<LINEAR> {
    pub open spec fn wf(self) -> bool {
        self.allocated.wf() && self.spilled.wf()
    }

    /// The location of `temporary`: its register, else its stack slot, else the
    /// machine register it names.
    pub open spec fn location(self, temporary: Temporary) -> Option<Location> {
        if self.allocated@.contains_key(temporary@) {
            Some(Location::Register(self.allocated@[temporary@]))
        } else if self.spilled@.contains_key(temporary@) {
            Some(Location::Stack(self.spilled@[temporary@]))
        } else {
            match temporary {
                Temporary::Register(register) => Some(Location::Register(register)),
                _ => None,
            }
        }
    }

    pub open spec fn locates(self, events: Seq<Event>) -> bool {
        forall|i: int| 0 <= i < events.len() ==> (#[trigger] event_temporary(events[i]) matches Some(temporary)
            ==> self.location(temporary) is Some)
    }

    /// What each location holds after `event`, or the temporary read from a
    /// location that holds something else.
    pub open spec fn step(self, data: Map<Location, Value>, event: Event) -> Result<Map<Location, Value>, Temporary> {
        match event {
            Event::Read(temporary) => match data.get(self.location(temporary).unwrap()@) {
                Some(Value::Conflict) => Err(temporary),
                Some(Value::Temporary(held)) => if held@ == temporary@ {
                    Ok(data)
                } else {
                    Err(temporary)
                },
                _ => Ok(data),
            },
            Event::Write(temporary) => Ok(data.insert(self.location(temporary).unwrap()@, Value::Temporary(temporary))),
            Event::Clobber(register) => Ok(data.insert(Location::Register(register)@, Value::Conflict)),
        }
    }

    pub open spec fn run(self, data: Map<Location, Value>, events: Seq<Event>) -> Result<Map<Location, Value>, Temporary>
        decreases events.len(),
    {
        if events.len() == 0 {
            Ok(data)
        } else {
            match self.run(data, events.drop_last()) {
                Ok(before) => self.step(before, events.last()),
                Err(temporary) => Err(temporary),
            }
        }
    }

    pub proof fn lemma_run_append(self, data: Map<Location, Value>, first: Seq<Event>, second: Seq<Event>)
        ensures
            self.run(data, first + second) == match self.run(data, first) {
                Ok(middle) => self.run(middle, second),
                Err(temporary) => Err(temporary),
            },
        decreases second.len(),
    {
        if second.len() == 0 {
            assert(first + second =~= first);
        } else {
            assert((first + second).drop_last() =~= first + second.drop_last());
            self.lemma_run_append(data, first, second.drop_last());
        }
    }

    proof fn lemma_run_single(self, data: Map<Location, Value>, event: Event)
        ensures
            self.run(data, seq![event]) == self.step(data, event),
    {
        assert(seq![event].drop_last() =~= Seq::<Event>::empty());
        assert(self.run(data, Seq::<Event>::empty()) == Ok::<Map<Location, Value>, Temporary>(data));
    }

    pub fn get(&self, temporary: &Temporary) -> (location: Location)
        requires
            self.wf(),
            self.location(*temporary) is Some,
        ensures
            location == self.location(*temporary).unwrap(),
    {
        if let Some(register) = self.allocated.get(temporary) {
            return Location::Register(*register);
        }
        if let Some(index) = self.spilled.get(temporary) {
            return Location::Stack(*index);
        }
        match temporary {
            Temporary::Register(register) => Location::Register(*register),
            _ => {
                assert(false);
                Location::Stack(0)
            },
        }
    }

    fn read(&self, output: &Data, temporary: &Temporary) -> (result: Result<(), Temporary>)
        requires
            self.wf(),
            output.wf(),
            self.location(*temporary) is Some,
        ensures
            match self.step(output@, Event::Read(*temporary)) {
                Ok(data) => result is Ok && data == output@,
                Err(read) => result == Err::<(), Temporary>(read),
            },
    {
        let location = self.get(temporary);
        match output.get(&location) {
            Some(Value::Conflict) => Err(*temporary),
            Some(Value::Temporary(held)) => if held.same(temporary) {
                Ok(())
            } else {
                Err(*temporary)
            },
            _ => Ok(()),
        }
    }

    fn write(&self, output: &mut Data, temporary: Temporary)
        requires
            self.wf(),
            old(output).wf(),
            self.location(temporary) is Some,
        ensures
            final(output).wf(),
            self.step(old(output)@, Event::Write(temporary)) == Ok::<Map<Location, Value>, Temporary>(final(output)@),
    {
        let location = self.get(&temporary);
        output.insert(location, Value::Temporary(temporary));
    }

    fn clobber(&self, output: &mut Data, register: Register)
        requires
            old(output).wf(),
        ensures
            final(output).wf(),
            self.step(old(output)@, Event::Clobber(register)) == Ok::<Map<Location, Value>, Temporary>(final(output)@),
    {
        output.insert(Location::Register(register), Value::Conflict);
    }

    fn read_all(&self, output: &Data, operands: &Vec<Temporary>) -> (result: Result<(), Temporary>)
        requires
            self.wf(),
            output.wf(),
            self.locates(reads(operands@)),
        ensures
            match self.run(output@, reads(operands@)) {
                Ok(data) => result is Ok && data == output@,
                Err(read) => result == Err::<(), Temporary>(read),
            },
    {
        let mut index: usize = 0;
        while index < operands.len()
            invariant
                self.wf(),
                output.wf(),
                self.locates(reads(operands@)),
                index <= operands@.len(),
                self.run(output@, reads(operands@.take(index as int))) == Ok::<Map<Location, Value>, Temporary>(output@),
            decreases operands@.len() - index,
        {
            let ghost prefix = reads(operands@.take(index + 1));
            assert(prefix.drop_last() =~= reads(operands@.take(index as int)));
            assert(prefix.last() == Event::Read(operands@[index as int]));
            assert(event_temporary(reads(operands@)[index as int]) == Some(operands@[index as int]));
            match self.read(output, &operands[index]) {
                Ok(()) => {},
                Err(read) => {
                    proof {
                        let rest = operands@.skip(index + 1);
                        assert(operands@ =~= operands@.take(index + 1) + rest);
                        assert(reads(operands@) =~= reads(operands@.take(index + 1)) + reads(rest));
                        self.lemma_run_append(output@, reads(operands@.take(index + 1)), reads(rest));
                    }
                    return Err(read);
                },
            }
            index += 1;
        }
        assert(operands@.take(index as int) =~= operands@);
        Ok(())
    }

    fn transfer_unary(&self, output: &mut Data, access: Access, operand: &operand::Unary<Temporary>) -> (result: Result<(), Temporary>)
        requires
            self.wf(),
            old(output).wf(),
            self.locates(unary_events(access, *operand)),
        ensures
            final(output).wf(),
            match self.run(old(output)@, unary_events(access, *operand)) {
                Ok(data) => result is Ok && final(output)@ == data,
                Err(read) => result == Err::<(), Temporary>(read),
            },
    {
        let ghost before = output@;
        let ghost events = unary_events(access, *operand);
        let ghost read = match access {
            Access::Write => Seq::<Event>::empty(),
            _ => reads(operand.operands()),
        };
        let ghost written = events.skip(read.len() as int);
        assert(events =~= read + written);
        proof {
            self.lemma_run_append(before, read, written);
        }
        match access {
            Access::Write => {
                assert(read =~= Seq::<Event>::empty());
            },
            _ => {
                let operands = operand.operand_list();
                assert forall|i: int| 0 <= i < reads(operands@).len() implies
                    (#[trigger] event_temporary(reads(operands@)[i]) matches Some(temporary)
                        ==> self.location(temporary) is Some) by {
                    assert(events[i] == reads(operands@)[i]);
                }
                match self.read_all(output, &operands) {
                    Ok(()) => {},
                    Err(read) => return Err(read),
                }
            },
        }
        match access {
            Access::Read => {
                assert(written =~= Seq::<Event>::empty());
            },
            _ => match operand {
                operand::Unary::R(temporary) => {
                    assert(written =~= seq![Event::Write(*temporary)]);
                    assert(events[read.len() as int] == Event::Write(*temporary));
                    assert(event_temporary(events[read.len() as int]) == Some(*temporary));
                    proof {
                        self.lemma_run_single(output@, Event::Write(*temporary));
                    }
                    self.write(output, *temporary);
                },
                _ => {
                    assert(written =~= Seq::<Event>::empty());
                },
            },
        }
        Ok(())
    }

    fn register_temporaries(registers: &Vec<Register>, count: usize) -> (list: Vec<Temporary>)
        requires
            count <= registers@.len(),
        ensures
            list@ == temporaries(registers@.take(count as int)),
    {
        let mut list: Vec<Temporary> = Vec::new();
        let mut index: usize = 0;
        while index < count
            invariant
                count <= registers@.len(),
                index <= count,
                list@ == temporaries(registers@.take(index as int)),
            decreases count - index,
        {
            assert(temporaries(registers@.take(index + 1)) =~= list@.push(Temporary::Register(registers@[index as int])));
            list.push(Temporary::Register(registers[index]));
            index += 1;
        }
        list
    }

    fn write_all(&self, output: &mut Data, written: &Vec<Temporary>)
        requires
            self.wf(),
            old(output).wf(),
            forall|i: int| 0 <= i < written@.len() ==> #[trigger] written@[i] is Register,
        ensures
            final(output).wf(),
            self.run(old(output)@, writes(written@)) == Ok::<Map<Location, Value>, Temporary>(final(output)@),
    {
        let ghost before = output@;
        let mut index: usize = 0;
        assert(self.run(before, writes(written@.take(0))) == Ok::<Map<Location, Value>, Temporary>(before)) by {
            assert(writes(written@.take(0)) =~= Seq::<Event>::empty());
        }
        while index < written.len()
            invariant
                self.wf(),
                output.wf(),
                index <= written@.len(),
                forall|i: int| 0 <= i < written@.len() ==> #[trigger] written@[i] is Register,
                self.run(before, writes(written@.take(index as int))) == Ok::<Map<Location, Value>, Temporary>(output@),
            decreases written@.len() - index,
        {
            let ghost prefix = writes(written@.take(index + 1));
            assert(prefix.drop_last() =~= writes(written@.take(index as int)));
            assert(prefix.last() == Event::Write(written@[index as int]));
            assert(written@[index as int] is Register);
            self.write(output, written[index]);
            index += 1;
        }
        assert(written@.take(index as int) =~= written@);
    }

    fn clobber_all(&self, output: &mut Data, registers: &Vec<Register>)
        requires
            old(output).wf(),
        ensures
            final(output).wf(),
            self.run(old(output)@, clobbers(registers@)) == Ok::<Map<Location, Value>, Temporary>(final(output)@),
    {
        let ghost before = output@;
        let mut index: usize = 0;
        assert(self.run(before, clobbers(registers@.take(0))) == Ok::<Map<Location, Value>, Temporary>(before)) by {
            assert(clobbers(registers@.take(0)) =~= Seq::<Event>::empty());
        }
        while index < registers.len()
            invariant
                output.wf(),
                index <= registers@.len(),
                self.run(before, clobbers(registers@.take(index as int))) == Ok::<Map<Location, Value>, Temporary>(output@),
            decreases registers@.len() - index,
        {
            let ghost prefix = clobbers(registers@.take(index + 1));
            assert(prefix.drop_last() =~= clobbers(registers@.take(index as int)));
            assert(prefix.last() == Event::Clobber(registers@[index as int]));
            self.clobber(output, registers[index]);
            index += 1;
        }
        assert(registers@.take(index as int) =~= registers@);
    }

    /// The source is read, then the destination used with `access`.
    fn transfer_binary(&self, output: &mut Data, access: Access, operands: &operand::Binary<Temporary>) -> (result: Result<(), Temporary>)
        requires
            self.wf(),
            old(output).wf(),
            self.locates(binary_events(access, *operands)),
        ensures
            final(output).wf(),
            match self.run(old(output)@, binary_events(access, *operands)) {
                Ok(data) => result is Ok && final(output)@ == data,
                Err(read) => result == Err::<(), Temporary>(read),
            },
    {
        let ghost before = output@;
        let ghost first = unary_events(Access::Read, operands.spec_source());
        let ghost second = unary_events(access, operands.spec_destination());
        proof {
            self.lemma_run_append(before, first, second);
            assert forall|i: int| 0 <= i < first.len() implies
                (#[trigger] event_temporary(first[i]) matches Some(temporary) ==> self.location(temporary) is Some) by {
                assert(binary_events(access, *operands)[i] == first[i]);
            }
            assert forall|i: int| 0 <= i < second.len() implies
                (#[trigger] event_temporary(second[i]) matches Some(temporary) ==> self.location(temporary) is Some) by {
                assert(binary_events(access, *operands)[first.len() + i] == second[i]);
            }
        }
        match self.transfer_unary(output, Access::Read, &operands.source()) {
            Ok(()) => {},
            Err(read) => return Err(read),
        }
        self.transfer_unary(output, access, &operands.destination())
    }

    /// Follow what each location holds across `statement`; `Err` with the first
    /// temporary read from a location that holds something else.
    pub fn transfer(&self, statement: &assembly::Statement<Temporary>, output: &mut Data) -> (result: Result<(), Temporary>)
        requires
            self.wf(),
            old(output).wf(),
            !(statement is Nullary),
            self.locates(statement_events(*statement)),
        ensures
            final(output).wf(),
            match self.run(old(output)@, statement_events(*statement)) {
                Ok(data) => result is Ok && final(output)@ == data,
                Err(read) => result == Err::<(), Temporary>(read),
            },
    {
        let ghost before = output@;
        match statement {
            assembly::Statement::Label(_) | assembly::Statement::Jmp(_) | assembly::Statement::Jcc(_, _) => {
                Ok(())
            },
            assembly::Statement::Nullary(_) => {
                assert(false);
                Ok(())
            },
            assembly::Statement::Binary(binary, operands) => {
                let access = match binary {
                    assembly::Binary::Cmp => Access::Read,
                    assembly::Binary::Mov | assembly::Binary::Lea => Access::Write,
                    _ => Access::ReadWrite,
                };
                self.transfer_binary(output, access, operands)
            },
            assembly::Statement::Unary(unary, operand) => match unary {
                assembly::Unary::Push => self.transfer_unary(output, Access::Write, operand),
                assembly::Unary::Pop => self.transfer_unary(output, Access::Read, operand),
                assembly::Unary::Neg => self.transfer_unary(output, Access::ReadWrite, operand),
                assembly::Unary::Call { arguments, returned } => {
                    let ghost e1 = unary_events(Access::Read, *operand);
                    let ghost e2 = reads(temporaries(abi::spec_argument().take(at_most(*arguments, 6))));
                    let ghost e3 = clobbers(abi::spec_caller_saved());
                    let ghost e4 = writes(temporaries(abi::spec_return().take(at_most(*returned, 2))));
                    let ghost events = statement_events(*statement);
                    assert(events == e1 + e2 + e3 + e4);
                    proof {
                        self.lemma_run_append(before, e1 + e2 + e3, e4);
                        self.lemma_run_append(before, e1 + e2, e3);
                        self.lemma_run_append(before, e1, e2);
                        assert forall|i: int| 0 <= i < e1.len() implies
                            (#[trigger] event_temporary(e1[i]) matches Some(temporary) ==> self.location(temporary) is Some) by {
                            assert(events[i] == e1[i]);
                        }
                    }
                    match self.transfer_unary(output, Access::Read, operand) {
                        Ok(()) => {},
                        Err(read) => return Err(read),
                    }
                    let count = if *arguments < 6 { *arguments } else { 6 };
                    let argument_registers = abi::argument();
                    let argument_temporaries = Self::register_temporaries(&argument_registers, count);
                    assert forall|i: int| 0 <= i < reads(argument_temporaries@).len() implies
                        (#[trigger] event_temporary(reads(argument_temporaries@)[i]) matches Some(temporary)
                            ==> self.location(temporary) is Some) by {
                        assert(argument_temporaries@[i] is Register);
                    }
                    match self.read_all(output, &argument_temporaries) {
                        Ok(()) => {},
                        Err(read) => return Err(read),
                    }
                    let caller_saved = abi::caller_saved();
                    self.clobber_all(output, &caller_saved);
                    let count = if *returned < 2 { *returned } else { 2 };
                    let return_registers = abi::return_registers();
                    let returned_temporaries = Self::register_temporaries(&return_registers, count);
                    self.write_all(output, &returned_temporaries);
                    Ok(())
                },
                _ => {
                    let (written, clobbered) = match unary {
                        assembly::Unary::Div => (Register::Rax, Register::Rdx),
                        _ => (Register::Rdx, Register::Rax),
                    };
                    let ghost events = statement_events(*statement);
                    let rax = Temporary::Register(Register::Rax);
                    let rdx = Temporary::Register(Register::Rdx);
                    proof {
                        self.lemma_run_append(before, events.take(3), seq![events[3]]);
                        self.lemma_run_append(before, events.take(2), seq![events[2]]);
                        self.lemma_run_append(before, events.take(1), seq![events[1]]);
                        assert(events.take(3) + seq![events[3]] =~= events);
                        assert(events.take(2) + seq![events[2]] =~= events.take(3));
                        assert(events.take(1) + seq![events[1]] =~= events.take(2));
                        assert(events.take(1) =~= seq![Event::Read(rax)]);
                        self.lemma_run_single(before, Event::Read(rax));
                    }
                    match self.read(output, &rax) {
                        Ok(()) => {},
                        Err(read) => return Err(read),
                    }
                    proof {
                        self.lemma_run_single(output@, Event::Read(rdx));
                    }
                    match self.read(output, &rdx) {
                        Ok(()) => {},
                        Err(read) => return Err(read),
                    }
                    proof {
                        self.lemma_run_single(output@, Event::Clobber(clobbered));
                    }
                    self.clobber(output, clobbered);
                    proof {
                        self.lemma_run_single(output@, Event::Write(Temporary::Register(written)));
                    }
                    self.write(output, Temporary::Register(written));
                    Ok(())
                },
            },
        }
    }
}

/// What a location holds on entry to a block where a path that left `new`
/// there joins the paths merged so far, which left `old`.
pub open spec fn combine(old: Value, new: Value) -> Value {
    match new {
        Value::Unknown => old,
        Value::Temporary(held) => match old {
            Value::Temporary(previous) => if previous@ == held@ {
                old
            } else {
                Value::Conflict
            },
            Value::Unknown => new,
            Value::Conflict => Value::Conflict,
        },
        Value::Conflict => Value::Conflict,
    }
}

/// The locations known along both the merged paths and another one.
pub open spec fn merge_step(merged: Map<Location, Value>, output: Map<Location, Value>) -> Map<Location, Value> {
    Map::new(
        |location: Location| merged.contains_key(location) && output.contains_key(location),
        |location: Location| combine(merged[location], output[location]),
    )
}

/// The outputs of the predecessors merged in order; a missing one leaves nothing known.
pub open spec fn merge_all(outputs: Seq<Option<Map<Location, Value>>>) -> Map<Location, Value>
    decreases outputs.len(),
{
    if outputs.len() == 0 {
        Map::empty()
    } else if outputs.len() == 1 {
        match outputs[0] {
            Some(first) => first,
            None => Map::empty(),
        }
    } else {
        match outputs.last() {
            Some(last) => merge_step(merge_all(outputs.drop_last()), last),
            None => Map::empty(),
        }
    }
}

fn combine_values(old: Value, new: Value) -> (combined: Value)
    ensures
        combined == combine(old, new),
{
    match new {
        Value::Unknown => old,
        Value::Temporary(held) => match old {
            Value::Temporary(previous) => if previous.same(&held) {
                old
            } else {
                Value::Conflict
            },
            Value::Unknown => new,
            Value::Conflict => Value::Conflict,
        },
        Value::Conflict => Value::Conflict,
    }
}

fn merge_into(merged: &Data, output: &Data) -> (next: Data)
    requires
        merged.wf(),
        output.wf(),
    ensures
        next.wf(),
        next@ == merge_step(merged@, output@),
{
    let mut next: Data = KeyMap::new();
    let mut index: usize = 0;
    proof {
        merged.lemma_entries();
    }
    while index < merged.len()
        invariant
            merged.wf(),
            output.wf(),
            next.wf(),
            index <= merged.size(),
            forall|i: int|
                0 <= i < merged.size() ==> merged@.contains_key(#[trigger] merged.key_at_spec(i)@)
                    && merged@[merged.key_at_spec(i)@] == merged.value_at_spec(i),
            next@ == Map::new(
                |location: Location| (exists|j: int| 0 <= j < index && merged.key_at_spec(j)@ == location)
                    && output@.contains_key(location),
                |location: Location| combine(merged@[location], output@[location]),
            ),
        decreases merged.size() - index,
    {
        let ghost previous = next@;
        let key = *merged.key_at(index);
        let value = *merged.value_at(index);
        match output.get(&key) {
            Some(new) => {
                let combined = combine_values(value, *new);
                next.insert(key, combined);
            },
            None => {},
        }
        index += 1;
        assert(next@ =~= Map::new(
            |location: Location| (exists|j: int| 0 <= j < index && merged.key_at_spec(j)@ == location)
                && output@.contains_key(location),
            |location: Location| combine(merged@[location], output@[location]),
        )) by {
            assert forall|l: Location| (exists|j: int| 0 <= j < index && merged.key_at_spec(j)@ == l)
                && output@.contains_key(l) implies #[trigger] next@.contains_key(l) by {
                let j = choose|j: int| 0 <= j < index && merged.key_at_spec(j)@ == l;
                if j < index - 1 {
                    assert(previous.contains_key(l));
                }
            }
            assert forall|l: Location| #[trigger] next@.contains_key(l) implies
                (exists|j: int| 0 <= j < index && merged.key_at_spec(j)@ == l) && output@.contains_key(l) by {
                if l != key@ {
                    assert(previous.contains_key(l));
                }
            }
        }
    }
    assert(next@ =~= merge_step(merged@, output@)) by {
        assert forall|l: Location| #[trigger] merged@.contains_key(l) implies
            (exists|j: int| 0 <= j < index && merged.key_at_spec(j)@ == l) by {
            merged.lemma_entries();
        }
    }
    next
}

impl<const LINEAR: bool> ValidAllocation<LINEAR> {
    /// Nothing is known at the start.
    pub fn default(&self) -> (data: Data)
        ensures
            data.wf(),
            data@ == Map::<Location, Value>::empty(),
    {
        KeyMap::new()
    }

    /// Merge the outputs of the predecessors: a location stays known only if
    /// every path knows it, and holds a conflict where they disagree.
    pub fn merge(&self, outputs: &Vec<Option<&Data>>, input: &mut Data)
        requires
            forall|i: int| 0 <= i < outputs@.len() ==> (#[trigger] outputs@[i] matches Some(data) ==> data.wf()),
        ensures
            final(input).wf(),
            final(input)@ == merge_all(map_views(outputs@)),
    {
        let ghost views = map_views(outputs@);
        let mut merged: Data = KeyMap::new();
        if outputs.len() == 0 {
            *input = merged;
            return;
        }
        match outputs[0] {
            Some(first) => {
                merged = first.copy();
            },
            None => {},
        }
        assert(views.take(1).len() == 1 && views.take(1)[0] == views[0]);
        let mut index: usize = 1;
        while index < outputs.len()
            invariant
                1 <= index <= outputs@.len(),
                views == map_views(outputs@),
                forall|i: int| 0 <= i < outputs@.len() ==> (#[trigger] outputs@[i] matches Some(data) ==> data.wf()),
                merged.wf(),
                merged@ == merge_all(views.take(index as int)),
            decreases outputs@.len() - index,
        {
            let ghost prefix = views.take(index + 1);
            assert(prefix.drop_last() =~= views.take(index as int));
            assert(prefix.last() == views[index as int]);
            match outputs[index] {
                Some(output) => {
                    merged = merge_into(&merged, output);
                },
                None => {
                    merged = KeyMap::new();
                },
            }
            index += 1;
        }
        assert(views.take(index as int) =~= views);
        *input = merged;
    }
}

impl<const LINEAR: bool> ValidAllocation<LINEAR> {
    /// A temporary just written can be read back: its location holds it.
    pub proof fn lemma_read_after_write(self, data: Map<Location, Value>, temporary: Temporary)
        requires
            self.location(temporary) is Some,
        ensures
            self.run(data, seq![Event::Write(temporary), Event::Read(temporary)]) == Ok::<Map<Location, Value>, Temporary>(
                data.insert(self.location(temporary).unwrap()@, Value::Temporary(temporary)),
            ),
    {
        let events = seq![Event::Write(temporary), Event::Read(temporary)];
        assert(events.drop_last() =~= seq![Event::Write(temporary)]);
        self.lemma_run_single(data, Event::Write(temporary));
    }
}

} // verus!

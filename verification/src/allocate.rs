pub mod check;
pub mod trivial;
pub mod linear;

use vstd::prelude::*;

use crate::abi;
use crate::collections::KeyMap;
use crate::data::assembly;
use crate::data::operand;
use crate::data::operand::Immediate;
use crate::data::operand::Memory;
use crate::data::operand::Register;
use crate::data::operand::Scale;
use crate::data::operand::Temporary;

verus! {

/// Where a temporary lives: in a register, or in a stack slot.
#[derive(Copy, Clone, Debug)]
pub enum Location {
    Register(Register),
    Memory(Memory<Register>),
}

impl Location {
    /// The location as an operand.
    pub open spec fn operand(self) -> operand::Unary<Register> {
        match self {
            Location::Register(register) => operand::Unary::R(register),
            Location::Memory(memory) => operand::Unary::M(memory),
        }
    }
}

/// What the allocator has emitted so far, and the next shuttle register it may use.
pub struct Emission {
    pub statements: Seq<assembly::Statement<Register>>,
    pub next: nat,
}

/// A two-operand instruction writing register `destination`.
pub open spec fn into_register(destination: Register, source: operand::Unary<Register>) -> operand::Binary<Register> {
    match source {
        operand::Unary::R(register) => operand::Binary::RR { destination, source: register },
        operand::Unary::M(memory) => operand::Binary::RM { destination, source: memory },
        operand::Unary::I(immediate) => operand::Binary::RI { destination, source: immediate },
    }
}

/// Emit `binary` into `destination`, or into the next unused shuttle register
/// (if any is left) when no destination is given.
pub open spec fn shuttle_spec(
    reserved: Seq<Register>,
    emission: Emission,
    binary: assembly::Binary,
    destination: Option<Register>,
    source: operand::Unary<Register>,
) -> Option<(Emission, Register)> {
    let (destination, next) = match destination {
        Some(destination) => (Some(destination), emission.next),
        None => if emission.next < reserved.len() {
            (Some(reserved[emission.next as int]), emission.next + 1)
        } else {
            (None, emission.next)
        },
    };
    match destination {
        Some(destination) => Some((
            Emission {
                statements: emission.statements.push(assembly::Statement::Binary(binary, into_register(destination, source))),
                next,
            },
            destination,
        )),
        None => None,
    }
}

/// A register holding what `location` holds: the register itself, or a shuttle loaded from the stack.
pub open spec fn in_register(reserved: Seq<Register>, emission: Emission, location: Location) -> Option<(Emission, Register)> {
    match location {
        Location::Register(register) => Some((emission, register)),
        Location::Memory(memory) => shuttle_spec(reserved, emission, assembly::Binary::Mov, None, operand::Unary::M(memory)),
    }
}

/// The shift amount that multiplies by `scale`.
pub open spec fn shift(scale: Option<Scale>) -> Option<i64> {
    match scale {
        Some(Scale::_2) => Some(1),
        Some(Scale::_4) => Some(2),
        Some(Scale::_8) => Some(3),
        _ => None,
    }
}

/// A memory operand over registers with the given parts.
pub open spec fn indexed(base: Register, index: Register, scale: Option<Scale>, offset: Option<Immediate>) -> Memory<Register> {
    match (scale, offset) {
        (None, None) => Memory::BI { base, index },
        (Some(scale), None) => Memory::BIS { base, index, scale },
        (None, Some(offset)) => Memory::BIO { base, index, offset },
        (Some(scale), Some(offset)) => Memory::BISO { base, index, scale, offset },
    }
}

/// What the allocator decides before it rewrites anything: the callee frame
/// sizes, the register or stack slot of each temporary, and the reserved
/// shuttle registers.
pub struct Plan {
    pub callee_arguments: Option<usize>,
    pub callee_returns: Option<usize>,
    pub allocated: Map<Temporary, Register>,
    pub spilled: Map<Temporary, usize>,
    pub reserved: Seq<Register>,
}

impl Plan {
    /// The stack slot offset, in bytes, of spilled temporary number `index`.
    pub open spec fn slot(self, index: usize) -> int {
        abi::spec_unaligned_words(self.callee_arguments, self.callee_returns, index) * 8
    }

    /// The temporary has a location: it is a register, or allocated one, or spilled
    /// to a slot whose offset fits an immediate.
    pub open spec fn locatable(self, temporary: Temporary) -> bool {
        match temporary {
            Temporary::Register(_) => true,
            _ => self.allocated.contains_key(temporary@) || (self.spilled.contains_key(temporary@)
                && self.slot(self.spilled[temporary@]) <= i64::MAX && self.slot(self.spilled[temporary@]) <= usize::MAX),
        }
    }

    pub open spec fn location(self, temporary: Temporary) -> Location {
        match temporary {
            Temporary::Register(register) => Location::Register(register),
            _ => if self.allocated.contains_key(temporary@) {
                Location::Register(self.allocated[temporary@])
            } else {
                Location::Memory(Memory::BO {
                    base: Register::Rsp(true),
                    offset: Immediate::Integer(self.slot(self.spilled[temporary@]) as i64),
                })
            },
        }
    }

    pub open spec fn memory_locatable(self, memory: Memory<Temporary>) -> bool {
        forall|i: int| 0 <= i < memory.operands().len() ==> self.locatable(#[trigger] memory.operands()[i])
    }

    /// The memory operand over registers for `memory`, after the statements
    /// that compute its address into shuttle registers where needed.
    pub open spec fn memory_spec(self, emission: Emission, memory: Memory<Temporary>) -> Option<(Emission, Memory<Register>)> {
        let reserved = self.reserved;
        let (base, index, scale, offset) = match memory {
            Memory::BI { base, index } => (base, index, None, None),
            Memory::BIO { base, index, offset } => (base, index, None, Some(offset)),
            Memory::BIS { base, index, scale } => (base, index, Some(scale), None),
            Memory::BISO { base, index, scale, offset } => (base, index, Some(scale), Some(offset)),
            Memory::B { base } | Memory::BO { base, .. } | Memory::ISO { index: base, .. } => (base, base, None, None),
            Memory::O { .. } => (Temporary::Register(Register::Rax), Temporary::Register(Register::Rax), None, None),
        };
        match memory {
            Memory::O { offset } => Some((emission, Memory::O { offset })),
            Memory::B { base } => match in_register(reserved, emission, self.location(base)) {
                Some((after, base)) => Some((after, Memory::B { base })),
                None => None,
            },
            Memory::BO { base, offset } => match in_register(reserved, emission, self.location(base)) {
                Some((after, base)) => Some((after, Memory::BO { base, offset })),
                None => None,
            },
            Memory::ISO { index, scale, offset } => match in_register(reserved, emission, self.location(index)) {
                Some((after, index)) => Some((after, Memory::ISO { index, scale, offset })),
                None => None,
            },
            _ => match (self.location(base), self.location(index)) {
                (Location::Register(base), Location::Register(index)) => Some((emission, indexed(base, index, scale, offset))),
                (base_location, index_location) => match shuttle_spec(reserved, emission, assembly::Binary::Mov, None, index_location.operand()) {
                    None => None,
                    Some((loaded, shuttle)) => {
                        let shifted = match shift(scale) {
                            Some(amount) => shuttle_spec(reserved, loaded, assembly::Binary::Shl, Some(shuttle), operand::Unary::I(Immediate::Integer(amount))).unwrap().0,
                            None => loaded,
                        };
                        let moved = match offset {
                            Some(offset) => shuttle_spec(reserved, shifted, assembly::Binary::Add, Some(shuttle), operand::Unary::I(offset)).unwrap().0,
                            None => shifted,
                        };
                        let summed = shuttle_spec(reserved, moved, assembly::Binary::Add, Some(shuttle), base_location.operand()).unwrap().0;
                        Some((summed, Memory::B { base: shuttle }))
                    },
                },
            },
        }
    }

    pub open spec fn operands_locatable(self, operands: Seq<Temporary>) -> bool {
        forall|i: int| 0 <= i < operands.len() ==> self.locatable(#[trigger] operands[i])
    }

    /// A two-operand instruction from a destination and a source location; two
    /// memory operands move the source through a shuttle register.
    pub open spec fn combine_spec(self, emission: Emission, destination: Location, source: Location) -> Option<(Emission, operand::Binary<Register>)> {
        match (destination, source) {
            (Location::Register(destination), Location::Register(source)) => Some((emission, operand::Binary::RR { destination, source })),
            (Location::Register(destination), Location::Memory(source)) => Some((emission, operand::Binary::RM { destination, source })),
            (Location::Memory(destination), Location::Register(source)) => Some((emission, operand::Binary::MR { destination, source })),
            (Location::Memory(destination), Location::Memory(source)) => match shuttle_spec(
                self.reserved,
                emission,
                assembly::Binary::Mov,
                None,
                operand::Unary::M(source),
            ) {
                Some((after, shuttle)) => Some((after, operand::Binary::MR { destination, source: shuttle })),
                None => None,
            },
        }
    }

    pub open spec fn binary_spec(self, emission: Emission, binary: operand::Binary<Temporary>) -> Option<(Emission, operand::Binary<Register>)> {
        match binary {
            operand::Binary::RI { destination, source } => Some((emission, match self.location(destination) {
                Location::Register(register) => operand::Binary::RI { destination: register, source },
                Location::Memory(memory) => operand::Binary::MI { destination: memory, source },
            })),
            operand::Binary::MI { destination, source } => match self.memory_spec(emission, destination) {
                Some((after, memory)) => Some((after, operand::Binary::MI { destination: memory, source })),
                None => None,
            },
            operand::Binary::MR { destination, source } => match self.memory_spec(emission, destination) {
                Some((after, memory)) => self.combine_spec(after, Location::Memory(memory), self.location(source)),
                None => None,
            },
            operand::Binary::RM { destination, source } => match self.memory_spec(emission, source) {
                Some((after, memory)) => self.combine_spec(after, self.location(destination), Location::Memory(memory)),
                None => None,
            },
            operand::Binary::RR { destination, source } => self.combine_spec(emission, self.location(destination), self.location(source)),
        }
    }

    pub open spec fn unary_spec(self, emission: Emission, unary: operand::Unary<Temporary>) -> Option<(Emission, operand::Unary<Register>)> {
        match unary {
            operand::Unary::I(immediate) => Some((emission, operand::Unary::I(immediate))),
            operand::Unary::R(temporary) => Some((emission, self.location(temporary).operand())),
            operand::Unary::M(memory) => match self.memory_spec(emission, memory) {
                Some((after, memory)) => Some((after, operand::Unary::M(memory))),
                None => None,
            },
        }
    }

    pub open spec fn binary_locatable(self, binary: operand::Binary<Temporary>) -> bool {
        self.operands_locatable(binary.spec_destination().operands()) && self.operands_locatable(binary.spec_source().operands())
    }

    /// The statement kills nothing but a temporary that was given no location,
    /// and so is dropped.
    pub open spec fn dead(self, statement: assembly::Statement<Temporary>) -> bool {
        match writes_temporary(statement) {
            Some(destination) => !self.allocated.contains_key(destination@) && !self.spilled.contains_key(destination@),
            None => false,
        }
    }

    pub open spec fn statement_locatable(self, statement: assembly::Statement<Temporary>) -> bool {
        self.dead(statement) || match statement {
            assembly::Statement::Binary(_, operands) => self.binary_locatable(operands),
            assembly::Statement::Unary(_, operand) => self.operands_locatable(operand.operands()),
            _ => true,
        }
    }

    /// The rewritten statement, after the statements it needs first.
    #[verifier::opaque]
    pub open spec fn rewrite_spec(self, emission: Emission, statement: assembly::Statement<Temporary>) -> Option<(Emission, assembly::Statement<Register>)> {
        let reserved = self.reserved;
        match statement {
            assembly::Statement::Binary(assembly::Binary::Mov, operand::Binary::RI { destination, source }) if source.spec_is_64_bit() => match self.location(destination) {
                Location::Register(register) => Some((emission, assembly::Statement::Binary(
                    assembly::Binary::Mov,
                    operand::Binary::RI { destination: register, source },
                ))),
                Location::Memory(memory) => match shuttle_spec(reserved, emission, assembly::Binary::Mov, None, operand::Unary::I(source)) {
                    Some((after, shuttle)) => Some((after, assembly::Statement::Binary(
                        assembly::Binary::Mov,
                        operand::Binary::MR { destination: memory, source: shuttle },
                    ))),
                    None => None,
                },
            },
            assembly::Statement::Binary(assembly::Binary::Mul, operands) => match self.binary_spec(emission, operands) {
                Some((after, rewritten)) => match rewritten {
                    operand::Binary::MI { destination, source } => match shuttle_spec(reserved, after, assembly::Binary::Mov, None, operand::Unary::M(destination)) {
                        Some((loaded, shuttle)) => Some((
                            shuttle_spec(reserved, loaded, assembly::Binary::Mul, Some(shuttle), operand::Unary::I(source)).unwrap().0,
                            assembly::Statement::Binary(assembly::Binary::Mov, operand::Binary::MR { destination, source: shuttle }),
                        )),
                        None => None,
                    },
                    operand::Binary::MR { destination, source } => match shuttle_spec(reserved, after, assembly::Binary::Mov, None, operand::Unary::M(destination)) {
                        Some((loaded, shuttle)) => Some((
                            shuttle_spec(reserved, loaded, assembly::Binary::Mul, Some(shuttle), operand::Unary::R(source)).unwrap().0,
                            assembly::Statement::Binary(assembly::Binary::Mov, operand::Binary::MR { destination, source: shuttle }),
                        )),
                        None => None,
                    },
                    _ => Some((after, assembly::Statement::Binary(assembly::Binary::Mul, rewritten))),
                },
                None => None,
            },
            assembly::Statement::Binary(binary, operands) => match self.binary_spec(emission, operands) {
                Some((after, rewritten)) => Some((after, assembly::Statement::Binary(binary, rewritten))),
                None => None,
            },
            assembly::Statement::Unary(unary, operand) => match self.unary_spec(emission, operand) {
                Some((after, rewritten)) => Some((after, assembly::Statement::Unary(unary, rewritten))),
                None => None,
            },
            assembly::Statement::Nullary(nullary) => Some((emission, assembly::Statement::Nullary(nullary))),
            assembly::Statement::Label(label) => Some((emission, assembly::Statement::Label(label))),
            assembly::Statement::Jmp(label) => Some((emission, assembly::Statement::Jmp(label))),
            assembly::Statement::Jcc(condition, label) => Some((emission, assembly::Statement::Jcc(condition, label))),
        }
    }

    /// The output after rewriting `statement` onto `prior`, with all shuttle registers free again.
    pub open spec fn step(self, prior: Seq<assembly::Statement<Register>>, statement: assembly::Statement<Temporary>) -> Option<Seq<assembly::Statement<Register>>> {
        let start = Emission { statements: prior, next: 0 };
        if self.dead(statement) {
            Some(prior)
        } else {
            match self.rewrite_spec(start, statement) {
                Some((after, rewritten)) => Some(if omitted(rewritten) {
                    after.statements
                } else {
                    after.statements.push(rewritten)
                }),
                None => None,
            }
        }
    }
}

impl Allocator {
    pub open spec fn plan(self) -> Plan {
        Plan {
            callee_arguments: self.callee_arguments,
            callee_returns: self.callee_returns,
            allocated: self.allocated@,
            spilled: self.spilled@,
            reserved: self.shuttle_reserved@,
        }
    }
}

/// Rewrites the temporaries of an assembly function into registers, given a
/// register for some temporaries and a stack slot for the others, using the
/// reserved shuttle registers to move spilled values through.
pub struct Allocator {
    pub callee_arguments: Option<usize>,
    pub callee_returns: Option<usize>,
    pub allocated: KeyMap<Temporary, Register>,
    pub spilled: KeyMap<Temporary, usize>,
    pub statements: Vec<assembly::Statement<Register>>,
    /// All registers reserved for shuttling.
    pub shuttle_reserved: Vec<Register>,
    /// Position of the first shuttle register unused in the current statement.
    pub shuttle_next: usize,
}

impl Allocator {
    pub open spec fn wf(self) -> bool {
        &&& self.allocated.wf()
        &&& self.spilled.wf()
        &&& self.shuttle_next <= self.shuttle_reserved@.len()
    }

    pub open spec fn emission(self) -> Emission {
        Emission { statements: self.statements@, next: self.shuttle_next as nat }
    }

    /// Where `temporary` lives.
    pub fn allocate(&self, temporary: &Temporary) -> (location: Location)
        requires
            self.wf(),
            self.plan().locatable(*temporary),
        ensures
            location == self.plan().location(*temporary),
    {
        if let Temporary::Register(register) = temporary {
            return Location::Register(*register);
        }
        if let Some(register) = self.allocated.get(temporary) {
            return Location::Register(*register);
        }
        let index = match self.spilled.get(temporary) {
            Some(index) => *index,
            None => {
                assert(false);
                0
            },
        };
        let offset = abi::stack_offset(self.callee_arguments, self.callee_returns, index);
        Location::Memory(Memory::BO { base: Register::rsp(), offset: Immediate::Integer(offset as i64) })
    }

    /// Emit `binary` into `destination`, or into the next unused shuttle
    /// register when no destination is given; `None` when none is left.
    pub fn shuttle(&mut self, binary: assembly::Binary, destination: Option<Register>, source: operand::Unary<Register>) -> (register: Option<Register>)
        requires
            old(self).wf(),
        ensures
            final(self).wf(),
            final(self).callee_arguments == old(self).callee_arguments,
            final(self).callee_returns == old(self).callee_returns,
            final(self).allocated == old(self).allocated,
            final(self).spilled == old(self).spilled,
            final(self).shuttle_reserved == old(self).shuttle_reserved,
            match shuttle_spec(old(self).plan().reserved, old(self).emission(), binary, destination, source) {
                Some((emission, shuttle)) => register == Some(shuttle) && final(self).emission() == emission,
                None => register is None,
            },
    {
        let destination = match destination {
            Some(destination) => destination,
            None => {
                if self.shuttle_next >= self.shuttle_reserved.len() {
                    return None;
                }
                let register = self.shuttle_reserved[self.shuttle_next];
                self.shuttle_next = self.shuttle_next + 1;
                register
            },
        };
        let operands = match source {
            operand::Unary::R(register) => operand::Binary::RR { destination, source: register },
            operand::Unary::M(memory) => operand::Binary::RM { destination, source: memory },
            operand::Unary::I(immediate) => operand::Binary::RI { destination, source: immediate },
        };
        self.statements.push(assembly::Statement::Binary(binary, operands));
        Some(destination)
    }

    fn load(&mut self, location: Location) -> (register: Option<Register>)
        requires
            old(self).wf(),
        ensures
            final(self).wf(),
            final(self).callee_arguments == old(self).callee_arguments,
            final(self).callee_returns == old(self).callee_returns,
            final(self).allocated == old(self).allocated,
            final(self).spilled == old(self).spilled,
            final(self).shuttle_reserved == old(self).shuttle_reserved,
            match in_register(old(self).plan().reserved, old(self).emission(), location) {
                Some((emission, loaded)) => register == Some(loaded) && final(self).emission() == emission,
                None => register is None,
            },
    {
        match location {
            Location::Register(register) => Some(register),
            Location::Memory(memory) => self.shuttle(assembly::Binary::Mov, None, operand::Unary::M(memory)),
        }
    }

    /// Rewrite a memory operand over temporaries into one over registers,
    /// computing its address into shuttle registers where its parts are spilled.
    pub fn allocate_memory(&mut self, memory: &Memory<Temporary>) -> (allocated: Option<Memory<Register>>)
        requires
            old(self).wf(),
            old(self).plan().memory_locatable(*memory),
        ensures
            final(self).wf(),
            final(self).callee_arguments == old(self).callee_arguments,
            final(self).callee_returns == old(self).callee_returns,
            final(self).allocated == old(self).allocated,
            final(self).spilled == old(self).spilled,
            final(self).shuttle_reserved == old(self).shuttle_reserved,
            match old(self).plan().memory_spec(old(self).emission(), *memory) {
                Some((emission, rewritten)) => allocated == Some(rewritten) && final(self).emission() == emission,
                None => allocated is None,
            },
    {
        let (base, index, scale, offset) = match memory {
            Memory::O { offset } => return Some(Memory::O { offset: *offset }),
            Memory::B { base } => {
                assert(memory.operands()[0] == *base);
                let location = self.allocate(base);
                return match self.load(location) {
                    Some(base) => Some(Memory::B { base }),
                    None => None,
                };
            },
            Memory::BO { base, offset } => {
                assert(memory.operands()[0] == *base);
                let location = self.allocate(base);
                return match self.load(location) {
                    Some(base) => Some(Memory::BO { base, offset: *offset }),
                    None => None,
                };
            },
            Memory::ISO { index, scale, offset } => {
                assert(memory.operands()[0] == *index);
                let location = self.allocate(index);
                return match self.load(location) {
                    Some(index) => Some(Memory::ISO { index, scale: *scale, offset: *offset }),
                    None => None,
                };
            },
            Memory::BI { base, index } => (base, index, None, None),
            Memory::BIO { base, index, offset } => (base, index, None, Some(*offset)),
            Memory::BIS { base, index, scale } => (base, index, Some(*scale), None),
            Memory::BISO { base, index, scale, offset } => (base, index, Some(*scale), Some(*offset)),
        };
        assert(memory.operands()[0] == *base && memory.operands()[1] == *index);
        let base_location = self.allocate(base);
        let index_location = self.allocate(index);
        match (base_location, index_location) {
            (Location::Register(base), Location::Register(index)) => {
                return Some(match (scale, offset) {
                    (None, None) => Memory::BI { base, index },
                    (Some(scale), None) => Memory::BIS { base, index, scale },
                    (None, Some(offset)) => Memory::BIO { base, index, offset },
                    (Some(scale), Some(offset)) => Memory::BISO { base, index, scale, offset },
                });
            },
            _ => {},
        }
        let index_operand = match index_location {
            Location::Register(register) => operand::Unary::R(register),
            Location::Memory(memory) => operand::Unary::M(memory),
        };
        let shuttle = match self.shuttle(assembly::Binary::Mov, None, index_operand) {
            Some(shuttle) => shuttle,
            None => return None,
        };
        let amount: Option<i64> = match scale {
            Some(Scale::_2) => Some(1),
            Some(Scale::_4) => Some(2),
            Some(Scale::_8) => Some(3),
            _ => None,
        };
        if let Some(amount) = amount {
            self.shuttle(assembly::Binary::Shl, Some(shuttle), operand::Unary::I(Immediate::Integer(amount)));
        }
        if let Some(offset) = offset {
            self.shuttle(assembly::Binary::Add, Some(shuttle), operand::Unary::I(offset));
        }
        let base_operand = match base_location {
            Location::Register(register) => operand::Unary::R(register),
            Location::Memory(memory) => operand::Unary::M(memory),
        };
        self.shuttle(assembly::Binary::Add, Some(shuttle), base_operand);
        Some(Memory::B { base: shuttle })
    }
}

impl Allocator {

    fn combine(&mut self, destination: Location, source: Location) -> (combined: Option<operand::Binary<Register>>)
        requires
            old(self).wf(),
        ensures
            final(self).wf(),
            final(self).callee_arguments == old(self).callee_arguments,
            final(self).callee_returns == old(self).callee_returns,
            final(self).allocated == old(self).allocated,
            final(self).spilled == old(self).spilled,
            final(self).shuttle_reserved == old(self).shuttle_reserved,
            match old(self).plan().combine_spec(old(self).emission(), destination, source) {
                Some((emission, binary)) => combined == Some(binary) && final(self).emission() == emission,
                None => combined is None,
            },
    {
        match (destination, source) {
            (Location::Register(destination), Location::Register(source)) => Some(operand::Binary::RR { destination, source }),
            (Location::Register(destination), Location::Memory(source)) => Some(operand::Binary::RM { destination, source }),
            (Location::Memory(destination), Location::Register(source)) => Some(operand::Binary::MR { destination, source }),
            (Location::Memory(destination), Location::Memory(source)) => match self.shuttle(assembly::Binary::Mov, None, operand::Unary::M(source)) {
                Some(shuttle) => Some(operand::Binary::MR { destination, source: shuttle }),
                None => None,
            },
        }
    }

    /// Rewrite the operands of a two-operand instruction into registers and stack slots.
    pub fn allocate_binary(&mut self, binary: &operand::Binary<Temporary>) -> (allocated: Option<operand::Binary<Register>>)
        requires
            old(self).wf(),
            old(self).plan().binary_locatable(*binary),
        ensures
            final(self).wf(),
            final(self).callee_arguments == old(self).callee_arguments,
            final(self).callee_returns == old(self).callee_returns,
            final(self).allocated == old(self).allocated,
            final(self).spilled == old(self).spilled,
            final(self).shuttle_reserved == old(self).shuttle_reserved,
            match old(self).plan().binary_spec(old(self).emission(), *binary) {
                Some((emission, rewritten)) => allocated == Some(rewritten) && final(self).emission() == emission,
                None => allocated is None,
            },
    {
        match binary {
            operand::Binary::RI { destination, source } => {
                assert(binary.spec_destination().operands()[0] == *destination);
                Some(match self.allocate(destination) {
                    Location::Register(register) => operand::Binary::RI { destination: register, source: *source },
                    Location::Memory(memory) => operand::Binary::MI { destination: memory, source: *source },
                })
            },
            operand::Binary::MI { destination, source } => match self.allocate_memory(destination) {
                Some(memory) => Some(operand::Binary::MI { destination: memory, source: *source }),
                None => None,
            },
            operand::Binary::MR { destination, source } => {
                assert(binary.spec_source().operands()[0] == *source);
                let source = self.allocate(source);
                match self.allocate_memory(destination) {
                    Some(memory) => self.combine(Location::Memory(memory), source),
                    None => None,
                }
            },
            operand::Binary::RM { destination, source } => {
                assert(binary.spec_destination().operands()[0] == *destination);
                let destination = self.allocate(destination);
                match self.allocate_memory(source) {
                    Some(memory) => self.combine(destination, Location::Memory(memory)),
                    None => None,
                }
            },
            operand::Binary::RR { destination, source } => {
                assert(binary.spec_destination().operands()[0] == *destination);
                assert(binary.spec_source().operands()[0] == *source);
                let destination = self.allocate(destination);
                let source = self.allocate(source);
                self.combine(destination, source)
            },
        }
    }

    /// Rewrite a single operand into a register, stack slot or immediate.
    pub fn allocate_unary(&mut self, unary: &operand::Unary<Temporary>) -> (allocated: Option<operand::Unary<Register>>)
        requires
            old(self).wf(),
            old(self).plan().operands_locatable(unary.operands()),
        ensures
            final(self).wf(),
            final(self).callee_arguments == old(self).callee_arguments,
            final(self).callee_returns == old(self).callee_returns,
            final(self).allocated == old(self).allocated,
            final(self).spilled == old(self).spilled,
            final(self).shuttle_reserved == old(self).shuttle_reserved,
            match old(self).plan().unary_spec(old(self).emission(), *unary) {
                Some((emission, rewritten)) => allocated == Some(rewritten) && final(self).emission() == emission,
                None => allocated is None,
            },
    {
        match unary {
            operand::Unary::I(immediate) => Some(operand::Unary::I(*immediate)),
            operand::Unary::R(temporary) => {
                assert(unary.operands()[0] == *temporary);
                Some(match self.allocate(temporary) {
                    Location::Register(register) => operand::Unary::R(register),
                    Location::Memory(memory) => operand::Unary::M(memory),
                })
            },
            operand::Unary::M(memory) => {
                assert(memory.operands() == unary.operands());
                match self.allocate_memory(memory) {
                    Some(memory) => Some(operand::Unary::M(memory)),
                    None => None,
                }
            },
        }
    }
}

/// A move or address computation whose destination is a temporary.
pub open spec fn writes_temporary(statement: assembly::Statement<Temporary>) -> Option<Temporary> {
    match statement {
        assembly::Statement::Binary(assembly::Binary::Mov, operands)
        | assembly::Statement::Binary(assembly::Binary::Lea, operands) => match operands {
            operand::Binary::RI { destination, .. }
            | operand::Binary::RM { destination, .. }
            | operand::Binary::RR { destination, .. } => if destination is Register {
                None
            } else {
                Some(destination)
            },
            _ => None,
        },
        _ => None,
    }
}

/// Statements left out of the output: moves of a register to itself, and `nop`.
pub open spec fn omitted(statement: assembly::Statement<Register>) -> bool {
    match statement {
        assembly::Statement::Binary(assembly::Binary::Mov, operand::Binary::RR { destination, source }) => destination@ == source@,
        assembly::Statement::Nullary(assembly::Nullary::Nop) => true,
        _ => false,
    }
}

impl Allocator {

    /// The product of `imul` with a memory destination, computed in a shuttle register.
    fn multiply(&mut self, rewritten: operand::Binary<Register>) -> (statement: Option<assembly::Statement<Register>>)
        requires
            old(self).wf(),
        ensures
            final(self).wf(),
            final(self).callee_arguments == old(self).callee_arguments,
            final(self).callee_returns == old(self).callee_returns,
            final(self).allocated == old(self).allocated,
            final(self).spilled == old(self).spilled,
            final(self).shuttle_reserved == old(self).shuttle_reserved,
            match (match rewritten {
                operand::Binary::MI { destination, source } => match shuttle_spec(old(self).plan().reserved, old(self).emission(), assembly::Binary::Mov, None, operand::Unary::M(destination)) {
                    Some((loaded, shuttle)) => Some((
                        shuttle_spec(old(self).plan().reserved, loaded, assembly::Binary::Mul, Some(shuttle), operand::Unary::I(source)).unwrap().0,
                        assembly::Statement::Binary(assembly::Binary::Mov, operand::Binary::MR { destination, source: shuttle }),
                    )),
                    None => None,
                },
                operand::Binary::MR { destination, source } => match shuttle_spec(old(self).plan().reserved, old(self).emission(), assembly::Binary::Mov, None, operand::Unary::M(destination)) {
                    Some((loaded, shuttle)) => Some((
                        shuttle_spec(old(self).plan().reserved, loaded, assembly::Binary::Mul, Some(shuttle), operand::Unary::R(source)).unwrap().0,
                        assembly::Statement::Binary(assembly::Binary::Mov, operand::Binary::MR { destination, source: shuttle }),
                    )),
                    None => None,
                },
                _ => Some((old(self).emission(), assembly::Statement::Binary(assembly::Binary::Mul, rewritten))),
            }) {
                Some((emission, result)) => statement == Some(result) && final(self).emission() == emission,
                None => statement is None,
            },
    {
        match rewritten {
            operand::Binary::MI { destination, source } => {
                let shuttle = match self.shuttle(assembly::Binary::Mov, None, operand::Unary::M(destination)) {
                    Some(shuttle) => shuttle,
                    None => return None,
                };
                self.shuttle(assembly::Binary::Mul, Some(shuttle), operand::Unary::I(source));
                Some(assembly::Statement::Binary(assembly::Binary::Mov, operand::Binary::MR { destination, source: shuttle }))
            },
            operand::Binary::MR { destination, source } => {
                let shuttle = match self.shuttle(assembly::Binary::Mov, None, operand::Unary::M(destination)) {
                    Some(shuttle) => shuttle,
                    None => return None,
                };
                self.shuttle(assembly::Binary::Mul, Some(shuttle), operand::Unary::R(source));
                Some(assembly::Statement::Binary(assembly::Binary::Mov, operand::Binary::MR { destination, source: shuttle }))
            },
            _ => Some(assembly::Statement::Binary(assembly::Binary::Mul, rewritten)),
        }
    }

    /// The statement over registers and stack slots, after the statements it needs first.
    fn rewrite(&mut self, statement: &assembly::Statement<Temporary>) -> (rewritten: Option<assembly::Statement<Register>>)
        requires
            old(self).wf(),
            !old(self).plan().dead(*statement),
            old(self).plan().statement_locatable(*statement),
        ensures
            final(self).wf(),
            final(self).callee_arguments == old(self).callee_arguments,
            final(self).callee_returns == old(self).callee_returns,
            final(self).allocated == old(self).allocated,
            final(self).spilled == old(self).spilled,
            final(self).shuttle_reserved == old(self).shuttle_reserved,
            match old(self).plan().rewrite_spec(old(self).emission(), *statement) {
                Some((emission, result)) => rewritten == Some(result) && final(self).emission() == emission,
                None => rewritten is None,
            },
    {
        reveal(Plan::rewrite_spec);
        match statement {
            assembly::Statement::Binary(assembly::Binary::Mov, operand::Binary::RI { destination, source }) if source.is_64_bit() => {
                assert(operand::Binary::<Temporary>::RI { destination: *destination, source: *source }.spec_destination().operands()[0] == *destination);
                match self.allocate(destination) {
                    Location::Register(register) => Some(assembly::Statement::Binary(
                        assembly::Binary::Mov,
                        operand::Binary::RI { destination: register, source: *source },
                    )),
                    Location::Memory(memory) => match self.shuttle(assembly::Binary::Mov, None, operand::Unary::I(*source)) {
                        Some(shuttle) => Some(assembly::Statement::Binary(
                            assembly::Binary::Mov,
                            operand::Binary::MR { destination: memory, source: shuttle },
                        )),
                        None => None,
                    },
                }
            },
            assembly::Statement::Binary(assembly::Binary::Mul, operands) => match self.allocate_binary(operands) {
                Some(rewritten) => self.multiply(rewritten),
                None => None,
            },
            assembly::Statement::Binary(binary, operands) => match self.allocate_binary(operands) {
                Some(rewritten) => Some(assembly::Statement::Binary(*binary, rewritten)),
                None => None,
            },
            assembly::Statement::Unary(unary, operand) => match self.allocate_unary(operand) {
                Some(rewritten) => Some(assembly::Statement::Unary(*unary, rewritten)),
                None => None,
            },
            assembly::Statement::Nullary(nullary) => Some(assembly::Statement::Nullary(*nullary)),
            assembly::Statement::Label(label) => Some(assembly::Statement::Label(*label)),
            assembly::Statement::Jmp(label) => Some(assembly::Statement::Jmp(*label)),
            assembly::Statement::Jcc(condition, label) => Some(assembly::Statement::Jcc(*condition, *label)),
        }
    }

    /// Rewrite one statement, appending it (after the statements it needs) to
    /// the output; `None` when it needs more shuttle registers than are reserved.
    pub fn allocate_statement(&mut self, statement: &assembly::Statement<Temporary>) -> (done: Option<()>)
        requires
            old(self).wf(),
            old(self).plan().statement_locatable(*statement),
        ensures
            final(self).wf(),
            final(self).callee_arguments == old(self).callee_arguments,
            final(self).callee_returns == old(self).callee_returns,
            final(self).allocated == old(self).allocated,
            final(self).spilled == old(self).spilled,
            final(self).shuttle_reserved == old(self).shuttle_reserved,
            match old(self).plan().step(old(self).statements@, *statement) {
                Some(statements) => done is Some && final(self).statements@ == statements,
                None => done is None,
            },
    {
        self.shuttle_next = 0;
        let dead = match statement {
            assembly::Statement::Binary(assembly::Binary::Mov, operands)
            | assembly::Statement::Binary(assembly::Binary::Lea, operands) => match operands {
                operand::Binary::RI { destination, .. }
                | operand::Binary::RM { destination, .. }
                | operand::Binary::RR { destination, .. } => !destination.is_register()
                    && !self.allocated.contains_key(destination) && !self.spilled.contains_key(destination),
                _ => false,
            },
            _ => false,
        };
        if dead {
            return Some(());
        }
        let rewritten = match self.rewrite(statement) {
            Some(rewritten) => rewritten,
            None => return None,
        };
        let skip = match rewritten {
            assembly::Statement::Binary(assembly::Binary::Mov, operand::Binary::RR { destination, source }) => destination == source,
            assembly::Statement::Nullary(assembly::Nullary::Nop) => true,
            _ => false,
        };
        if !skip {
            self.statements.push(rewritten);
        }
        Some(())
    }
}

/// The output of allocating each of `statements` in turn, or `None` if one of
/// them needs more shuttle registers than are reserved.
pub open spec fn emit_all(plan: Plan, statements: Seq<assembly::Statement<Temporary>>) -> Option<Seq<assembly::Statement<Register>>>
    decreases statements.len(),
{
    if statements.len() == 0 {
        Some(Seq::empty())
    } else {
        match emit_all(plan, statements.drop_last()) {
            Some(prior) => plan.step(prior, statements.last()),
            None => None,
        }
    }
}

/// A memory operand based at the stack pointer placeholder, rebased at the
/// stack pointer `delta` bytes further.
pub open spec fn rebase(memory: Memory<Register>, delta: int) -> Memory<Register> {
    match memory {
        Memory::BO { base: Register::Rsp(false), offset: Immediate::Integer(offset) } => Memory::BO {
            base: Register::Rsp(true),
            offset: Immediate::Integer((offset + delta) as i64),
        },
        Memory::BIO { base: Register::Rsp(false), index, offset: Immediate::Integer(offset) } => Memory::BIO {
            base: Register::Rsp(true),
            index,
            offset: Immediate::Integer((offset + delta) as i64),
        },
        Memory::BISO { base: Register::Rsp(false), index, scale, offset: Immediate::Integer(offset) } => Memory::BISO {
            base: Register::Rsp(true),
            index,
            scale,
            offset: Immediate::Integer((offset + delta) as i64),
        },
        _ => memory,
    }
}

/// The memory operand of a statement, if it has one.
pub open spec fn memory_of(statement: assembly::Statement<Register>) -> Option<Memory<Register>> {
    match statement {
        assembly::Statement::Binary(_, operand::Binary::MI { destination, .. })
        | assembly::Statement::Binary(_, operand::Binary::MR { destination, .. }) => Some(destination),
        assembly::Statement::Binary(_, operand::Binary::RM { source, .. }) => Some(source),
        assembly::Statement::Unary(_, operand::Unary::M(memory)) => Some(memory),
        _ => None,
    }
}

/// Rebasing the memory operand of `statement` can be done: a placeholder-based
/// operand has an integer offset, which stays within `i64` once moved.
pub open spec fn rebasable(statement: assembly::Statement<Register>, delta: int) -> bool {
    match memory_of(statement) {
        Some(Memory::BO { base: Register::Rsp(false), offset })
        | Some(Memory::BIO { base: Register::Rsp(false), offset, .. })
        | Some(Memory::BISO { base: Register::Rsp(false), offset, .. }) => match offset {
            Immediate::Integer(offset) => i64::MIN <= offset + delta <= i64::MAX,
            Immediate::Label(_) => false,
        },
        _ => true,
    }
}

pub open spec fn rebase_statement(statement: assembly::Statement<Register>, delta: int) -> assembly::Statement<Register> {
    match statement {
        assembly::Statement::Binary(binary, operand::Binary::MI { destination, source }) => assembly::Statement::Binary(
            binary,
            operand::Binary::MI { destination: rebase(destination, delta), source },
        ),
        assembly::Statement::Binary(binary, operand::Binary::MR { destination, source }) => assembly::Statement::Binary(
            binary,
            operand::Binary::MR { destination: rebase(destination, delta), source },
        ),
        assembly::Statement::Binary(binary, operand::Binary::RM { destination, source }) => assembly::Statement::Binary(
            binary,
            operand::Binary::RM { destination, source: rebase(source, delta) },
        ),
        assembly::Statement::Unary(unary, operand::Unary::M(memory)) => assembly::Statement::Unary(
            unary,
            operand::Unary::M(rebase(memory, delta)),
        ),
        _ => statement,
    }
}

/// How far the stack pointer is from the placeholder base: the stack size, and
/// the saved frame pointer if it is kept.
pub open spec fn rebase_delta(frame_pointer: abi::FramePointer, stack_size: int) -> int {
    stack_size + match frame_pointer {
        abi::FramePointer::Keep => 8int,
        abi::FramePointer::Omit => 0int,
    }
}

fn rebase_memory(memory: &mut Memory<Register>, delta: i64)
    requires
        match *old(memory) {
            Memory::BO { base: Register::Rsp(false), offset }
            | Memory::BIO { base: Register::Rsp(false), offset, .. }
            | Memory::BISO { base: Register::Rsp(false), offset, .. } => match offset {
                Immediate::Integer(offset) => i64::MIN <= offset + delta <= i64::MAX,
                Immediate::Label(_) => false,
            },
            _ => true,
        },
    ensures
        *final(memory) == rebase(*old(memory), delta as int),
{
    let rebased = match *memory {
        Memory::BO { base: Register::Rsp(false), offset: Immediate::Integer(offset) } => Memory::BO {
            base: Register::Rsp(true),
            offset: Immediate::Integer(offset + delta),
        },
        Memory::BIO { base: Register::Rsp(false), index, offset: Immediate::Integer(offset) } => Memory::BIO {
            base: Register::Rsp(true),
            index,
            offset: Immediate::Integer(offset + delta),
        },
        Memory::BISO { base: Register::Rsp(false), index, scale, offset: Immediate::Integer(offset) } => Memory::BISO {
            base: Register::Rsp(true),
            index,
            scale,
            offset: Immediate::Integer(offset + delta),
        },
        other => other,
    };
    *memory = rebased;
}

/// Rewrite a memory operand based at the stack pointer placeholder (used for
/// the caller's stack slots of extra results) as one based at the stack pointer,
/// once the stack size is known.
pub fn rewrite_rbp(frame_pointer: abi::FramePointer, stack_size: i64, statement: &mut assembly::Statement<Register>)
    requires
        i64::MIN <= rebase_delta(frame_pointer, stack_size as int) <= i64::MAX,
        rebasable(*old(statement), rebase_delta(frame_pointer, stack_size as int)),
    ensures
        *final(statement) == rebase_statement(*old(statement), rebase_delta(frame_pointer, stack_size as int)),
{
    let delta = stack_size + match frame_pointer {
        abi::FramePointer::Keep => 8,
        abi::FramePointer::Omit => 0,
    };
    let rebased = match *statement {
        assembly::Statement::Binary(binary, operand::Binary::MI { destination, source }) => {
            let mut destination = destination;
            rebase_memory(&mut destination, delta);
            assembly::Statement::Binary(binary, operand::Binary::MI { destination, source })
        },
        assembly::Statement::Binary(binary, operand::Binary::MR { destination, source }) => {
            let mut destination = destination;
            rebase_memory(&mut destination, delta);
            assembly::Statement::Binary(binary, operand::Binary::MR { destination, source })
        },
        assembly::Statement::Binary(binary, operand::Binary::RM { destination, source }) => {
            let mut source = source;
            rebase_memory(&mut source, delta);
            assembly::Statement::Binary(binary, operand::Binary::RM { destination, source })
        },
        assembly::Statement::Unary(unary, operand::Unary::M(memory)) => {
            let mut memory = memory;
            rebase_memory(&mut memory, delta);
            assembly::Statement::Unary(unary, operand::Unary::M(memory))
        },
        other => other,
    };
    *statement = rebased;
}

/// A statement moving the stack pointer by `size` bytes (`sub` or `add`).
pub open spec fn adjust(binary: assembly::Binary, size: int) -> assembly::Statement<Register> {
    assembly::Statement::Binary(binary, operand::Binary::RI {
        destination: Register::Rsp(true),
        source: Immediate::Integer(size as i64),
    })
}

/// Position just after the prologue: the entry label, and with a kept frame
/// pointer also `push rbp` and `mov rbp, rsp`.
pub open spec fn prologue_end(frame_pointer: abi::FramePointer) -> int {
    match frame_pointer {
        abi::FramePointer::Keep => 3,
        abi::FramePointer::Omit => 1,
    }
}

/// Position of the epilogue in a body of `len` statements: the `ret`, and with a
/// kept frame pointer also the `pop rbp` before it.
pub open spec fn epilogue_start(frame_pointer: abi::FramePointer, len: int) -> int {
    match frame_pointer {
        abi::FramePointer::Keep => len - 2,
        abi::FramePointer::Omit => len - 1,
    }
}

/// The allocated body once its frame of `stack_size` bytes is laid out: operands
/// based at the stack pointer placeholder rebased, and, for a nonempty frame, the
/// stack pointer lowered after the prologue and raised again before the epilogue.
pub open spec fn lay_out(
    frame_pointer: abi::FramePointer,
    stack_size: int,
    statements: Seq<assembly::Statement<Register>>,
) -> Seq<assembly::Statement<Register>> {
    let delta = rebase_delta(frame_pointer, stack_size);
    let rebased = statements.map_values(|statement: assembly::Statement<Register>| rebase_statement(statement, delta));
    if stack_size > 0 {
        let lowered = rebased.insert(prologue_end(frame_pointer), adjust(assembly::Binary::Sub, stack_size));
        lowered.insert(epilogue_start(frame_pointer, lowered.len() as int), adjust(assembly::Binary::Add, stack_size))
    } else {
        rebased
    }
}

/// The allocated body starts at the entry label and ends in the `ret`, has room
/// for the prologue, and each of its operands can be rebased.
pub open spec fn framed(
    frame_pointer: abi::FramePointer,
    stack_size: int,
    enter: operand::Label,
    returned: usize,
    statements: Seq<assembly::Statement<Register>>,
) -> bool {
    &&& statements.len() > 0
    &&& statements[0] == assembly::Statement::<Register>::Label(enter)
    &&& statements.last() == assembly::Statement::<Register>::Nullary(assembly::Nullary::Ret(returned))
    &&& stack_size > 0 ==> prologue_end(frame_pointer) <= statements.len()
    &&& forall|i: int| 0 <= i < statements.len() ==> rebasable(#[trigger] statements[i], rebase_delta(frame_pointer, stack_size))
}

pub open spec fn usize_option(value: Option<nat>) -> Option<usize> {
    match value {
        Some(value) => Some(value as usize),
        None => None,
    }
}

/// The plan for `function` with the given registers, stack slots and shuttle registers.
pub open spec fn plan_for(
    function: assembly::Function<Temporary>,
    allocated: Map<Temporary, Register>,
    spilled: Map<Temporary, usize>,
    reserved: Seq<Register>,
) -> Plan {
    Plan {
        callee_arguments: usize_option(assembly::spec_callee(function.statements@, false)),
        callee_returns: usize_option(assembly::spec_callee(function.statements@, true)),
        allocated,
        spilled,
        reserved,
    }
}

/// Stack size in bytes for `plan`.
pub open spec fn frame_size(frame_pointer: abi::FramePointer, plan: Plan) -> int {
    abi::spec_stack_words(frame_pointer, plan.callee_arguments, plan.callee_returns, plan.spilled.len() as usize) * 8
}

proof fn lemma_emit_all_prefix(plan: Plan, statements: Seq<assembly::Statement<Temporary>>, count: int)
    requires
        0 <= count <= statements.len(),
        emit_all(plan, statements.take(count)) is None,
    ensures
        emit_all(plan, statements) is None,
    decreases statements.len(),
{
    if count < statements.len() {
        assert(statements.drop_last().take(count) =~= statements.take(count));
        lemma_emit_all_prefix(plan, statements.drop_last(), count);
    } else {
        assert(statements.take(count) =~= statements);
    }
}

fn copy_registers(registers: &Vec<Register>) -> (copy: Vec<Register>)
    ensures
        copy@ == registers@,
{
    let mut copy: Vec<Register> = Vec::new();
    let mut index: usize = 0;
    while index < registers.len()
        invariant
            index <= registers@.len(),
            copy@ == registers@.take(index as int),
        decreases registers@.len() - index,
    {
        assert(registers@.take(index + 1) =~= registers@.take(index as int).push(registers@[index as int]));
        copy.push(registers[index]);
        index += 1;
    }
    assert(registers@.take(index as int) =~= registers@);
    copy
}

/// Allocate `function` with the given registers and stack slots, moving spilled
/// values through the `shuttle` registers; `None` when a statement needs more
/// shuttle registers than there are.
pub fn allocate(
    frame_pointer: abi::FramePointer,
    shuttle: &Vec<Register>,
    allocated: KeyMap<Temporary, Register>,
    spilled: KeyMap<Temporary, usize>,
    function: &assembly::Function<Temporary>,
) -> (result: Option<assembly::Function<Register>>)
    requires
        allocated.wf(),
        spilled.wf(),
        forall|i: int| 0 <= i < function.statements@.len()
            ==> plan_for(*function, allocated@, spilled@, shuttle@).statement_locatable(#[trigger] function.statements@[i]),
        (abi::spec_unaligned_words(
            usize_option(assembly::spec_callee(function.statements@, false)),
            usize_option(assembly::spec_callee(function.statements@, true)),
            spilled@.len() as usize,
        ) + 2) * 8 <= i64::MAX,
        (abi::spec_unaligned_words(
            usize_option(assembly::spec_callee(function.statements@, false)),
            usize_option(assembly::spec_callee(function.statements@, true)),
            spilled@.len() as usize,
        ) + 1) * 8 <= usize::MAX,
        emit_all(plan_for(*function, allocated@, spilled@, shuttle@), function.statements@) matches Some(body)
            ==> framed(frame_pointer, frame_size(frame_pointer, plan_for(*function, allocated@, spilled@, shuttle@)),
                function.enter, function.returned, body),
    ensures
        match emit_all(plan_for(*function, allocated@, spilled@, shuttle@), function.statements@) {
            Some(body) => result matches Some(allocated_function) && {
                &&& allocated_function.statements@ == lay_out(
                    frame_pointer,
                    frame_size(frame_pointer, plan_for(*function, allocated@, spilled@, shuttle@)),
                    body,
                )
                &&& allocated_function.name == function.name
                &&& allocated_function.arguments == function.arguments
                &&& allocated_function.returned == function.returned
                &&& allocated_function.linkage == function.linkage
                &&& allocated_function.enter == function.enter
                &&& allocated_function.exit == function.exit
            },
            None => result is None,
        },
{
    let ghost plan = plan_for(*function, allocated@, spilled@, shuttle@);
    let ghost statements = function.statements@;
    proof {
        spilled.lemma_size();
    }
    let callee_arguments = function.callee_arguments();
    let callee_returns = function.callee_returns();
    let mut allocator = Allocator {
        callee_arguments,
        callee_returns,
        allocated,
        spilled,
        statements: Vec::new(),
        shuttle_reserved: copy_registers(shuttle),
        shuttle_next: 0,
    };
    assert(allocator.plan() == plan);
    let mut index: usize = 0;
    while index < function.statements.len()
        invariant
            allocator.wf(),
            allocator.plan() == plan,
            plan == plan_for(*function, allocated@, spilled@, shuttle@),
            statements == function.statements@,
            index <= statements.len(),
            emit_all(plan, statements.take(index as int)) == Some(allocator.statements@),
            forall|i: int| 0 <= i < statements.len() ==> plan.statement_locatable(#[trigger] statements[i]),
        decreases statements.len() - index,
    {
        assert(statements.take(index + 1).drop_last() =~= statements.take(index as int));
        assert(statements.take(index + 1).last() == statements[index as int]);
        match allocator.allocate_statement(&function.statements[index]) {
            Some(()) => {},
            None => {
                proof {
                    assert(emit_all(plan, statements.take(index + 1)) is None);
                    lemma_emit_all_prefix(plan, statements, index + 1);
                }
                return None;
            },
        }
        index += 1;
    }
    assert(statements.take(index as int) =~= statements);
    let ghost body = allocator.statements@;
    let ghost size = frame_size(frame_pointer, plan);
    proof {
        allocator.spilled.lemma_size();
    }
    let count = allocator.spilled.len();
    let stack_size = abi::stack_size(frame_pointer, allocator.callee_arguments, allocator.callee_returns, count) as i64;
    assert(stack_size == size);
    let mut statements_out = allocator.statements;
    let mut position: usize = 0;
    while position < statements_out.len()
        invariant
            statements_out@.len() == body.len(),
            position <= body.len(),
            framed(frame_pointer, size, function.enter, function.returned, body),
            stack_size == size,
            0 <= size,
            size + 8 <= i64::MAX,
            forall|i: int| 0 <= i < position ==> statements_out@[i] == rebase_statement(body[i], rebase_delta(frame_pointer, size)),
            forall|i: int| position <= i < body.len() ==> statements_out@[i] == body[i],
        decreases body.len() - position,
    {
        let mut statement = statements_out[position];
        assert(rebasable(body[position as int], rebase_delta(frame_pointer, size)));
        rewrite_rbp(frame_pointer, stack_size, &mut statement);
        statements_out.set(position, statement);
        position += 1;
    }
    let ghost rebased = body.map_values(|statement: assembly::Statement<Register>| rebase_statement(statement, rebase_delta(frame_pointer, size)));
    assert(statements_out@ =~= rebased);
    if stack_size > 0 {
        let first: usize = match frame_pointer {
            abi::FramePointer::Keep => 3,
            abi::FramePointer::Omit => 1,
        };
        statements_out.insert(first, assembly::Statement::Binary(assembly::Binary::Sub, operand::Binary::RI {
            destination: Register::Rsp(true),
            source: Immediate::Integer(stack_size),
        }));
        let len = statements_out.len();
        let last: usize = match frame_pointer {
            abi::FramePointer::Keep => len - 2,
            abi::FramePointer::Omit => len - 1,
        };
        statements_out.insert(last, assembly::Statement::Binary(assembly::Binary::Add, operand::Binary::RI {
            destination: Register::Rsp(true),
            source: Immediate::Integer(stack_size),
        }));
    }
    Some(assembly::Function {
        name: function.name,
        arguments: function.arguments,
        returned: function.returned,
        statements: statements_out,
        linkage: function.linkage,
        enter: function.enter,
        exit: function.exit,
    })
}

/// Keep the frame pointer when the function pushes `rbp` right after its label.
pub open spec fn spec_frame_pointer(statements: Seq<assembly::Statement<Temporary>>) -> abi::FramePointer {
    if statements.len() > 1 && statements[1] matches assembly::Statement::Unary(
        assembly::Unary::Push,
        operand::Unary::R(Temporary::Register(Register::Rbp)),
    ) {
        abi::FramePointer::Keep
    } else {
        abi::FramePointer::Omit
    }
}

/// The shuttle registers of the trivial allocator.
pub open spec fn trivial_shuttles() -> Seq<Register> {
    seq![Register::R11, Register::R10, Register::R9, Register::R8]
}

/// The trivial plan: no temporary in a register, each in its own stack slot.
pub open spec fn trivial_plan(function: assembly::Function<Temporary>) -> Plan {
    plan_for(function, Map::empty(), trivial::spec_allocate(function.statements@), trivial_shuttles())
}

proof fn lemma_trivial_locatable(function: assembly::Function<Temporary>)
    requires
        (abi::spec_unaligned_words(
            usize_option(assembly::spec_callee(function.statements@, false)),
            usize_option(assembly::spec_callee(function.statements@, true)),
            trivial::spec_allocate(function.statements@).len() as usize,
        ) + 2) * 8 <= i64::MAX,
        (abi::spec_unaligned_words(
            usize_option(assembly::spec_callee(function.statements@, false)),
            usize_option(assembly::spec_callee(function.statements@, true)),
            trivial::spec_allocate(function.statements@).len() as usize,
        ) + 1) * 8 <= usize::MAX,
        trivial::spec_allocate(function.statements@).len() <= usize::MAX,
    ensures
        forall|i: int| 0 <= i < function.statements@.len()
            ==> trivial_plan(function).statement_locatable(#[trigger] function.statements@[i]),
{
    let statements = function.statements@;
    let plan = trivial_plan(function);
    trivial::lemma_spec_allocate(statements);
    assert forall|temporary: Temporary| #[trigger] plan.spilled.contains_key(temporary)
        implies plan.slot(plan.spilled[temporary]) <= i64::MAX && plan.slot(plan.spilled[temporary]) <= usize::MAX by {
        let index = plan.spilled[temporary];
        assert(index < plan.spilled.len());
        let count = plan.spilled.len() as usize;
        assert(count == plan.spilled.len());
        assert(abi::spec_unaligned_words(plan.callee_arguments, plan.callee_returns, index)
            < abi::spec_unaligned_words(plan.callee_arguments, plan.callee_returns, count));
    }
    assert forall|i: int| 0 <= i < statements.len() implies plan.statement_locatable(#[trigger] statements[i]) by {
        let operands = trivial::statement_operands(statements[i]);
        assert forall|j: int| 0 <= j < operands.len() implies plan.locatable(#[trigger] operands[j]) by {
            if !(operands[j] is Register) {
                assert(plan.spilled.contains_key(trivial::statement_operands(statements[i])[j]));
            }
        }
        match statements[i] {
            assembly::Statement::Binary(_, binary) => {
                let destination = binary.spec_destination().operands();
                let source = binary.spec_source().operands();
                assert(operands == destination + source);
                assert forall|j: int| 0 <= j < destination.len() implies plan.locatable(#[trigger] destination[j]) by {
                    assert(operands[j] == destination[j]);
                }
                assert forall|j: int| 0 <= j < source.len() implies plan.locatable(#[trigger] source[j]) by {
                    assert(operands[destination.len() + j] == source[j]);
                }
            },
            _ => {},
        }
    }
}

/// Allocate `function` with every temporary in its own stack slot, moving values
/// through `r11`, `r10`, `r9` and `r8` (which always suffice).
pub fn allocate_trivial(function: &assembly::Function<Temporary>) -> (allocated_function: assembly::Function<Register>)
    requires
        (abi::spec_unaligned_words(
            usize_option(assembly::spec_callee(function.statements@, false)),
            usize_option(assembly::spec_callee(function.statements@, true)),
            trivial::spec_allocate(function.statements@).len() as usize,
        ) + 2) * 8 <= i64::MAX,
        (abi::spec_unaligned_words(
            usize_option(assembly::spec_callee(function.statements@, false)),
            usize_option(assembly::spec_callee(function.statements@, true)),
            trivial::spec_allocate(function.statements@).len() as usize,
        ) + 1) * 8 <= usize::MAX,
        emit_all(trivial_plan(*function), function.statements@) matches Some(body)
            ==> framed(
                spec_frame_pointer(function.statements@),
                frame_size(spec_frame_pointer(function.statements@), trivial_plan(*function)),
                function.enter,
                function.returned,
                body,
            ),
    ensures
        allocated_function.statements@ == lay_out(
            spec_frame_pointer(function.statements@),
            frame_size(spec_frame_pointer(function.statements@), trivial_plan(*function)),
            emit_all(trivial_plan(*function), function.statements@).unwrap(),
        ),
        allocated_function.name == function.name,
        allocated_function.arguments == function.arguments,
        allocated_function.returned == function.returned,
        allocated_function.linkage == function.linkage,
        allocated_function.enter == function.enter,
        allocated_function.exit == function.exit,
{
    let allocated: KeyMap<Temporary, Register> = KeyMap::new();
    let spilled = trivial::allocate(function);
    proof {
        spilled.lemma_size();
    }
    let count = spilled.len();
    proof {
        lemma_trivial_locatable(*function);
    }
    let frame_pointer = if function.statements.len() > 1 {
        match &function.statements[1] {
            assembly::Statement::Unary(
                assembly::Unary::Push,
                operand::Unary::R(Temporary::Register(Register::Rbp)),
            ) => abi::FramePointer::Keep,
            _ => abi::FramePointer::Omit,
        }
    } else {
        abi::FramePointer::Omit
    };
    let shuttle = vec![Register::R11, Register::R10, Register::R9, Register::R8];
    assert(shuttle@ == trivial_shuttles());
    assert(allocated@ == Map::<Temporary, Register>::empty());
    proof {
        lemma_emit_all_fits(trivial_plan(*function), function.statements@);
    }
    match allocate(frame_pointer, &shuttle, allocated, spilled, function) {
        Some(allocated_function) => allocated_function,
        None => {
            assert(false);
            assembly::Function {
                name: function.name,
                statements: Vec::new(),
                arguments: function.arguments,
                returned: function.returned,
                linkage: function.linkage,
                enter: function.enter,
                exit: function.exit,
            }
        },
    }
}

/// Rebasing is done once: operands rebased at the stack pointer are left alone
/// by a second rebasing, whatever its distance.
pub proof fn lemma_rebase_once(statement: assembly::Statement<Register>, delta: int, again: int)
    ensures
        rebase_statement(rebase_statement(statement, delta), again) == rebase_statement(statement, delta),
{
}

impl Plan {
    proof fn lemma_in_register_fits(self, emission: Emission, location: Location)
        requires
            emission.next + 1 <= self.reserved.len(),
        ensures
            in_register(self.reserved, emission, location) matches Some((after, _)) && after.next <= emission.next + 1,
    {
    }

    proof fn lemma_memory_fits(self, emission: Emission, memory: Memory<Temporary>)
        requires
            emission.next + 1 <= self.reserved.len(),
        ensures
            self.memory_spec(emission, memory) matches Some((after, _)) && after.next <= emission.next + 1,
    {
        match memory {
            Memory::B { base } | Memory::BO { base, .. } => self.lemma_in_register_fits(emission, self.location(base)),
            Memory::ISO { index, .. } => self.lemma_in_register_fits(emission, self.location(index)),
            _ => {},
        }
    }

    proof fn lemma_combine_fits(self, emission: Emission, destination: Location, source: Location)
        requires
            emission.next + 1 <= self.reserved.len(),
        ensures
            self.combine_spec(emission, destination, source) matches Some((after, _)) && after.next <= emission.next + 1,
    {
    }

    proof fn lemma_binary_fits(self, emission: Emission, binary: operand::Binary<Temporary>)
        requires
            emission.next + 2 <= self.reserved.len(),
        ensures
            self.binary_spec(emission, binary) matches Some((after, _)) && after.next <= emission.next + 2,
    {
        match binary {
            operand::Binary::MI { destination, .. } => self.lemma_memory_fits(emission, destination),
            operand::Binary::MR { destination, source } => {
                self.lemma_memory_fits(emission, destination);
                let (after, memory) = self.memory_spec(emission, destination).unwrap();
                self.lemma_combine_fits(after, Location::Memory(memory), self.location(source));
            },
            operand::Binary::RM { destination, source } => {
                self.lemma_memory_fits(emission, source);
                let (after, memory) = self.memory_spec(emission, source).unwrap();
                self.lemma_combine_fits(after, self.location(destination), Location::Memory(memory));
            },
            operand::Binary::RR { destination, source } => {
                self.lemma_combine_fits(emission, self.location(destination), self.location(source));
            },
            _ => {},
        }
    }

    /// With three shuttle registers reserved, rewriting a statement never runs
    /// out of them: an address takes one, two memory operands one more, and a
    /// multiplication into memory a third.
    proof fn lemma_rewrite_fits(self, start: Emission, statement: assembly::Statement<Temporary>)
        requires
            start.next == 0,
            self.reserved.len() >= 3,
        ensures
            self.rewrite_spec(start, statement) is Some,
    {
        reveal(Plan::rewrite_spec);
        match statement {
            assembly::Statement::Binary(_, operands) => self.lemma_binary_fits(start, operands),
            assembly::Statement::Unary(_, operand::Unary::M(memory)) => self.lemma_memory_fits(start, memory),
            _ => {},
        }
    }
}

/// With three or more shuttle registers, allocation never runs out of them.
pub proof fn lemma_emit_all_fits(plan: Plan, statements: Seq<assembly::Statement<Temporary>>)
    requires
        plan.reserved.len() >= 3,
    ensures
        emit_all(plan, statements) is Some,
    decreases statements.len(),
{
    if statements.len() > 0 {
        lemma_emit_all_fits(plan, statements.drop_last());
        let prior = emit_all(plan, statements.drop_last()).unwrap();
        plan.lemma_rewrite_fits(Emission { statements: prior, next: 0 }, statements.last());
    }
}

} // verus!

use vstd::prelude::*;

use crate::collections::Key;
use crate::data::symbol::Symbol;

verus! {

#[derive(Copy, Clone, Debug, PartialEq, Eq, Structural, Hash, PartialOrd, Ord)]
pub enum Immediate {
    Integer(i64),
    Label(Label),
}

impl Immediate {
    /// Whether this immediate needs the 64-bit `mov r64, imm64` encoding,
    /// i.e. it is an integer outside the signed 32-bit range.
    pub open spec fn spec_is_64_bit(&self) -> bool {
        match *self {
            Immediate::Integer(integer) => integer < i32::MIN || integer > i32::MAX,
            Immediate::Label(_) => false,
        }
    }

    #[verifier::when_used_as_spec(spec_is_64_bit)]
    pub fn is_64_bit(&self) -> (wide: bool)
        ensures
            wide == self.spec_is_64_bit(),
    {
        match self {
            Immediate::Integer(integer) => *integer < i32::MIN as i64 || *integer > i32::MAX as i64,
            Immediate::Label(_) => false,
        }
    }
}

#[derive(Copy, Clone, Debug, PartialEq, Eq, Structural, Hash, PartialOrd, Ord)]
pub enum Label {
    Fixed(Symbol),
    Fresh(Symbol, usize),
}

impl Label {
    /// A label distinct from all labels made from smaller counter values:
    /// takes the counter's current value and advances it.
    pub fn fresh(label: Symbol, counter: &mut usize) -> (fresh: Self)
        requires
            *old(counter) < usize::MAX,
        ensures
            fresh == Label::Fresh(label, *old(counter)),
            *final(counter) == *old(counter) + 1,
    {
        let index = *counter;
        *counter = index + 1;
        Label::Fresh(label, index)
    }
}

/// x86-64 general purpose registers.
///
/// `Rsp(false)` is a placeholder for the stack pointer used during code generation
/// until the stack size is known; it is printed as `rbp`. In every other respect
/// `Rsp(true)` and `Rsp(false)` are the same register: equality and the view
/// identify them.
#[derive(Copy, Clone, Debug)]
pub enum Register {
    Rax,
    Rbx,
    Rcx,
    Rdx,
    Rbp,
    Rsp(bool),
    Rsi,
    Rdi,
    R8,
    R9,
    R10,
    R11,
    R12,
    R13,
    R14,
    R15,
}

impl View for Register {
    type V = Register;

    /// The register with the stack pointer placeholder identified with `rsp`.
    open spec fn view(&self) -> Register {
        match self {
            Register::Rsp(_) => Register::Rsp(true),
            register => *register,
        }
    }
}

impl Eq for Register {}

impl Register {
    pub fn rsp() -> (register: Self)
        ensures
            register == Register::Rsp(true),
    {
        Register::Rsp(true)
    }

    pub fn rsp_placeholder() -> (register: Self)
        ensures
            register == Register::Rsp(false),
    {
        Register::Rsp(false)
    }

    pub open spec fn spec_number(self) -> u8 {
        match self {
            Register::Rax => 0,
            Register::Rbx => 1,
            Register::Rcx => 2,
            Register::Rdx => 3,
            Register::Rbp => 4,
            Register::Rsp(_) => 5,
            Register::Rsi => 6,
            Register::Rdi => 7,
            Register::R8 => 8,
            Register::R9 => 9,
            Register::R10 => 10,
            Register::R11 => 11,
            Register::R12 => 12,
            Register::R13 => 13,
            Register::R14 => 14,
            Register::R15 => 15,
        }
    }

    /// Position of this register in the order `rax rbx rcx rdx rbp rsp rsi rdi r8..r15`.
    pub fn number(&self) -> (number: u8)
        ensures
            number == self.spec_number(),
            number < 16,
    {
        match self {
            Register::Rax => 0,
            Register::Rbx => 1,
            Register::Rcx => 2,
            Register::Rdx => 3,
            Register::Rbp => 4,
            Register::Rsp(_) => 5,
            Register::Rsi => 6,
            Register::Rdi => 7,
            Register::R8 => 8,
            Register::R9 => 9,
            Register::R10 => 10,
            Register::R11 => 11,
            Register::R12 => 12,
            Register::R13 => 13,
            Register::R14 => 14,
            Register::R15 => 15,
        }
    }

    /// Two registers are the same exactly when their numbers are.
    pub proof fn lemma_number_injective(a: Register, b: Register)
        ensures
            (a.spec_number() == b.spec_number()) == (a@ == b@),
    {
    }

    /// Register equality that identifies `rsp` with its placeholder.
    pub fn same(&self, other: &Self) -> (same: bool)
        ensures
            same == (self@ == other@),
    {
        proof {
            Register::lemma_number_injective(*self, *other);
        }
        self.number() == other.number()
    }

    pub open spec fn spec_is_caller_saved(self) -> bool {
        crate::abi::spec_caller_saved().contains(self@)
    }

    pub open spec fn spec_is_callee_saved(self) -> bool {
        crate::abi::spec_callee_saved().contains(self@)
    }

    /// Whether this register belongs to `abi::CALLER_SAVED`.
    pub fn is_caller_saved(&self) -> (saved: bool)
        ensures
            saved == self.spec_is_caller_saved(),
    {
        let registers = crate::abi::caller_saved();
        let mut index: usize = 0;
        while index < registers.len()
            invariant
                registers@ == crate::abi::spec_caller_saved(),
                index <= registers@.len(),
                forall|j: int| 0 <= j < index ==> registers@[j] != self@,
            decreases registers@.len() - index,
        {
            if registers[index].same(self) {
                assert(registers@[index as int] == self@);
                return true;
            }
            index += 1;
        }
        false
    }

    /// Whether this register belongs to `abi::CALLEE_SAVED`.
    pub fn is_callee_saved(&self) -> (saved: bool)
        ensures
            saved == self.spec_is_callee_saved(),
    {
        let registers = crate::abi::callee_saved();
        let mut index: usize = 0;
        while index < registers.len()
            invariant
                registers@ == crate::abi::spec_callee_saved(),
                index <= registers@.len(),
                forall|j: int| 0 <= j < index ==> registers@[j] != self@,
            decreases registers@.len() - index,
        {
            if registers[index].same(self) {
                assert(registers@[index as int] == self@);
                return true;
            }
            index += 1;
        }
        false
    }
}

impl PartialEq for Register {
    fn eq(&self, other: &Self) -> (equal: bool) {
        self.same(other)
    }
}

impl vstd::std_specs::cmp::PartialEqSpecImpl for Register {
    open spec fn obeys_eq_spec() -> bool {
        true
    }

    open spec fn eq_spec(&self, other: &Register) -> bool {
        self@ == other@
    }
}

#[derive(Copy, Clone, Debug)]
pub enum Temporary {
    Register(Register),
    Fixed(Symbol),
    Fresh(Symbol, usize),
}

impl View for Temporary {
    type V = Temporary;

    /// The temporary with its register (if any) taken by its view.
    open spec fn view(&self) -> Temporary {
        match self {
            Temporary::Register(register) => Temporary::Register(register@),
            temporary => *temporary,
        }
    }
}

impl Temporary {
    pub fn fresh(label: Symbol, counter: &mut usize) -> (fresh: Self)
        requires
            *old(counter) < usize::MAX,
        ensures
            fresh == Temporary::Fresh(label, *old(counter)),
            *final(counter) == *old(counter) + 1,
    {
        let index = *counter;
        *counter = index + 1;
        Temporary::Fresh(label, index)
    }

    pub fn from_register(register: Register) -> (temporary: Self)
        ensures
            temporary == Temporary::Register(register),
    {
        Temporary::Register(register)
    }

    /// Temporary equality, identifying `rsp` with its placeholder.
    pub fn same(&self, other: &Self) -> (same: bool)
        ensures
            same == (self@ == other@),
    {
        match (self, other) {
            (Temporary::Register(left), Temporary::Register(right)) => left.same(right),
            (Temporary::Fixed(left), Temporary::Fixed(right)) => left.0 == right.0,
            (Temporary::Fresh(left, i), Temporary::Fresh(right, j)) => left.0 == right.0 && *i == *j,
            _ => false,
        }
    }

    /// Whether this temporary is a fixed machine register.
    pub fn is_register(&self) -> (register: bool)
        ensures
            register == self is Register,
    {
        matches!(self, Temporary::Register(_))
    }
}

impl PartialEq for Temporary {
    fn eq(&self, other: &Self) -> (equal: bool) {
        self.same(other)
    }
}

impl vstd::std_specs::cmp::PartialEqSpecImpl for Temporary {
    open spec fn obeys_eq_spec() -> bool {
        true
    }

    open spec fn eq_spec(&self, other: &Temporary) -> bool {
        self@ == other@
    }
}

impl View for Immediate {
    type V = Immediate;

    open spec fn view(&self) -> Immediate {
        *self
    }
}

impl Key for Immediate {
    fn same(&self, other: &Self) -> (same: bool) {
        *self == *other
    }

    fn duplicate(&self) -> (copy: Self) {
        *self
    }
}

impl View for Label {
    type V = Label;

    open spec fn view(&self) -> Label {
        *self
    }
}

impl Key for Label {
    fn same(&self, other: &Self) -> (same: bool) {
        match (self, other) {
            (Label::Fixed(a), Label::Fixed(b)) => a.0 == b.0,
            (Label::Fresh(a, i), Label::Fresh(b, j)) => a.0 == b.0 && *i == *j,
            _ => false,
        }
    }

    fn duplicate(&self) -> (copy: Self) {
        *self
    }
}

impl Key for Register {
    fn same(&self, other: &Self) -> (same: bool) {
        Register::same(self, other)
    }

    fn duplicate(&self) -> (copy: Self) {
        *self
    }
}

impl Key for Temporary {
    fn same(&self, other: &Self) -> (same: bool) {
        Temporary::same(self, other)
    }

    fn duplicate(&self) -> (copy: Self) {
        *self
    }
}

#[derive(Copy, Clone, Debug, PartialEq, Eq, Structural, Hash, PartialOrd, Ord)]
pub enum Scale {
    _1,
    _2,
    _4,
    _8,
}

#[derive(Copy, Clone, Debug)]
pub enum Memory<T> {
    B { base: T },
    O { offset: Immediate },
    BI { base: T, index: T },
    BO { base: T, offset: Immediate },
    BIO { base: T, index: T, offset: Immediate },
    BIS { base: T, index: T, scale: Scale },
    ISO { index: T, scale: Scale, offset: Immediate },
    BISO { base: T, index: T, scale: Scale, offset: Immediate },
}

impl<T> Memory<T> {
    /// The operands of this addressing mode, base before index.
    pub open spec fn operands(self) -> Seq<T> {
        match self {
            Memory::B { base } => seq![base],
            Memory::O { offset: _ } => seq![],
            Memory::BI { base, index } => seq![base, index],
            Memory::BO { base, offset: _ } => seq![base],
            Memory::BIO { base, index, offset: _ } => seq![base, index],
            Memory::BIS { base, index, scale: _ } => seq![base, index],
            Memory::ISO { index, scale: _, offset: _ } => seq![index],
            Memory::BISO { base, index, scale: _, offset: _ } => seq![base, index],
        }
    }

    /// `self` and `other` use the same addressing mode with the same scale and offset.
    pub open spec fn same_shape<U>(self, other: Memory<U>) -> bool {
        match (self, other) {
            (Memory::B { .. }, Memory::B { .. }) => true,
            (Memory::O { offset: a }, Memory::O { offset: b }) => a == b,
            (Memory::BI { .. }, Memory::BI { .. }) => true,
            (Memory::BO { offset: a, .. }, Memory::BO { offset: b, .. }) => a == b,
            (Memory::BIO { offset: a, .. }, Memory::BIO { offset: b, .. }) => a == b,
            (Memory::BIS { scale: a, .. }, Memory::BIS { scale: b, .. }) => a == b,
            (
                Memory::ISO { scale: a, offset: c, .. },
                Memory::ISO { scale: b, offset: d, .. },
            ) => a == b && c == d,
            (
                Memory::BISO { scale: a, offset: c, .. },
                Memory::BISO { scale: b, offset: d, .. },
            ) => a == b && c == d,
            _ => false,
        }
    }

    /// Apply `apply` to each operand, keeping the addressing mode.
    pub fn map<U, F: Fn(&T) -> U>(&self, apply: F) -> (mapped: Memory<U>)
        requires
            forall|operand: &T| call_requires(apply, (operand,)),
        ensures
            self.same_shape(mapped),
            mapped.operands().len() == self.operands().len(),
            forall|i: int|
                0 <= i < self.operands().len() ==> call_ensures(
                    apply,
                    (&self.operands()[i],),
                    #[trigger] mapped.operands()[i],
                ),
    {
        match self {
            Memory::B { base } => Memory::B { base: apply(base) },
            Memory::O { offset } => Memory::O { offset: *offset },
            Memory::BI { base, index } => {
                let base = apply(base);
                Memory::BI { base, index: apply(index) }
            },
            Memory::BO { base, offset } => Memory::BO { base: apply(base), offset: *offset },
            Memory::BIO { base, index, offset } => {
                let base = apply(base);
                Memory::BIO { base, index: apply(index), offset: *offset }
            },
            Memory::BIS { base, index, scale } => {
                let base = apply(base);
                Memory::BIS { base, index: apply(index), scale: *scale }
            },
            Memory::ISO { index, scale, offset } => Memory::ISO {
                index: apply(index),
                scale: *scale,
                offset: *offset,
            },
            Memory::BISO { base, index, scale, offset } => {
                let base = apply(base);
                Memory::BISO { base, index: apply(index), scale: *scale, offset: *offset }
            },
        }
    }
}

impl<T: Copy> Memory<T> {
    /// The operands of this addressing mode, base before index.
    pub fn operand_list(&self) -> (operands: Vec<T>)
        ensures
            operands@ == self.operands(),
    {
        let mut operands = Vec::new();
        match self {
            Memory::B { base } | Memory::BO { base, .. } => operands.push(*base),
            Memory::O { .. } => {},
            Memory::BI { base, index }
            | Memory::BIO { base, index, .. }
            | Memory::BIS { base, index, .. }
            | Memory::BISO { base, index, .. } => {
                operands.push(*base);
                operands.push(*index);
            },
            Memory::ISO { index, .. } => operands.push(*index),
        }
        assert(operands@ =~= self.operands());
        operands
    }
}

#[derive(Copy, Clone, Debug)]
pub enum Binary<T> {
    RI { destination: T, source: Immediate },
    MI { destination: Memory<T>, source: Immediate },
    MR { destination: Memory<T>, source: T },
    RM { destination: T, source: Memory<T> },
    RR { destination: T, source: T },
}

impl<T> Binary<T> {
    pub open spec fn spec_destination(&self) -> Unary<T> {
        match *self {
            Binary::RI { destination, .. }
            | Binary::RM { destination, .. }
            | Binary::RR { destination, .. } => Unary::R(destination),
            Binary::MI { destination, .. } | Binary::MR { destination, .. } => Unary::M(
                destination,
            ),
        }
    }

    pub open spec fn spec_source(&self) -> Unary<T> {
        match *self {
            Binary::RI { source, .. } | Binary::MI { source, .. } => Unary::I(source),
            Binary::MR { source, .. } | Binary::RR { source, .. } => Unary::R(source),
            Binary::RM { source, .. } => Unary::M(source),
        }
    }
}

impl<T: Copy> Binary<T> {
    pub fn destination(&self) -> (destination: Unary<T>)
        ensures
            destination == self.spec_destination(),
    {
        match self {
            Binary::RI { destination, .. }
            | Binary::RM { destination, .. }
            | Binary::RR { destination, .. } => Unary::R(*destination),
            Binary::MI { destination, .. } | Binary::MR { destination, .. } => Unary::M(
                *destination,
            ),
        }
    }

    pub fn source(&self) -> (source: Unary<T>)
        ensures
            source == self.spec_source(),
    {
        match self {
            Binary::RI { source, .. } | Binary::MI { source, .. } => Unary::I(*source),
            Binary::MR { source, .. } | Binary::RR { source, .. } => Unary::R(*source),
            Binary::RM { source, .. } => Unary::M(*source),
        }
    }
}

#[derive(Copy, Clone, Debug)]
pub enum Unary<T> {
    I(Immediate),
    R(T),
    M(Memory<T>),
}

impl<T> Unary<T> {
    /// The operands this operand reads or writes: the register, or the
    /// registers of the address.
    pub open spec fn operands(self) -> Seq<T> {
        match self {
            Unary::I(_) => seq![],
            Unary::R(operand) => seq![operand],
            Unary::M(memory) => memory.operands(),
        }
    }

    /// Apply `apply` to each operand, keeping the operand's kind.
    pub fn map<U, F: Fn(&T) -> U>(&self, apply: F) -> (mapped: Unary<U>)
        requires
            forall|operand: &T| call_requires(apply, (operand,)),
        ensures
            match (*self, mapped) {
                (Unary::I(a), Unary::I(b)) => a == b,
                (Unary::R(_), Unary::R(_)) => true,
                (Unary::M(a), Unary::M(b)) => a.same_shape(b),
                _ => false,
            },
            mapped.operands().len() == self.operands().len(),
            forall|i: int|
                0 <= i < self.operands().len() ==> call_ensures(
                    apply,
                    (&self.operands()[i],),
                    #[trigger] mapped.operands()[i],
                ),
    {
        match self {
            Unary::I(immediate) => Unary::I(*immediate),
            Unary::R(operand) => Unary::R(apply(operand)),
            Unary::M(memory) => Unary::M(memory.map(apply)),
        }
    }
}

impl<T: Copy> Unary<T> {
    pub fn operand_list(&self) -> (operands: Vec<T>)
        ensures
            operands@ == self.operands(),
    {
        match self {
            Unary::I(_) => {
                let operands = Vec::new();
                assert(operands@ =~= self.operands());
                operands
            },
            Unary::R(operand) => {
                let mut operands = Vec::new();
                operands.push(*operand);
                assert(operands@ =~= self.operands());
                operands
            },
            Unary::M(memory) => memory.operand_list(),
        }
    }
}

} // verus!

use vstd::prelude::*;

use vstd::arithmetic::div_mod::lemma_fundamental_div_mod;
use vstd::arithmetic::div_mod::lemma_mod_bound;
use vstd::arithmetic::div_mod::lemma_mod_equivalence;
use vstd::arithmetic::div_mod::lemma_mod_multiples_basic;
use vstd::arithmetic::div_mod::lemma_small_mod;

use crate::data::assembly;
use crate::data::ast;
use crate::data::ir;
use crate::data::lir;
use crate::data::operand::Immediate;
use crate::data::operand::Label;
use crate::data::operand::Memory;
use crate::data::operand::Register;
use crate::data::operand::Scale;
use crate::data::operand::Temporary;
use crate::data::operand::Unary;

verus! {

/// 2^64, the number of values of a machine word.
pub open spec fn modulus() -> int {
    0x1_0000_0000_0000_0000
}

/// Two's complement wrap-around of an integer into a signed 64-bit word.
pub open spec fn wrap(value: int) -> i64 {
    (((value + 0x8000_0000_0000_0000) % modulus()) - 0x8000_0000_0000_0000) as i64
}

/// A word read as unsigned.
pub open spec fn unsigned(word: i64) -> int {
    if word < 0 {
        word + modulus()
    } else {
        word as int
    }
}

/// Division rounding toward zero, as `idiv` does; division by zero, which traps
/// on the machine, is given the quotient zero.
pub open spec fn quotient(dividend: int, divisor: int) -> int {
    let magnitude = (if dividend < 0 { -dividend } else { dividend }) / (if divisor < 0 { -divisor } else { divisor });
    if divisor == 0 {
        0
    } else if (dividend < 0) == (divisor < 0) {
        magnitude
    } else {
        -magnitude
    }
}

/// The remainder that goes with [`quotient`]: it has the sign of the dividend.
pub open spec fn remainder(dividend: int, divisor: int) -> int {
    dividend - divisor * quotient(dividend, divisor)
}

/// What an IR operator computes on two words.
pub open spec fn arithmetic(binary: ir::Binary, left: i64, right: i64) -> i64 {
    match binary {
        ir::Binary::Add => wrap(left + right),
        ir::Binary::Sub => wrap(left - right),
        ir::Binary::Mul => wrap(left * right),
        ir::Binary::Hul => wrap((left * right) / modulus()),
        ir::Binary::Div => wrap(quotient(left as int, right as int)),
        ir::Binary::Mod => wrap(remainder(left as int, right as int)),
        ir::Binary::Xor => left ^ right,
        ir::Binary::And => left & right,
        ir::Binary::Or => left | right,
    }
}

/// An index multiplied by the scale of an addressing mode.
pub open spec fn scaled(index: i64, scale: Scale) -> int {
    match scale {
        Scale::_1 => index as int,
        Scale::_2 => index * 2,
        Scale::_4 => index * 4,
        Scale::_8 => index * 8,
    }
}

/// The state that straight-line arithmetic code reads and writes: a word for
/// each temporary (machine registers included), a word at each address, and the
/// address of each label.
pub struct Machine {
    pub temporaries: spec_fn(Temporary) -> i64,
    pub memory: spec_fn(i64) -> i64,
    pub labels: spec_fn(Label) -> i64,
}

impl Machine {
    /// The word in temporary `temporary` (`rsp` and its placeholder are one register).
    pub open spec fn temporary(self, temporary: Temporary) -> i64 {
        (self.temporaries)(temporary@)
    }

    pub open spec fn set(self, temporary: Temporary, value: i64) -> Machine {
        Machine {
            temporaries: |other: Temporary| if other == temporary@ { value } else { (self.temporaries)(other) },
            memory: self.memory,
            labels: self.labels,
        }
    }

    pub open spec fn store(self, address: i64, value: i64) -> Machine {
        Machine {
            temporaries: self.temporaries,
            memory: |other: i64| if other == address { value } else { (self.memory)(other) },
            labels: self.labels,
        }
    }

    pub open spec fn immediate(self, immediate: Immediate) -> i64 {
        match immediate {
            Immediate::Integer(integer) => integer,
            Immediate::Label(label) => (self.labels)(label),
        }
    }

    /// The address that an addressing mode denotes.
    pub open spec fn address(self, memory: Memory<Temporary>) -> i64 {
        match memory {
            Memory::B { base } => self.temporary(base),
            Memory::O { offset } => self.immediate(offset),
            Memory::BI { base, index } => wrap(self.temporary(base) + self.temporary(index)),
            Memory::BO { base, offset } => wrap(self.temporary(base) + self.immediate(offset)),
            Memory::BIO { base, index, offset } => wrap(
                self.temporary(base) + self.temporary(index) + self.immediate(offset),
            ),
            Memory::BIS { base, index, scale } => wrap(self.temporary(base) + scaled(self.temporary(index), scale)),
            Memory::ISO { index, scale, offset } => wrap(
                scaled(self.temporary(index), scale) + self.immediate(offset),
            ),
            Memory::BISO { base, index, scale, offset } => wrap(
                self.temporary(base) + scaled(self.temporary(index), scale) + self.immediate(offset),
            ),
        }
    }

    pub open spec fn read(self, operand: Unary<Temporary>) -> i64 {
        match operand {
            Unary::I(immediate) => self.immediate(immediate),
            Unary::R(temporary) => self.temporary(temporary),
            Unary::M(memory) => (self.memory)(self.address(memory)),
        }
    }

    /// Writing to an immediate changes nothing.
    pub open spec fn write(self, operand: Unary<Temporary>, value: i64) -> Machine {
        match operand {
            Unary::I(_) => self,
            Unary::R(temporary) => self.set(temporary, value),
            Unary::M(memory) => self.store(self.address(memory), value),
        }
    }

    /// The effect of one instruction. Labels, jumps, comparisons (which only set
    /// flags) and returns leave this state as it is; calls, `push`, `pop` and
    /// `shl` are outside this model and are taken to do the same.
    pub open spec fn step(self, statement: assembly::Statement<Temporary>) -> Machine {
        let rax = Temporary::Register(Register::Rax);
        let rdx = Temporary::Register(Register::Rdx);
        match statement {
            assembly::Statement::Binary(binary, operands) => {
                let destination = operands.spec_destination();
                let source = operands.spec_source();
                let left = self.read(destination);
                let right = self.read(source);
                match binary {
                    assembly::Binary::Mov => self.write(destination, right),
                    assembly::Binary::Add => self.write(destination, wrap(left + right)),
                    assembly::Binary::Sub => self.write(destination, wrap(left - right)),
                    assembly::Binary::Mul => self.write(destination, wrap(left * right)),
                    assembly::Binary::And => self.write(destination, left & right),
                    assembly::Binary::Or => self.write(destination, left | right),
                    assembly::Binary::Xor => self.write(destination, left ^ right),
                    assembly::Binary::Lea => match source {
                        Unary::M(memory) => self.write(destination, self.address(memory)),
                        _ => self,
                    },
                    assembly::Binary::Cmp | assembly::Binary::Shl => self,
                }
            },
            assembly::Statement::Unary(unary, operand) => {
                let value = self.read(operand);
                match unary {
                    assembly::Unary::Neg => self.write(operand, wrap(-value)),
                    assembly::Unary::Hul => {
                        let product = self.temporary(rax) * value;
                        self.set(rax, wrap(product)).set(rdx, wrap(product / modulus()))
                    },
                    assembly::Unary::Div | assembly::Unary::Mod => {
                        let dividend = self.temporary(rdx) * modulus() + unsigned(self.temporary(rax));
                        let divided = quotient(dividend, value as int);
                        self.set(rax, wrap(divided)).set(rdx, wrap(dividend - value * divided))
                    },
                    _ => self,
                }
            },
            assembly::Statement::Nullary(assembly::Nullary::Cqo) => self.set(
                rdx,
                if self.temporary(rax) < 0 { -1i64 } else { 0i64 },
            ),
            _ => self,
        }
    }

    /// The effect of a sequence of instructions, run in order.
    pub open spec fn run(self, statements: Seq<assembly::Statement<Temporary>>) -> Machine
        decreases statements.len(),
    {
        if statements.len() == 0 {
            self
        } else {
            self.run(statements.drop_last()).step(statements.last())
        }
    }

    /// The value of a lowered IR expression.
    pub open spec fn evaluate(self, expression: lir::Expression) -> i64
        decreases expression,
    {
        match expression {
            lir::Expression::Immediate(immediate) => self.immediate(immediate),
            lir::Expression::Temporary(temporary) => self.temporary(temporary),
            lir::Expression::Memory(address) => (self.memory)(self.evaluate(*address)),
            lir::Expression::Binary(binary, left, right) => arithmetic(
                binary,
                self.evaluate(*left),
                self.evaluate(*right),
            ),
        }
    }
}

/// Temporaries that code tiled with fresh numbers from `counter` on may
/// overwrite: those fresh temporaries, and `rax` and `rdx`, which division and
/// the high multiply use.
pub open spec fn scratch(temporary: Temporary, counter: int) -> bool {
    match temporary@ {
        Temporary::Fresh(_, number) => number >= counter,
        Temporary::Register(Register::Rax) | Temporary::Register(Register::Rdx) => true,
        _ => false,
    }
}

/// No temporary that `expression` reads is scratch.
pub open spec fn clean(expression: lir::Expression, counter: int) -> bool
    decreases expression,
{
    match expression {
        lir::Expression::Immediate(_) => true,
        lir::Expression::Temporary(temporary) => !scratch(temporary, counter),
        lir::Expression::Memory(address) => clean(*address, counter),
        lir::Expression::Binary(_, left, right) => clean(*left, counter) && clean(*right, counter),
    }
}

/// Whether `expression` reads temporary `temporary`.
pub open spec fn reads(expression: lir::Expression, temporary: Temporary) -> bool
    decreases expression,
{
    match expression {
        lir::Expression::Immediate(_) => false,
        lir::Expression::Temporary(other) => other@ == temporary@,
        lir::Expression::Memory(address) => reads(*address, temporary),
        lir::Expression::Binary(_, left, right) => reads(*left, temporary) || reads(*right, temporary),
    }
}

/// No temporary that `operand` reads is scratch.
pub open spec fn stable(operand: Unary<Temporary>, counter: int) -> bool {
    forall|i: int| 0 <= i < operand.operands().len() ==> !scratch(#[trigger] operand.operands()[i], counter)
}

/// `after` differs from `before` at most in scratch temporaries.
pub open spec fn agrees(before: Machine, after: Machine, counter: int) -> bool {
    &&& after.memory == before.memory
    &&& after.labels == before.labels
    &&& forall|temporary: Temporary| !scratch(temporary, counter) ==> #[trigger] after.temporary(temporary) == before.temporary(temporary)
}

/// Running `statements` from any state leaves in `operand` the value that
/// `expression` had before, and changes only scratch temporaries.
pub open spec fn computes(
    statements: Seq<assembly::Statement<Temporary>>,
    operand: Unary<Temporary>,
    expression: lir::Expression,
    counter: int,
) -> bool {
    forall|machine: Machine| #![trigger machine.run(statements)]
        agrees(machine, machine.run(statements), counter)
            && machine.run(statements).read(operand) == machine.evaluate(expression)
}

/// Running `statements` from any state makes `memory` denote the address that
/// `address` evaluated to before, and changes only scratch temporaries.
pub open spec fn locates(
    statements: Seq<assembly::Statement<Temporary>>,
    memory: Memory<Temporary>,
    address: lir::Expression,
    counter: int,
) -> bool {
    forall|machine: Machine| #![trigger machine.run(statements)]
        agrees(machine, machine.run(statements), counter)
            && machine.run(statements).address(memory) == machine.evaluate(address)
}

/// The expression `left + right`.
pub open spec fn sum(left: lir::Expression, right: lir::Expression) -> lir::Expression {
    lir::Expression::Binary(ir::Binary::Add, Box::new(left), Box::new(right))
}

/// Changing only scratch temporaries keeps what scratch-free code reads; fewer
/// temporaries are scratch for a larger counter.
pub proof fn lemma_agrees_transitive(first: Machine, second: Machine, third: Machine, before: int, middle: int, after: int)
    requires
        before <= middle,
        before <= after,
        agrees(first, second, middle),
        agrees(second, third, after),
    ensures
        agrees(first, third, before),
{
    assert forall|temporary: Temporary| !scratch(temporary, before) implies #[trigger] third.temporary(temporary)
        == first.temporary(temporary) by {
        assert(!scratch(temporary, after));
        assert(!scratch(temporary, middle));
        assert(second.temporary(temporary) == first.temporary(temporary));
    }
}

/// Agreeing for a counter implies agreeing for any smaller counter.
pub proof fn lemma_agrees_weaken(first: Machine, second: Machine, lower: int, higher: int)
    requires
        lower <= higher,
        agrees(first, second, higher),
    ensures
        agrees(first, second, lower),
{
    assert forall|temporary: Temporary| !scratch(temporary, lower) implies #[trigger] second.temporary(temporary)
        == first.temporary(temporary) by {
        assert(!scratch(temporary, higher));
    }
}

/// Setting a scratch temporary agrees.
pub proof fn lemma_set_agrees(machine: Machine, temporary: Temporary, value: i64, counter: int)
    requires
        scratch(temporary, counter),
    ensures
        agrees(machine, machine.set(temporary, value), counter),
        machine.set(temporary, value).temporary(temporary) == value,
{
    assert forall|other: Temporary| !scratch(other, counter) implies #[trigger] machine.set(temporary, value).temporary(
        other,
    ) == machine.temporary(other) by {
        assert(other@ != temporary@);
    }
}

/// Setting the same temporary to the same value in states that agree keeps them agreeing.
pub proof fn lemma_set_both(first: Machine, second: Machine, temporary: Temporary, value: i64, counter: int)
    requires
        agrees(first, second, counter),
    ensures
        agrees(first.set(temporary, value), second.set(temporary, value), counter),
{
    assert forall|other: Temporary| !scratch(other, counter) implies #[trigger] second.set(temporary, value).temporary(
        other,
    ) == first.set(temporary, value).temporary(other) by {
        if other@ != temporary@ {
            assert(second.temporary(other) == first.temporary(other));
        }
    }
}

/// Setting a temporary to the value it holds changes nothing that agreeing sees.
pub proof fn lemma_set_same(first: Machine, second: Machine, temporary: Temporary, counter: int)
    requires
        agrees(first, second, counter),
    ensures
        agrees(first.set(temporary, first.temporary(temporary)), second, counter),
{
    assert forall|other: Temporary| !scratch(other, counter) implies #[trigger] second.temporary(other)
        == first.set(temporary, first.temporary(temporary)).temporary(other) by {
        assert(second.temporary(other) == first.temporary(other));
    }
}

/// Overwriting a temporary again in states that agree after the first write.
pub proof fn lemma_overwrite(first: Machine, second: Machine, temporary: Temporary, earlier: i64, later: i64, counter: int)
    requires
        agrees(first.set(temporary, earlier), second, counter),
    ensures
        agrees(first.set(temporary, later), second.set(temporary, later), counter),
{
    assert forall|other: Temporary| !scratch(other, counter) implies #[trigger] second.set(temporary, later).temporary(
        other,
    ) == first.set(temporary, later).temporary(other) by {
        if other@ != temporary@ {
            assert(second.temporary(other) == first.set(temporary, earlier).temporary(other));
        }
    }
}

/// Temporaries with the same view are the same register: setting either is the same.
pub proof fn lemma_set_view(machine: Machine, first: Temporary, second: Temporary, value: i64)
    requires
        first@ == second@,
    ensures
        machine.set(first, value) == machine.set(second, value),
{
    assert(machine.set(first, value).temporaries =~= machine.set(second, value).temporaries);
}

/// An expression that does not read a temporary has the same value whatever it holds.
pub proof fn lemma_evaluate_set(expression: lir::Expression, machine: Machine, temporary: Temporary, value: i64)
    requires
        !reads(expression, temporary),
    ensures
        machine.set(temporary, value).evaluate(expression) == machine.evaluate(expression),
    decreases expression,
{
    match expression {
        lir::Expression::Memory(address) => lemma_evaluate_set(*address, machine, temporary, value),
        lir::Expression::Binary(_, left, right) => {
            lemma_evaluate_set(*left, machine, temporary, value);
            lemma_evaluate_set(*right, machine, temporary, value);
        },
        _ => {},
    }
}

/// A clean expression stays clean for a larger counter.
pub proof fn lemma_clean_monotone(expression: lir::Expression, lower: int, higher: int)
    requires
        lower <= higher,
        clean(expression, lower),
    ensures
        clean(expression, higher),
    decreases expression,
{
    match expression {
        lir::Expression::Memory(address) => lemma_clean_monotone(*address, lower, higher),
        lir::Expression::Binary(_, left, right) => {
            lemma_clean_monotone(*left, lower, higher);
            lemma_clean_monotone(*right, lower, higher);
        },
        _ => {},
    }
}

/// A scratch-free expression has the same value in states that agree.
pub proof fn lemma_evaluate_agrees(expression: lir::Expression, first: Machine, second: Machine, counter: int)
    requires
        clean(expression, counter),
        agrees(first, second, counter),
    ensures
        second.evaluate(expression) == first.evaluate(expression),
    decreases expression,
{
    match expression {
        lir::Expression::Immediate(_) => {},
        lir::Expression::Temporary(temporary) => {
            assert(second.temporary(temporary) == first.temporary(temporary));
        },
        lir::Expression::Memory(address) => {
            lemma_evaluate_agrees(*address, first, second, counter);
        },
        lir::Expression::Binary(_, left, right) => {
            lemma_evaluate_agrees(*left, first, second, counter);
            lemma_evaluate_agrees(*right, first, second, counter);
        },
    }
}

/// A scratch-free operand reads the same in states that agree.
pub proof fn lemma_read_agrees(operand: Unary<Temporary>, first: Machine, second: Machine, counter: int)
    requires
        stable(operand, counter),
        agrees(first, second, counter),
    ensures
        second.read(operand) == first.read(operand),
{
    match operand {
        Unary::I(_) => {},
        Unary::R(temporary) => {
            assert(operand.operands()[0] == temporary);
            assert(second.temporary(temporary) == first.temporary(temporary));
        },
        Unary::M(memory) => {
            let operands = operand.operands();
            assert forall|i: int| 0 <= i < operands.len() implies second.temporary(operands[i]) == first.temporary(
                operands[i],
            ) by {
                assert(!scratch(operands[i], counter));
            }
            match memory {
                Memory::B { .. } | Memory::BI { .. } | Memory::BO { .. } | Memory::BIO { .. } | Memory::BIS { .. }
                | Memory::BISO { .. } => {
                    assert(second.temporary(operands[0]) == first.temporary(operands[0]));
                },
                _ => {},
            }
            match memory {
                Memory::BI { .. } | Memory::BIO { .. } | Memory::BIS { .. } | Memory::BISO { .. } => {
                    assert(second.temporary(operands[1]) == first.temporary(operands[1]));
                },
                Memory::ISO { .. } => {
                    assert(second.temporary(operands[0]) == first.temporary(operands[0]));
                },
                _ => {},
            }
        },
    }
}

/// A scratch-free addressing mode denotes the same address in states that agree.
pub proof fn lemma_address_agrees(memory: Memory<Temporary>, first: Machine, second: Machine, counter: int)
    requires
        stable(Unary::M(memory), counter),
        agrees(first, second, counter),
    ensures
        second.address(memory) == first.address(memory),
{
    let operands = Unary::M(memory).operands();
    assert forall|i: int| 0 <= i < operands.len() implies second.temporary(operands[i]) == first.temporary(operands[i]) by {
        assert(!scratch(operands[i], counter));
    }
    match memory {
        Memory::B { .. } | Memory::BI { .. } | Memory::BO { .. } | Memory::BIO { .. } | Memory::BIS { .. }
        | Memory::BISO { .. } => {
            assert(second.temporary(operands[0]) == first.temporary(operands[0]));
        },
        _ => {},
    }
    match memory {
        Memory::BI { .. } | Memory::BIO { .. } | Memory::BIS { .. } | Memory::BISO { .. } => {
            assert(second.temporary(operands[1]) == first.temporary(operands[1]));
        },
        Memory::ISO { .. } => {
            assert(second.temporary(operands[0]) == first.temporary(operands[0]));
        },
        _ => {},
    }
}

/// Storing the same word at the same address keeps two states agreeing.
pub proof fn lemma_store_both(first: Machine, second: Machine, address: i64, value: i64, counter: int)
    requires
        agrees(first, second, counter),
    ensures
        agrees(first.store(address, value), second.store(address, value), counter),
{
    assert(first.store(address, value).memory =~= second.store(address, value).memory);
    assert forall|temporary: Temporary| !scratch(temporary, counter) implies #[trigger] second.store(
        address,
        value,
    ).temporary(temporary) == first.store(address, value).temporary(temporary) by {
        assert(second.temporary(temporary) == first.temporary(temporary));
    }
}

/// An operand free of scratch temporaries stays so for a larger counter.
pub proof fn lemma_stable_monotone(operand: Unary<Temporary>, lower: int, higher: int)
    requires
        stable(operand, lower),
        lower <= higher,
    ensures
        stable(operand, higher),
{
    assert forall|i: int| 0 <= i < operand.operands().len() implies !scratch(#[trigger] operand.operands()[i], higher) by {
        assert(!scratch(operand.operands()[i], lower));
    }
}

/// Running two sequences one after the other is running their concatenation.
pub proof fn lemma_run_append(
    machine: Machine,
    first: Seq<assembly::Statement<Temporary>>,
    second: Seq<assembly::Statement<Temporary>>,
)
    ensures
        machine.run(first + second) == machine.run(first).run(second),
    decreases second.len(),
{
    if second.len() == 0 {
        assert(first + second =~= first);
    } else {
        assert((first + second).drop_last() =~= first + second.drop_last());
        lemma_run_append(machine, first, second.drop_last());
    }
}

/// Running one more statement.
pub proof fn lemma_run_push(
    machine: Machine,
    statements: Seq<assembly::Statement<Temporary>>,
    statement: assembly::Statement<Temporary>,
)
    ensures
        machine.run(statements.push(statement)) == machine.run(statements).step(statement),
{
    assert(statements.push(statement).drop_last() =~= statements);
}

/// A wrapped value differs from the integer by a multiple of 2^64.
pub proof fn lemma_wrap_residue(value: int)
    ensures
        (wrap(value) - value) % modulus() == 0,
{
    let shifted = value + 0x8000_0000_0000_0000;
    lemma_mod_bound(shifted, modulus());
    lemma_fundamental_div_mod(shifted, modulus());
    lemma_mod_multiples_basic(-(shifted / modulus()), modulus());
    assert(wrap(value) - value == -(shifted / modulus()) * modulus()) by (nonlinear_arith)
        requires
            wrap(value) == (shifted % modulus()) - 0x8000_0000_0000_0000,
            shifted == modulus() * (shifted / modulus()) + (shifted % modulus()),
            shifted == value + 0x8000_0000_0000_0000,
    ;
}

/// Values that differ by a multiple of 2^64 wrap to the same word.
pub proof fn lemma_wrap_congruent(first: int, second: int)
    requires
        (first - second) % modulus() == 0,
    ensures
        wrap(first) == wrap(second),
{
    let a = first + 0x8000_0000_0000_0000;
    let b = second + 0x8000_0000_0000_0000;
    assert(a - b == first - second);
    lemma_mod_equivalence(a, b, modulus());
}

/// Wrapping a summand first changes nothing.
pub proof fn lemma_wrap_inner(outer: int, inner: int)
    ensures
        wrap(outer + wrap(inner)) == wrap(outer + inner),
{
    lemma_wrap_residue(inner);
    assert((outer + wrap(inner)) - (outer + inner) == wrap(inner) - inner);
    lemma_wrap_congruent(outer + wrap(inner), outer + inner);
}

/// After `cqo`, the double word `rdx:rax` is the value of `rax`.
pub proof fn lemma_sign_extension(word: i64)
    ensures
        (if word < 0 { -1int } else { 0int }) * modulus() + unsigned(word) == word,
{
}


/// A word wraps to itself, and so does every integer congruent to it.
pub proof fn lemma_wrap_to(value: int, word: i64)
    requires
        (word - value) % modulus() == 0,
    ensures
        wrap(value) == word,
{
    lemma_wrap_congruent(word as int, value);
    lemma_small_mod((word + 0x8000_0000_0000_0000) as nat, modulus() as nat);
}

/// The status flags that `cmp left, right` leaves: whether the wrapped
/// difference is zero or negative, whether the signed subtraction overflowed,
/// and whether the unsigned subtraction borrowed.
pub struct Flags {
    pub zero: bool,
    pub sign: bool,
    pub overflow: bool,
    pub carry: bool,
}

pub open spec fn compare_flags(left: i64, right: i64) -> Flags {
    let difference = left - right;
    Flags {
        zero: wrap(difference) == 0,
        sign: wrap(difference) < 0,
        overflow: difference < i64::MIN || difference > i64::MAX,
        carry: unsigned(left) < unsigned(right),
    }
}

/// Whether a conditional jump with condition code `condition` is taken on `flags`.
pub open spec fn jump_taken(condition: assembly::Condition, flags: Flags) -> bool {
    match condition {
        assembly::Condition::L => flags.sign != flags.overflow,
        assembly::Condition::Le => flags.zero || flags.sign != flags.overflow,
        assembly::Condition::Ge => flags.sign == flags.overflow,
        assembly::Condition::G => !flags.zero && flags.sign == flags.overflow,
        assembly::Condition::Ne => !flags.zero,
        assembly::Condition::E => flags.zero,
        assembly::Condition::Ae => !flags.carry,
    }
}

/// What an IR comparison says of two words: signed order, equality, or
/// unsigned order for `Ae`.
pub open spec fn compares(condition: ir::Condition, left: i64, right: i64) -> bool {
    match condition {
        ir::Condition::Lt => left < right,
        ir::Condition::Le => left <= right,
        ir::Condition::Ge => left >= right,
        ir::Condition::Gt => left > right,
        ir::Condition::Ne => left != right,
        ir::Condition::Eq => left == right,
        ir::Condition::Ae => unsigned(left) >= unsigned(right),
    }
}

/// The flags of `cmp left, right` tell the signed and unsigned order of the words.
pub proof fn lemma_compare_flags(left: i64, right: i64)
    ensures
        compare_flags(left, right).zero == (left == right),
        (compare_flags(left, right).sign != compare_flags(left, right).overflow) == (left < right),
        compare_flags(left, right).carry == (unsigned(left) < unsigned(right)),
{
    let difference = left - right;
    if difference > i64::MAX {
        let word = (difference - modulus()) as i64;
        assert((word - difference) % modulus() == 0);
        lemma_wrap_to(difference, word);
    } else if difference < i64::MIN {
        let word = (difference + modulus()) as i64;
        assert((word - difference) % modulus() == 0);
        lemma_wrap_to(difference, word);
    } else {
        let word = difference as i64;
        lemma_wrap_to(difference, word);
    }
}

/// The conditional jump chosen for an IR condition is taken after `cmp left,
/// right` exactly when the condition holds of the two words.
pub proof fn lemma_jump_condition(condition: ir::Condition, left: i64, right: i64)
    ensures
        jump_taken(assembly::Condition::spec_from_ir(condition), compare_flags(left, right)) == compares(condition, left, right),
{
    lemma_compare_flags(left, right);
}


/// A source comparison lowers to the IR condition that says the same of two
/// words, and a source arithmetic operator to the IR operator that computes
/// the wrapped result of the same operation.
pub proof fn lemma_source_operators(left: i64, right: i64)
    ensures
        compares(ir::Condition::spec_from_ast(ast::Binary::Lt), left, right) == (left < right),
        compares(ir::Condition::spec_from_ast(ast::Binary::Le), left, right) == (left <= right),
        compares(ir::Condition::spec_from_ast(ast::Binary::Ge), left, right) == (left >= right),
        compares(ir::Condition::spec_from_ast(ast::Binary::Gt), left, right) == (left > right),
        compares(ir::Condition::spec_from_ast(ast::Binary::Eq), left, right) == (left == right),
        compares(ir::Condition::spec_from_ast(ast::Binary::Ne), left, right) == (left != right),
        arithmetic(ir::Binary::spec_from_ast(ast::Binary::Add), left, right) == wrap(left + right),
        arithmetic(ir::Binary::spec_from_ast(ast::Binary::Sub), left, right) == wrap(left - right),
        arithmetic(ir::Binary::spec_from_ast(ast::Binary::Mul), left, right) == wrap(left * right),
        arithmetic(ir::Binary::spec_from_ast(ast::Binary::Hul), left, right) == wrap((left * right) / modulus()),
        arithmetic(ir::Binary::spec_from_ast(ast::Binary::Div), left, right) == wrap(quotient(left as int, right as int)),
        arithmetic(ir::Binary::spec_from_ast(ast::Binary::Mod), left, right) == wrap(remainder(left as int, right as int)),
        arithmetic(ir::Binary::spec_from_ast(ast::Binary::And), left, right) == left & right,
        arithmetic(ir::Binary::spec_from_ast(ast::Binary::Or), left, right) == left | right,
{
}

} // verus!

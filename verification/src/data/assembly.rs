use vstd::prelude::*;

use crate::data::ir;
use crate::data::operand;
use crate::data::operand::Label;
use crate::data::symbol::Symbol;

verus! {

#[derive(Clone, Debug)]
pub struct Function<T> {
    pub name: Symbol,
    pub statements: Vec<Statement<T>>,
    pub arguments: usize,
    pub returned: usize,
    pub linkage: ir::Linkage,
    pub enter: Label,
    pub exit: Label,
}

#[derive(Copy, Clone, Debug)]
pub enum Statement<T> {
    Binary(Binary, operand::Binary<T>),
    Unary(Unary, operand::Unary<T>),
    Nullary(Nullary),
    Label(Label),
    Jmp(Label),
    Jcc(Condition, Label),
}

#[derive(Clone, Debug)]
pub enum Directive {
    Intel,
    Align(usize),
    Local(Label),
    Global(Label),
    Quad(Vec<i64>),
    Data,
    Text,
}

#[derive(Copy, Clone, Debug, PartialEq, Eq, Structural, PartialOrd, Ord, Hash)]
pub enum Binary {
    Add,
    Sub,
    Mul,
    And,
    Or,
    Xor,
    Cmp,
    Mov,
    Lea,
    Shl,
}

impl Binary {
    /// IR operators with a two-operand x86 instruction.
    pub open spec fn has_instruction(binary: ir::Binary) -> bool {
        match binary {
            ir::Binary::Add | ir::Binary::Sub | ir::Binary::Mul | ir::Binary::Xor | ir::Binary::And
            | ir::Binary::Or => true,
            _ => false,
        }
    }

    pub open spec fn spec_from_ir(binary: ir::Binary) -> Binary {
        match binary {
            ir::Binary::Add => Binary::Add,
            ir::Binary::Sub => Binary::Sub,
            ir::Binary::Mul => Binary::Mul,
            ir::Binary::Xor => Binary::Xor,
            ir::Binary::And => Binary::And,
            _ => Binary::Or,
        }
    }

    pub fn from_ir(binary: ir::Binary) -> (instruction: Self)
        requires
            Binary::has_instruction(binary),
        ensures
            instruction == Binary::spec_from_ir(binary),
    {
        match binary {
            ir::Binary::Add => Binary::Add,
            ir::Binary::Sub => Binary::Sub,
            ir::Binary::Mul => Binary::Mul,
            ir::Binary::Xor => Binary::Xor,
            ir::Binary::And => Binary::And,
            _ => Binary::Or,
        }
    }
}

#[derive(Copy, Clone, Debug, PartialEq, Eq, Structural, PartialOrd, Ord, Hash)]
pub enum Unary {
    Neg,
    Call { arguments: usize, returned: usize },
    Hul,
    Div,
    Mod,
    Push,
    Pop,
}

#[derive(Copy, Clone, Debug, PartialEq, Eq, Structural, PartialOrd, Ord, Hash)]
pub enum Nullary {
    Nop,
    Cqo,
    Ret(usize),
}

#[derive(Copy, Clone, Debug, PartialEq, Eq, Structural, PartialOrd, Ord, Hash)]
pub enum Condition {
    L,
    Le,
    Ge,
    G,
    Ne,
    E,
    Ae,
}

impl Condition {
    pub open spec fn spec_from_ir(condition: ir::Condition) -> Condition {
        match condition {
            ir::Condition::Lt => Condition::L,
            ir::Condition::Le => Condition::Le,
            ir::Condition::Ge => Condition::Ge,
            ir::Condition::Gt => Condition::G,
            ir::Condition::Ne => Condition::Ne,
            ir::Condition::Eq => Condition::E,
            ir::Condition::Ae => Condition::Ae,
        }
    }

    pub fn from_ir(condition: ir::Condition) -> (jump: Self)
        ensures
            jump == Condition::spec_from_ir(condition),
    {
        match condition {
            ir::Condition::Lt => Condition::L,
            ir::Condition::Le => Condition::Le,
            ir::Condition::Ge => Condition::Ge,
            ir::Condition::Gt => Condition::G,
            ir::Condition::Ne => Condition::Ne,
            ir::Condition::Eq => Condition::E,
            ir::Condition::Ae => Condition::Ae,
        }
    }
}

pub open spec fn max_option(a: Option<nat>, b: Option<nat>) -> Option<nat> {
    crate::data::lir::max_option(a, b)
}

/// Largest argument count (`returns == false`) or return count (`returns == true`)
/// of any `call` among `statements`, if there is one.
pub open spec fn spec_callee<T>(statements: Seq<Statement<T>>, returned: bool) -> Option<nat>
    decreases statements.len(),
{
    if statements.len() == 0 {
        None
    } else {
        max_option(
            spec_callee(statements.drop_last(), returned),
            match statements.last() {
                Statement::Unary(Unary::Call { arguments, returned: count }, _) => Some(
                    if returned { count as nat } else { arguments as nat },
                ),
                _ => None,
            },
        )
    }
}

pub open spec fn same_option(a: Option<usize>, b: Option<nat>) -> bool {
    match (a, b) {
        (Some(a), Some(b)) => a == b,
        (None, None) => true,
        _ => false,
    }
}

impl<T> Function<T> {
    fn callee(&self, returned: bool) -> (maximum: Option<usize>)
        ensures
            same_option(maximum, spec_callee(self.statements@, returned)),
    {
        let mut maximum: Option<usize> = None;
        let mut index: usize = 0;
        while index < self.statements.len()
            invariant
                index <= self.statements@.len(),
                same_option(maximum, spec_callee(self.statements@.take(index as int), returned)),
            decreases self.statements@.len() - index,
        {
            assert(self.statements@.take(index + 1).drop_last() =~= self.statements@.take(index as int));
            match &self.statements[index] {
                Statement::Unary(Unary::Call { arguments, returned: count }, _) => {
                    let value = if returned { *count } else { *arguments };
                    maximum = match maximum {
                        None => Some(value),
                        Some(previous) => Some(if previous >= value { previous } else { value }),
                    };
                },
                _ => {},
            }
            index += 1;
        }
        assert(self.statements@.take(index as int) =~= self.statements@);
        maximum
    }

    /// Maximum number of arguments passed to any callee, if this function calls any.
    pub fn callee_arguments(&self) -> (arguments: Option<usize>)
        ensures
            same_option(arguments, spec_callee(self.statements@, false)),
    {
        self.callee(false)
    }

    /// Maximum number of values returned by any callee, if this function calls any.
    pub fn callee_returns(&self) -> (returned: Option<usize>)
        ensures
            same_option(returned, spec_callee(self.statements@, true)),
    {
        self.callee(true)
    }
}

} // verus!

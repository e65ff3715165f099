use vstd::prelude::*;

use crate::collections::Key;
use crate::data::ir;
use crate::data::operand::Immediate;
use crate::data::operand::Label;
use crate::data::operand::Temporary;
use crate::data::symbol::Symbol;

verus! {

/// Lowered IR expressions: arbitrarily nested trees over immediates and temporaries.
#[derive(Debug)]
pub enum Expression {
    Immediate(Immediate),
    Temporary(Temporary),
    Memory(Box<Expression>),
    Binary(ir::Binary, Box<Expression>, Box<Expression>),
}

impl Expression {
    /// The expression with every temporary taken by its view.
    pub open spec fn normalized(self) -> Expression
        decreases self,
    {
        match self {
            Expression::Immediate(immediate) => Expression::Immediate(immediate),
            Expression::Temporary(temporary) => Expression::Temporary(temporary@),
            Expression::Memory(address) => Expression::Memory(Box::new(address.normalized())),
            Expression::Binary(binary, left, right) => Expression::Binary(
                binary,
                Box::new(left.normalized()),
                Box::new(right.normalized()),
            ),
        }
    }

    pub fn from_temporary(temporary: Temporary) -> (expression: Self)
        ensures
            expression == Expression::Temporary(temporary),
    {
        Expression::Temporary(temporary)
    }

    pub fn from_integer(integer: i64) -> (expression: Self)
        ensures
            expression == Expression::Immediate(Immediate::Integer(integer)),
    {
        Expression::Immediate(Immediate::Integer(integer))
    }

    pub fn from_label(label: Label) -> (expression: Self)
        ensures
            expression == Expression::Immediate(Immediate::Label(label)),
    {
        Expression::Immediate(Immediate::Label(label))
    }

    /// Structural equality up to the views of temporaries.
    pub fn equals(&self, other: &Self) -> (equal: bool)
        ensures
            equal == (self.normalized() == other.normalized()),
        decreases self,
    {
        match (self, other) {
            (Expression::Immediate(a), Expression::Immediate(b)) => *a == *b,
            (Expression::Temporary(a), Expression::Temporary(b)) => a.same(b),
            (Expression::Memory(a), Expression::Memory(b)) => a.equals(b),
            (Expression::Binary(op_a, left_a, right_a), Expression::Binary(op_b, left_b, right_b)) => {
                *op_a == *op_b && left_a.equals(left_b) && right_a.equals(right_b)
            },
            _ => false,
        }
    }

    /// A deep copy.
    pub fn copy(&self) -> (copy: Self)
        ensures
            copy == *self,
        decreases self,
    {
        match self {
            Expression::Immediate(immediate) => Expression::Immediate(*immediate),
            Expression::Temporary(temporary) => Expression::Temporary(*temporary),
            Expression::Memory(address) => Expression::Memory(Box::new(address.copy())),
            Expression::Binary(binary, left, right) => Expression::Binary(
                *binary,
                Box::new(left.copy()),
                Box::new(right.copy()),
            ),
        }
    }
}

impl Clone for Expression {
    fn clone(&self) -> (copy: Self)
        ensures
            copy == *self,
    {
        self.copy()
    }
}

impl View for Expression {
    type V = Expression;

    open spec fn view(&self) -> Expression {
        self.normalized()
    }
}

impl Key for Expression {
    fn same(&self, other: &Self) -> (same: bool) {
        self.equals(other)
    }

    fn duplicate(&self) -> (copy: Self) {
        self.copy()
    }
}

#[derive(Clone, Debug)]
pub enum Statement<T> {
    Jump(Label),
    CJump { condition: ir::Condition, left: Expression, right: Expression, if_true: Label, if_false: T },
    /// Call `function` with `arguments`, binding the results to the given temporaries.
    Call(Expression, Vec<Expression>, Vec<Temporary>),
    Label(Label),
    Move { destination: Expression, source: Expression },
    Return(Vec<Expression>),
}

/// The false branch of a conditional jump falls through to the next statement.
#[derive(Copy, Clone, Debug, PartialEq, Eq, Structural, PartialOrd, Ord, Hash)]
pub struct Fallthrough;

/// The false branch of a conditional jump: falling through, or a label.
pub trait Target: Copy {
    spec fn spec_target(&self) -> Option<Label>;

    fn target(&self) -> (target: Option<Label>)
        ensures
            target == self.spec_target(),
    ;
}

impl Target for Fallthrough {
    open spec fn spec_target(&self) -> Option<Label> {
        None
    }

    fn target(&self) -> (target: Option<Label>) {
        None
    }
}

impl Target for Label {
    open spec fn spec_target(&self) -> Option<Label> {
        Some(*self)
    }

    fn target(&self) -> (target: Option<Label>) {
        Some(*self)
    }
}

#[derive(Clone, Debug)]
pub struct Function<T> {
    pub name: Symbol,
    pub statements: Vec<Statement<T>>,
    pub arguments: Vec<Temporary>,
    pub returned: usize,
    pub linkage: ir::Linkage,
    pub enter: Label,
    pub exit: Label,
}

pub open spec fn max_option(a: Option<nat>, b: Option<nat>) -> Option<nat> {
    match (a, b) {
        (None, b) => b,
        (a, None) => a,
        (Some(a), Some(b)) => Some(if a >= b { a } else { b }),
    }
}

/// Largest argument count of any call among `statements`, if there is a call.
pub open spec fn spec_callee_arguments<T>(statements: Seq<Statement<T>>) -> Option<nat>
    decreases statements.len(),
{
    if statements.len() == 0 {
        None
    } else {
        max_option(
            spec_callee_arguments(statements.drop_last()),
            match statements.last() {
                Statement::Call(_, arguments, _) => Some(arguments@.len()),
                _ => None,
            },
        )
    }
}

impl<T> Function<T> {
    /// Maximum number of arguments passed to any callee, if this function calls any.
    pub fn callee_arguments(&self) -> (arguments: Option<usize>)
        ensures
            match (arguments, spec_callee_arguments(self.statements@)) {
                (Some(a), Some(b)) => a == b,
                (None, None) => true,
                _ => false,
            },
    {
        let mut maximum: Option<usize> = None;
        let mut index: usize = 0;
        while index < self.statements.len()
            invariant
                index <= self.statements@.len(),
                match (maximum, spec_callee_arguments(self.statements@.take(index as int))) {
                    (Some(a), Some(b)) => a == b,
                    (None, None) => true,
                    _ => false,
                },
            decreases self.statements@.len() - index,
        {
            assert(self.statements@.take(index + 1).drop_last() =~= self.statements@.take(index as int));
            match &self.statements[index] {
                Statement::Call(_, arguments, _) => {
                    let count = arguments.len();
                    maximum = match maximum {
                        None => Some(count),
                        Some(previous) => Some(if previous >= count { previous } else { count }),
                    };
                },
                _ => {},
            }
            index += 1;
        }
        assert(self.statements@.take(index as int) =~= self.statements@);
        maximum
    }
}

} // verus!

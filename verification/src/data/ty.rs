use vstd::prelude::*;

use crate::data::symbol::Symbol;

verus! {

/// Types of expressions in the class-based language:
///
/// ```text
///            .  .   .
///            |  |   |
///            A  B   C         A[] B[] C[]
///             \ |  /            \  |  /
/// int   bool   null int[] bool[] null[] int[][] bool[][]
///  |     |      |     |     |      |       |      |
///  +-----+----< any >-+-----+------+-------+------+---- . . .
/// ```
///
/// `Function` is the type of a name bound to a function or method, by its
/// parameter and result types.
#[derive(Debug, PartialEq, Eq, Hash)]
pub enum Expression {
    /// The inner type of an empty array, which subclasses everything.
    Any,
    /// The type of a `null` expression, which subclasses any class.
    Null,
    Integer,
    Boolean,
    Class(Symbol),
    Array(Box<Expression>),
    Function(Vec<Expression>, Vec<Expression>),
}

/// The mathematical value of a type: as [`Expression`], with lists of types as sequences.
pub enum Model {
    Any,
    Null,
    Integer,
    Boolean,
    Class(Symbol),
    Array(Box<Model>),
    Function(Seq<Model>, Seq<Model>),
}

impl View for Expression {
    type V = Model;

    open spec fn view(&self) -> Model {
        self.model()
    }
}

impl Expression {
    pub open spec fn model(self) -> Model
        decreases self,
    {
        match self {
            Expression::Any => Model::Any,
            Expression::Null => Model::Null,
            Expression::Integer => Model::Integer,
            Expression::Boolean => Model::Boolean,
            Expression::Class(class) => Model::Class(class),
            Expression::Array(inner) => Model::Array(Box::new(inner.model())),
            Expression::Function(parameters, returned) => Model::Function(
                Seq::new(parameters@.len(), |i: int| if 0 <= i < parameters.len() { parameters[i].model() } else { Model::Any }),
                Seq::new(returned@.len(), |i: int| if 0 <= i < returned.len() { returned[i].model() } else { Model::Any }),
            ),
        }
    }

    pub proof fn lemma_function_model(self)
        requires
            self is Function,
        ensures
            self@ == Model::Function(models(self->Function_0@), models(self->Function_1@)),
    {
        if let Expression::Function(parameters, returned) = self {
            let model = self.model();
            assert(model->Function_0 =~= models(parameters@)) by {
                assert forall|i: int| 0 <= i < parameters@.len() implies model->Function_0[i] == #[trigger] models(parameters@)[i] by {
                    assert(parameters[i] == parameters@[i]);
                }
            }
            assert(model->Function_1 =~= models(returned@)) by {
                assert forall|i: int| 0 <= i < returned@.len() implies model->Function_1[i] == #[trigger] models(returned@)[i] by {
                    assert(returned[i] == returned@[i]);
                }
            }
        }
    }

    /// A deep copy.
    pub fn copy(&self) -> (copy: Expression)
        ensures
            copy@ == self@,
        decreases self,
    {
        match self {
            Expression::Any => Expression::Any,
            Expression::Null => Expression::Null,
            Expression::Integer => Expression::Integer,
            Expression::Boolean => Expression::Boolean,
            Expression::Class(class) => Expression::Class(*class),
            Expression::Array(inner) => Expression::Array(Box::new(inner.copy())),
            Expression::Function(parameters, returned) => {
                let copied_parameters = copy_all(parameters);
                let copied_returned = copy_all(returned);
                let copy = Expression::Function(copied_parameters, copied_returned);
                proof {
                    self.lemma_function_model();
                    copy.lemma_function_model();
                }
                copy
            },
        }
    }

    /// Structural equality.
    pub fn equals(&self, other: &Expression) -> (equal: bool)
        ensures
            equal == (self@ == other@),
        decreases self,
    {
        match (self, other) {
            (Expression::Any, Expression::Any)
            | (Expression::Null, Expression::Null)
            | (Expression::Integer, Expression::Integer)
            | (Expression::Boolean, Expression::Boolean) => true,
            (Expression::Class(a), Expression::Class(b)) => a.0 == b.0,
            (Expression::Array(a), Expression::Array(b)) => a.equals(b),
            (Expression::Function(pa, ra), Expression::Function(pb, rb)) => {
                proof {
                    self.lemma_function_model();
                    other.lemma_function_model();
                }
                let same_parameters = equals_all(pa, pb);
                if !same_parameters {
                    return false;
                }
                equals_all(ra, rb)
            },
            _ => false,
        }
    }
}

/// The models of a list of types.
pub open spec fn models(types: Seq<Expression>) -> Seq<Model> {
    types.map_values(|t: Expression| t@)
}

/// A deep copy of each type, in order.
pub fn copy_all(types: &Vec<Expression>) -> (copy: Vec<Expression>)
    ensures
        models(copy@) == models(types@),
    decreases types@,
{
    let mut copy: Vec<Expression> = Vec::new();
    let mut index: usize = 0;
    while index < types.len()
        invariant
            index <= types@.len(),
            copy@.len() == index,
            models(copy@) == models(types@.take(index as int)),
        decreases types@.len() - index,
    {
        proof {
            assert(decreases_to!(types@ => types@[index as int]));
        }
        copy.push(types[index].copy());
        index += 1;
        assert forall|j: int| 0 <= j < index implies #[trigger] models(copy@)[j] == models(types@.take(index as int))[j] by {
            if j < index - 1 {
                assert(models(copy@)[j] == copy@[j]@);
                assert(models(types@.take(index - 1))[j] == types@[j]@);
            }
        }
        assert(models(copy@) =~= models(types@.take(index as int)));
    }
    assert(types@.take(types@.len() as int) =~= types@);
    copy
}

/// Elementwise structural equality of two lists of types.
pub fn equals_all(left: &Vec<Expression>, right: &Vec<Expression>) -> (equal: bool)
    ensures
        equal == (models(left@) == models(right@)),
    decreases left@,
{
    if left.len() != right.len() {
        assert(models(left@).len() != models(right@).len());
        return false;
    }
    let mut index: usize = 0;
    while index < left.len()
        invariant
            left@.len() == right@.len(),
            index <= left@.len(),
            forall|i: int| 0 <= i < index ==> left@[i]@ == right@[i]@,
        decreases left@.len() - index,
    {
        proof {
            assert(decreases_to!(left@ => left@[index as int]));
        }
        if !left[index].equals(&right[index]) {
            assert(models(left@)[index as int] != models(right@)[index as int]);
            return false;
        }
        index += 1;
    }
    assert(models(left@) =~= models(right@));
    true
}

impl Clone for Expression {
    fn clone(&self) -> (copy: Self)
        ensures
            copy@ == self@,
    {
        self.copy()
    }
}

/// Whether control can fall through a statement (`Unit`) or never does (`Void`).
#[derive(Copy, Clone, Debug, PartialEq, Eq, Structural, Hash)]
pub enum Statement {
    Unit,
    Void,
}

impl Statement {
    /// `Void` only when both sides are `Void`.
    pub fn least_upper_bound(&self, other: &Statement) -> (bound: Statement)
        ensures
            bound == (if *self == Statement::Void && *other == Statement::Void {
                Statement::Void
            } else {
                Statement::Unit
            }),
    {
        match (self, other) {
            (Statement::Void, Statement::Void) => Statement::Void,
            _ => Statement::Unit,
        }
    }
}

} // verus!

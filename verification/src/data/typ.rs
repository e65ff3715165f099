use vstd::prelude::*;

verus! {

/// Types of Xi expressions: `int`, `bool`, the inner type `any` of an empty
/// array literal, and arrays.
#[derive(Debug, PartialEq, Eq, Hash)]
pub enum Exp {
    Int,
    Bool,
    Any,
    Arr(Box<Exp>),
}

impl Exp {
    /// `self` may stand where `rhs` is expected.
    pub open spec fn spec_subtypes(self, rhs: Exp) -> bool
        decreases self,
    {
        match self {
            Exp::Any => true,
            Exp::Int => rhs == Exp::Int,
            Exp::Bool => rhs == Exp::Bool,
            Exp::Arr(l) => match rhs {
                Exp::Arr(r) => l.spec_subtypes(*r),
                _ => false,
            },
        }
    }

    /// The least type that both `self` and `rhs` subtype, if any.
    pub open spec fn spec_lub(self, rhs: Exp) -> Option<Exp>
        decreases self,
    {
        match (self, rhs) {
            (Exp::Any, typ) => Some(typ),
            (typ, Exp::Any) => Some(typ),
            (Exp::Int, Exp::Int) => Some(Exp::Int),
            (Exp::Bool, Exp::Bool) => Some(Exp::Bool),
            (Exp::Arr(l), Exp::Arr(r)) => match l.spec_lub(*r) {
                Some(lub) => Some(Exp::Arr(Box::new(lub))),
                None => None,
            },
            _ => None,
        }
    }

    pub fn subtypes(&self, rhs: &Exp) -> (subtypes: bool)
        ensures
            subtypes == self.spec_subtypes(*rhs),
        decreases self,
    {
        match (self, rhs) {
            (Exp::Any, _) | (Exp::Int, Exp::Int) | (Exp::Bool, Exp::Bool) => true,
            (Exp::Arr(l), Exp::Arr(r)) => l.subtypes(r),
            _ => false,
        }
    }

    pub fn lub(&self, rhs: &Exp) -> (lub: Option<Exp>)
        ensures
            lub == self.spec_lub(*rhs),
        decreases self,
    {
        match (self, rhs) {
            (Exp::Any, typ) => Some(typ.copy()),
            (typ, Exp::Any) => Some(typ.copy()),
            (Exp::Int, Exp::Int) => Some(Exp::Int),
            (Exp::Bool, Exp::Bool) => Some(Exp::Bool),
            (Exp::Arr(l), Exp::Arr(r)) => match l.lub(r) {
                Some(lub) => Some(Exp::Arr(Box::new(lub))),
                None => None,
            },
            _ => None,
        }
    }

    /// A deep copy.
    pub fn copy(&self) -> (copy: Exp)
        ensures
            copy == *self,
        decreases self,
    {
        match self {
            Exp::Int => Exp::Int,
            Exp::Bool => Exp::Bool,
            Exp::Any => Exp::Any,
            Exp::Arr(inner) => Exp::Arr(Box::new(inner.copy())),
        }
    }

    /// Structural equality.
    pub fn equals(&self, other: &Exp) -> (equal: bool)
        ensures
            equal == (*self == *other),
        decreases self,
    {
        match (self, other) {
            (Exp::Int, Exp::Int) | (Exp::Bool, Exp::Bool) | (Exp::Any, Exp::Any) => true,
            (Exp::Arr(l), Exp::Arr(r)) => l.equals(r),
            _ => false,
        }
    }
}

impl Clone for Exp {
    fn clone(&self) -> (copy: Self)
        ensures
            copy == *self,
    {
        self.copy()
    }
}

/// Subtyping is reflexive.
pub proof fn lemma_exp_subtypes_reflexive(typ: Exp)
    ensures
        typ.spec_subtypes(typ),
    decreases typ,
{
    if let Exp::Arr(inner) = typ {
        lemma_exp_subtypes_reflexive(*inner);
    }
}

/// Subtyping is transitive.
pub proof fn lemma_exp_subtypes_transitive(a: Exp, b: Exp, c: Exp)
    requires
        a.spec_subtypes(b),
        b.spec_subtypes(c),
    ensures
        a.spec_subtypes(c),
    decreases a,
{
    if let (Exp::Arr(x), Exp::Arr(y), Exp::Arr(z)) = (a, b, c) {
        lemma_exp_subtypes_transitive(*x, *y, *z);
    }
}

/// The least upper bound is an upper bound of both sides, the order of the
/// sides does not matter, and `any` leaves the other side as it is.
pub proof fn lemma_exp_lub_upper_bound(a: Exp, b: Exp)
    ensures
        a.spec_lub(b) == b.spec_lub(a),
        a.spec_lub(Exp::Any) == Some(a),
        a.spec_lub(b) matches Some(c) ==> a.spec_subtypes(c) && b.spec_subtypes(c),
    decreases a,
{
    match (a, b) {
        (Exp::Any, _) => lemma_exp_subtypes_reflexive(b),
        (_, Exp::Any) => lemma_exp_subtypes_reflexive(a),
        (Exp::Arr(x), Exp::Arr(y)) => lemma_exp_lub_upper_bound(*x, *y),
        _ => {},
    }
}

/// Whenever two types have a common supertype, their least upper bound exists
/// and subtypes it.
pub proof fn lemma_exp_lub_least(a: Exp, b: Exp, c: Exp)
    requires
        a.spec_subtypes(c),
        b.spec_subtypes(c),
    ensures
        a.spec_lub(b) matches Some(lub) && lub.spec_subtypes(c),
    decreases a,
{
    match (a, b) {
        (Exp::Any, _) => {},
        (_, Exp::Any) => {},
        (Exp::Arr(x), Exp::Arr(y)) => {
            if let Exp::Arr(z) = c {
                lemma_exp_lub_least(*x, *y, *z);
            }
        },
        _ => {},
    }
}

/// Whether a statement may complete normally (`Unit`) or never does (`Void`).
#[derive(Copy, Clone, Debug, PartialEq, Eq, Structural, Hash)]
pub enum Stm {
    Unit,
    Void,
}

/// Types of Xi expressions, including the tuples that multi-result calls produce.
#[derive(Clone, Debug, PartialEq, Eq, Hash)]
pub enum Typ {
    Exp(Exp),
    Tup(Vec<Exp>),
    Unit,
}

impl Typ {
    pub open spec fn spec_subtypes(self, rhs: Typ) -> bool {
        match (self, rhs) {
            (Typ::Unit, Typ::Unit) => true,
            (Typ::Exp(l), Typ::Exp(r)) => l.spec_subtypes(r),
            (Typ::Tup(l), Typ::Tup(r)) => l@.len() == r@.len() && forall|i: int|
                0 <= i < l@.len() ==> (#[trigger] l@[i]).spec_subtypes(r@[i]),
            _ => false,
        }
    }

    pub open spec fn spec_lub(self, rhs: Typ) -> Option<Typ> {
        match (self, rhs) {
            (Typ::Exp(l), Typ::Exp(r)) => match l.spec_lub(r) {
                Some(lub) => Some(Typ::Exp(lub)),
                None => None,
            },
            _ => None,
        }
    }

    pub fn any() -> (typ: Self)
        ensures
            typ == Typ::Exp(Exp::Any),
    {
        Typ::Exp(Exp::Any)
    }

    pub fn integer() -> (typ: Self)
        ensures
            typ == Typ::Exp(Exp::Int),
    {
        Typ::Exp(Exp::Int)
    }

    pub fn boolean() -> (typ: Self)
        ensures
            typ == Typ::Exp(Exp::Bool),
    {
        Typ::Exp(Exp::Bool)
    }

    pub fn array(typ: Exp) -> (array: Self)
        ensures
            array == Typ::Exp(Exp::Arr(Box::new(typ))),
    {
        Typ::Exp(Exp::Arr(Box::new(typ)))
    }

    pub fn subtypes(&self, rhs: &Typ) -> (subtypes: bool)
        ensures
            subtypes == self.spec_subtypes(*rhs),
    {
        match (self, rhs) {
            (Typ::Unit, Typ::Unit) => true,
            (Typ::Exp(l), Typ::Exp(r)) => l.subtypes(r),
            (Typ::Tup(l), Typ::Tup(r)) => {
                if l.len() != r.len() {
                    return false;
                }
                let mut index: usize = 0;
                while index < l.len()
                    invariant
                        *self == Typ::Tup(*l),
                        *rhs == Typ::Tup(*r),
                        l@.len() == r@.len(),
                        index <= l@.len(),
                        forall|i: int| 0 <= i < index ==> (#[trigger] l@[i]).spec_subtypes(r@[i]),
                    decreases l@.len() - index,
                {
                    if !l[index].subtypes(&r[index]) {
                        assert(!(l@[index as int]).spec_subtypes(r@[index as int]));
                        return false;
                    }
                    index += 1;
                }
                true
            },
            _ => false,
        }
    }

    pub fn lub(&self, rhs: &Self) -> (lub: Option<Self>)
        ensures
            lub == self.spec_lub(*rhs),
    {
        match (self, rhs) {
            (Typ::Exp(l), Typ::Exp(r)) => match l.lub(r) {
                Some(lub) => Some(Typ::Exp(lub)),
                None => None,
            },
            _ => None,
        }
    }
}

} // verus!

use vstd::prelude::*;

use crate::data::span::Span;
use crate::data::symbol::Symbol;
use crate::data::ty;

verus! {

/// Represents a Xi interface file.
#[derive(Debug)]
pub struct Interface<T> {
    pub uses: Vec<Use>,
    pub items: Vec<ItemSignature<T>>,
}

/// Represents a Xi source file.
#[derive(Debug)]
pub struct Program<T> {
    pub uses: Vec<Use>,
    pub items: Vec<Item<T>>,
}

/// Represents a use statement for importing interfaces.
#[derive(Debug)]
pub struct Use {
    pub name: Identifier,
    pub span: Span,
}

#[derive(Debug)]
pub enum ItemSignature<T> {
    Class(ClassSignature<T>),
    ClassTemplate(ClassTemplate),
    Function(FunctionSignature<T>),
    FunctionTemplate(FunctionTemplate),
}

#[derive(Debug)]
pub enum Item<T> {
    Global(Global<T>),
    Class(Class<T>),
    ClassTemplate(ClassTemplate),
    Function(Function<T>),
    FunctionTemplate(FunctionTemplate),
}

#[derive(Debug)]
pub enum Global<T> {
    Declaration(Declaration<T>),
    Initialization(Initialization<T>),
}

/// `a, _, c: T = e`: declarations (or holes) bound to the results of one expression.
#[derive(Debug)]
pub struct Initialization<T> {
    pub declarations: Vec<Option<SingleDeclaration<T>>>,
    pub expression: Box<Expression<T>>,
    pub span: Span,
}

/// What the type checker needs to know of a class declaration or definition.
pub trait ClassLike<T> {
    fn is_final(&self) -> bool;

    fn name(&self) -> &Identifier;

    fn extends(&self) -> Option<&Variable<T>>;
}

#[derive(Debug)]
pub struct ClassTemplate {
    pub is_final: bool,
    pub name: Identifier,
    pub generics: Vec<Identifier>,
    pub extends: Option<Variable<()>>,
    pub items: Vec<ClassItem<()>>,
    pub span: Span,
}

impl ClassTemplate {
    pub fn new(
        is_final: bool,
        name: Identifier,
        generics: Vec<Identifier>,
        extends: Option<Variable<()>>,
        items: Vec<ClassItem<()>>,
        span: Span,
    ) -> (template: Self)
        ensures
            template == (ClassTemplate { is_final, name, generics, extends, items, span }),
    {
        ClassTemplate { is_final, name, generics, extends, items, span }
    }
}

#[derive(Debug)]
pub struct ClassSignature<T> {
    pub is_final: bool,
    pub name: Identifier,
    pub extends: Option<Variable<T>>,
    pub methods: Vec<FunctionSignature<T>>,
    pub span: Span,
}

impl ClassSignature<()> {
    pub fn new(
        is_final: bool,
        name: Identifier,
        extends: Option<Variable<()>>,
        methods: Vec<FunctionSignature<()>>,
        span: Span,
    ) -> (signature: Self)
        ensures
            signature == (ClassSignature { is_final, name, extends, methods, span }),
    {
        ClassSignature { is_final, name, extends, methods, span }
    }
}

impl<T> ClassLike<T> for ClassSignature<T> {
    fn is_final(&self) -> (is_final: bool)
        ensures
            is_final == self.is_final,
    {
        self.is_final
    }

    fn name(&self) -> (name: &Identifier)
        ensures
            *name == self.name,
    {
        &self.name
    }

    fn extends(&self) -> (extends: Option<&Variable<T>>)
        ensures
            extends == match self.extends {
                Some(variable) => Some(&variable),
                None => None,
            },
    {
        match &self.extends {
            Some(variable) => Some(variable),
            None => None,
        }
    }
}

#[derive(Debug)]
pub struct Class<T> {
    pub is_final: bool,
    pub name: Identifier,
    pub extends: Option<Variable<T>>,
    pub items: Vec<ClassItem<T>>,
    /// Template instantiation chain, for diagnostics.
    pub provenance: Vec<Span>,
    /// Whether this class is declared in an interface.
    pub declared: bool,
    pub span: Span,
}

impl Class<()> {
    pub fn new(
        is_final: bool,
        name: Identifier,
        extends: Option<Variable<()>>,
        items: Vec<ClassItem<()>>,
        provenance: Vec<Span>,
        span: Span,
    ) -> (class: Self)
        ensures
            class == (Class { is_final, name, extends, items, provenance, declared: false, span }),
    {
        Class { is_final, name, extends, items, provenance, declared: false, span }
    }
}

impl<T> ClassLike<T> for Class<T> {
    fn is_final(&self) -> (is_final: bool)
        ensures
            is_final == self.is_final,
    {
        self.is_final
    }

    fn name(&self) -> (name: &Identifier)
        ensures
            *name == self.name,
    {
        &self.name
    }

    fn extends(&self) -> (extends: Option<&Variable<T>>)
        ensures
            extends == match self.extends {
                Some(variable) => Some(&variable),
                None => None,
            },
    {
        match &self.extends {
            Some(variable) => Some(variable),
            None => None,
        }
    }
}

#[derive(Debug)]
pub enum ClassItem<T> {
    Field(Declaration<T>),
    Method(Function<T>),
}

/// What the type checker needs to know of a function declaration or definition.
pub trait FunctionLike<T> {
    fn name(&self) -> &Identifier;

    fn parameters(&self) -> &Vec<SingleDeclaration<T>>;

    fn returned(&self) -> &Vec<Type<T>>;
}

#[derive(Debug)]
pub struct FunctionTemplate {
    pub name: Identifier,
    pub generics: Vec<Identifier>,
    pub parameters: Vec<SingleDeclaration<()>>,
    pub returned: Vec<Type<()>>,
    pub statements: Statement<()>,
    pub span: Span,
}

/// Represents a function signature (i.e. without implementation).
#[derive(Debug)]
pub struct FunctionSignature<T> {
    pub name: Identifier,
    pub parameters: Vec<SingleDeclaration<T>>,
    pub returned: Vec<Type<T>>,
    pub span: Span,
}

impl<T> FunctionLike<T> for FunctionSignature<T> {
    fn name(&self) -> (name: &Identifier)
        ensures
            *name == self.name,
    {
        &self.name
    }

    fn parameters(&self) -> (parameters: &Vec<SingleDeclaration<T>>)
        ensures
            *parameters == self.parameters,
    {
        &self.parameters
    }

    fn returned(&self) -> (returned: &Vec<Type<T>>)
        ensures
            *returned == self.returned,
    {
        &self.returned
    }
}

/// Represents a function definition (i.e. with implementation).
#[derive(Debug)]
pub struct Function<T> {
    pub name: Identifier,
    pub parameters: Vec<SingleDeclaration<T>>,
    pub returned: Vec<Type<T>>,
    pub statements: Statement<T>,
    /// Template instantiation chain, for diagnostics.
    pub provenance: Vec<Span>,
    /// Whether this function is declared in an interface.
    pub declared: bool,
    pub span: Span,
}

impl<T> FunctionLike<T> for Function<T> {
    fn name(&self) -> (name: &Identifier)
        ensures
            *name == self.name,
    {
        &self.name
    }

    fn parameters(&self) -> (parameters: &Vec<SingleDeclaration<T>>)
        ensures
            *parameters == self.parameters,
    {
        &self.parameters
    }

    fn returned(&self) -> (returned: &Vec<Type<T>>)
        ensures
            *returned == self.returned,
    {
        &self.returned
    }
}

/// Represents a primitive type.
#[derive(Debug)]
pub enum Type<T> {
    Bool(Span),
    Int(Span),
    Class(Variable<T>),
    Array(Box<Type<T>>, Option<Box<Expression<T>>>, Span),
}

impl<T> Type<T> {
    /// Whether an array length expression occurs anywhere in the type.
    pub open spec fn spec_has_length(self) -> bool
        decreases self,
    {
        match self {
            Type::Bool(_) | Type::Int(_) => false,
            Type::Class(variable) => match variable.generics {
                Some(generics) => exists|i: int|
                    0 <= i < generics.len() && (#[trigger] generics[i]).spec_has_length(),
                None => false,
            },
            Type::Array(inner, length, _) => length is Some || inner.spec_has_length(),
        }
    }

    pub open spec fn spec_span(self) -> Span {
        match self {
            Type::Bool(span) | Type::Int(span) | Type::Array(_, _, span) => span,
            Type::Class(variable) => variable.span,
        }
    }

    pub fn has_length(&self) -> (has: bool)
        ensures
            has == self.spec_has_length(),
        decreases self,
    {
        match self {
            Type::Bool(_) | Type::Int(_) => false,
            Type::Class(variable) => variable.has_length(),
            Type::Array(inner, length, _) => length.is_some() || inner.has_length(),
        }
    }

    pub fn span(&self) -> (span: Span)
        ensures
            span == self.spec_span(),
    {
        match self {
            Type::Bool(span) | Type::Int(span) | Type::Array(_, _, span) => *span,
            Type::Class(variable) => variable.span,
        }
    }
}

/// Represents an imperative statement.
#[derive(Debug)]
pub enum Statement<T> {
    /// Assignment
    Assignment(Box<Expression<T>>, Box<Expression<T>>, Span),
    /// Procedure call
    Call(Call<T>),
    /// Initialization
    Initialization(Initialization<T>),
    /// Variable declaration
    Declaration(Box<Declaration<T>>, Span),
    /// Return statement
    Return(Vec<Expression<T>>, Span),
    /// Statement block
    Sequence(Vec<Statement<T>>, Span),
    /// If-else block
    If(Box<Expression<T>>, Box<Statement<T>>, Option<Box<Statement<T>>>, Span),
    /// While block
    While(Do, Box<Expression<T>>, Box<Statement<T>>, Span),
    /// Break statement
    Break(Span),
}

impl<T> Statement<T> {
    pub open spec fn spec_span(self) -> Span {
        match self {
            Statement::Call(call) => call.span,
            Statement::Initialization(initialization) => initialization.span,
            Statement::Assignment(_, _, span)
            | Statement::Declaration(_, span)
            | Statement::Return(_, span)
            | Statement::Sequence(_, span)
            | Statement::If(_, _, _, span)
            | Statement::While(_, _, _, span)
            | Statement::Break(span) => span,
        }
    }

    pub fn span(&self) -> (span: Span)
        ensures
            span == self.spec_span(),
    {
        match self {
            Statement::Call(call) => call.span,
            Statement::Initialization(initialization) => initialization.span,
            Statement::Assignment(_, _, span)
            | Statement::Declaration(_, span)
            | Statement::Return(_, span)
            | Statement::Sequence(_, span)
            | Statement::If(_, _, _, span)
            | Statement::While(_, _, _, span)
            | Statement::Break(span) => *span,
        }
    }
}

/// Whether a loop is a `do`-`while` loop.
#[derive(Copy, Clone, Debug, PartialEq, Eq, Structural)]
pub enum Do {
    Yes,
    No,
}

/// Represents an expression (i.e. a term that can be evaluated).
#[derive(Debug)]
pub enum Expression<T> {
    /// Boolean literal
    Boolean(bool, Span),
    /// Char literal
    Character(char, Span),
    /// String literal
    String(String, Span),
    /// Integer literal
    Integer(i64, Span),
    /// Null literal
    Null(Span),
    /// Class reference
    This(T, Span),
    /// Superclass reference
    Super(T, Span),
    /// Variable
    Variable(Variable<T>, T),
    /// Array literal
    Array(Vec<Expression<T>>, T, Span),
    /// Binary operation
    Binary(Binary, Box<Expression<T>>, Box<Expression<T>>, T, Span),
    /// Unary operation
    Unary(Unary, Box<Expression<T>>, T, Span),
    /// Array index
    Index(Box<Expression<T>>, Box<Expression<T>>, T, Span),
    /// Array length
    Length(Box<Expression<T>>, Span),
    /// Function call
    Call(Call<T>),
    /// Dot operator
    Dot(Box<Expression<T>>, Identifier, T, Span),
    /// Class constructor
    New(Variable<T>, Span),
}

impl<T> Expression<T> {
    pub open spec fn spec_span(self) -> Span {
        match self {
            Expression::Boolean(_, span)
            | Expression::Character(_, span)
            | Expression::String(_, span)
            | Expression::Integer(_, span)
            | Expression::Null(span)
            | Expression::This(_, span)
            | Expression::Super(_, span)
            | Expression::Array(_, _, span)
            | Expression::Binary(_, _, _, _, span)
            | Expression::Unary(_, _, _, span)
            | Expression::Index(_, _, _, span)
            | Expression::Length(_, span)
            | Expression::Dot(_, _, _, span)
            | Expression::New(_, span) => span,
            Expression::Variable(variable, _) => variable.span,
            Expression::Call(call) => call.span,
        }
    }

    pub fn span(&self) -> (span: Span)
        ensures
            span == self.spec_span(),
    {
        match self {
            Expression::Boolean(_, span)
            | Expression::Character(_, span)
            | Expression::String(_, span)
            | Expression::Integer(_, span)
            | Expression::Null(span)
            | Expression::This(_, span)
            | Expression::Super(_, span)
            | Expression::Array(_, _, span)
            | Expression::Binary(_, _, _, _, span)
            | Expression::Unary(_, _, _, span)
            | Expression::Index(_, _, _, span)
            | Expression::Length(_, span)
            | Expression::Dot(_, _, _, span)
            | Expression::New(_, span) => *span,
            Expression::Variable(variable, _) => variable.span,
            Expression::Call(call) => call.span,
        }
    }

    /// The expression with its span replaced by `span`.
    pub open spec fn with_span(self, span: Span) -> Self {
        match self {
            Expression::Boolean(value, _) => Expression::Boolean(value, span),
            Expression::Character(value, _) => Expression::Character(value, span),
            Expression::String(value, _) => Expression::String(value, span),
            Expression::Integer(value, _) => Expression::Integer(value, span),
            Expression::Null(_) => Expression::Null(span),
            Expression::This(typ, _) => Expression::This(typ, span),
            Expression::Super(typ, _) => Expression::Super(typ, span),
            Expression::Array(elements, typ, _) => Expression::Array(elements, typ, span),
            Expression::Binary(binary, left, right, typ, _) => Expression::Binary(binary, left, right, typ, span),
            Expression::Unary(unary, operand, typ, _) => Expression::Unary(unary, operand, typ, span),
            Expression::Index(array, index, typ, _) => Expression::Index(array, index, typ, span),
            Expression::Length(array, _) => Expression::Length(array, span),
            Expression::Dot(receiver, field, typ, _) => Expression::Dot(receiver, field, typ, span),
            Expression::New(variable, _) => Expression::New(variable, span),
            Expression::Variable(variable, typ) => Expression::Variable(
                Variable { name: variable.name, generics: variable.generics, span },
                typ,
            ),
            Expression::Call(call) => Expression::Call(Call { function: call.function, arguments: call.arguments, span }),
        }
    }

    /// The span of the expression, to be changed in place.
    pub fn span_mut(&mut self) -> (span: &mut Span)
        ensures
            *span == old(self).spec_span(),
            *final(self) == old(self).with_span(*final(span)),
    {
        match self {
            Expression::Boolean(_, span) => span,
            Expression::Character(_, span) => span,
            Expression::String(_, span) => span,
            Expression::Integer(_, span) => span,
            Expression::Null(span) => span,
            Expression::This(_, span) => span,
            Expression::Super(_, span) => span,
            Expression::Array(_, _, span) => span,
            Expression::Binary(_, _, _, _, span) => span,
            Expression::Unary(_, _, _, span) => span,
            Expression::Index(_, _, _, span) => span,
            Expression::Length(_, span) => span,
            Expression::Dot(_, _, _, span) => span,
            Expression::New(_, span) => span,
            Expression::Variable(variable, _) => &mut variable.span,
            Expression::Call(call) => &mut call.span,
        }
    }
}

impl Binary {
    /// The comparison that holds exactly when this one fails; `None` for the
    /// other operators.
    pub open spec fn spec_complement(self) -> Option<Binary> {
        match self {
            Binary::Lt => Some(Binary::Ge),
            Binary::Le => Some(Binary::Gt),
            Binary::Ge => Some(Binary::Lt),
            Binary::Gt => Some(Binary::Le),
            Binary::Eq => Some(Binary::Ne),
            Binary::Ne => Some(Binary::Eq),
            _ => None,
        }
    }

    #[verifier::when_used_as_spec(spec_complement)]
    pub fn complement(self) -> (complement: Option<Binary>)
        ensures
            complement == self.spec_complement(),
    {
        match self {
            Binary::Lt => Some(Binary::Ge),
            Binary::Le => Some(Binary::Gt),
            Binary::Ge => Some(Binary::Lt),
            Binary::Gt => Some(Binary::Le),
            Binary::Eq => Some(Binary::Ne),
            Binary::Ne => Some(Binary::Eq),
            _ => None,
        }
    }
}

impl Expression<ty::Expression> {
    /// `negated` is `!self` wrapped around `self`, with type `typ` (a copy of it)
    /// and span `span`.
    pub open spec fn wraps(self, negated: Expression<ty::Expression>, typ: ty::Model, span: Span) -> bool {
        &&& negated matches Expression::Unary(Unary::Not, inner, negated_typ, negated_span)
        &&& *inner == self
        &&& negated_typ@ == typ
        &&& negated_span == span
    }

    /// What negating a Boolean expression gives: comparisons are complemented,
    /// literals flipped, a negation undone, and other Boolean expressions
    /// wrapped in a negation; expressions that cannot be Boolean stay as they are.
    pub open spec fn negates(self, negated: Expression<ty::Expression>) -> bool {
        match self {
            Expression::Variable(variable, typ) => self.wraps(negated, typ@, variable.span),
            Expression::Boolean(value, span) => negated == Expression::<ty::Expression>::Boolean(!value, span),
            Expression::Binary(binary, left, right, typ, span) => match binary.spec_complement() {
                Some(complement) => negated == Expression::Binary(complement, left, right, typ, span),
                None => if binary == Binary::And || binary == Binary::Or {
                    self.wraps(negated, typ@, span)
                } else {
                    negated == self
                },
            },
            Expression::Unary(Unary::Not, inner, _, _) => negated == *inner,
            Expression::Index(..) | Expression::Call(_) | Expression::Dot(..) => self.wraps(
                negated,
                ty::Model::Boolean,
                self.spec_span(),
            ),
            _ => negated == self,
        }
    }

    /// Negate this expression, which type checking found Boolean. Expressions
    /// that cannot be Boolean come back unchanged.
    pub fn negate_logical(self) -> (negated: Self)
        ensures
            self.negates(negated),
    {
        match self {
            Expression::Variable(variable, typ) => {
                let copy = typ.copy();
                let span = variable.span;
                Expression::Unary(Unary::Not, Box::new(Expression::Variable(variable, typ)), copy, span)
            },
            Expression::Boolean(value, span) => Expression::Boolean(!value, span),
            Expression::Binary(binary, left, right, typ, span) => match binary.complement() {
                Some(complement) => Expression::Binary(complement, left, right, typ, span),
                None => {
                    if binary == Binary::And || binary == Binary::Or {
                        // De Morgan's laws would recurse on both sides instead.
                        let copy = typ.copy();
                        Expression::Unary(Unary::Not, Box::new(Expression::Binary(binary, left, right, typ, span)), copy, span)
                    } else {
                        Expression::Binary(binary, left, right, typ, span)
                    }
                },
            },
            Expression::Unary(Unary::Not, inner, typ, span) => *inner,
            Expression::Index(array, index, typ, span) => {
                let original = Expression::Index(array, index, typ, span);
                Expression::Unary(Unary::Not, Box::new(original), ty::Expression::Boolean, span)
            },
            Expression::Dot(receiver, field, typ, span) => {
                let original = Expression::Dot(receiver, field, typ, span);
                Expression::Unary(Unary::Not, Box::new(original), ty::Expression::Boolean, span)
            },
            Expression::Call(call) => {
                let span = call.span;
                Expression::Unary(Unary::Not, Box::new(Expression::Call(call)), ty::Expression::Boolean, span)
            },
            expression => expression,
        }
    }
}

/// Represents a function call.
#[derive(Debug)]
pub struct Call<T> {
    pub function: Box<Expression<T>>,
    pub arguments: Vec<Expression<T>>,
    pub span: Span,
}

#[derive(Debug)]
pub enum Declaration<T> {
    Multiple(MultipleDeclaration<T>),
    Single(SingleDeclaration<T>),
}

impl<T> Declaration<T> {
    /// The declared names, each with the declared type.
    pub fn iter(&self) -> (entries: Vec<(&Identifier, &Type<T>)>)
        ensures
            match *self {
                Declaration::Single(single) => entries@.len() == 1 && *entries@[0].0 == single.name
                    && *entries@[0].1 == *single.typ,
                Declaration::Multiple(multiple) => entries@.len() == multiple.names@.len()
                    && forall|i: int| 0 <= i < entries@.len() ==> *(#[trigger] entries@[i]).0 == multiple.names@[i]
                        && *entries@[i].1 == *multiple.typ,
            },
    {
        match self {
            Declaration::Single(single) => {
                let mut entries: Vec<(&Identifier, &Type<T>)> = Vec::new();
                entries.push((&single.name, &*single.typ));
                entries
            },
            Declaration::Multiple(multiple) => {
                let mut entries: Vec<(&Identifier, &Type<T>)> = Vec::new();
                let mut index: usize = 0;
                while index < multiple.names.len()
                    invariant
                        index <= multiple.names@.len(),
                        entries@.len() == index,
                        forall|i: int| 0 <= i < index ==> *(#[trigger] entries@[i]).0 == multiple.names@[i]
                            && *entries@[i].1 == *multiple.typ,
                    decreases multiple.names@.len() - index,
                {
                    entries.push((&multiple.names[index], &*multiple.typ));
                    index += 1;
                }
                entries
            },
        }
    }

    pub open spec fn spec_has_length(self) -> bool {
        match self {
            Declaration::Multiple(multiple) => multiple.typ.spec_has_length(),
            Declaration::Single(single) => single.typ.spec_has_length(),
        }
    }

    pub open spec fn spec_span(self) -> Span {
        match self {
            Declaration::Multiple(multiple) => multiple.span,
            Declaration::Single(single) => single.span,
        }
    }

    pub fn has_length(&self) -> (has: bool)
        ensures
            has == self.spec_has_length(),
    {
        match self {
            Declaration::Multiple(multiple) => multiple.has_length(),
            Declaration::Single(single) => single.has_length(),
        }
    }

    pub fn span(&self) -> (span: Span)
        ensures
            span == self.spec_span(),
    {
        match self {
            Declaration::Multiple(multiple) => multiple.span(),
            Declaration::Single(single) => single.span(),
        }
    }
}

#[derive(Debug)]
pub struct MultipleDeclaration<T> {
    pub names: Vec<Identifier>,
    pub typ: Box<Type<T>>,
    pub span: Span,
}

impl<T> MultipleDeclaration<T> {
    pub fn new(names: Vec<Identifier>, typ: Type<T>, span: Span) -> (declaration: Self)
        ensures
            declaration == (MultipleDeclaration { names, typ: Box::new(typ), span }),
    {
        MultipleDeclaration { names, typ: Box::new(typ), span }
    }

    pub fn has_length(&self) -> (has: bool)
        ensures
            has == self.typ.spec_has_length(),
    {
        self.typ.has_length()
    }

    pub fn span(&self) -> (span: Span)
        ensures
            span == self.span,
    {
        self.span
    }
}

#[derive(Debug)]
pub struct SingleDeclaration<T> {
    pub name: Identifier,
    pub typ: Box<Type<T>>,
    pub span: Span,
}

impl<T> SingleDeclaration<T> {
    pub fn new(name: Identifier, typ: Type<T>, span: Span) -> (declaration: Self)
        ensures
            declaration == (SingleDeclaration { name, typ: Box::new(typ), span }),
    {
        SingleDeclaration { name, typ: Box::new(typ), span }
    }

    pub fn has_length(&self) -> (has: bool)
        ensures
            has == self.typ.spec_has_length(),
    {
        self.typ.has_length()
    }

    pub fn span(&self) -> (span: Span)
        ensures
            span == self.span,
    {
        self.span
    }
}

/// Represents a binary operator.
#[derive(Copy, Clone, Debug, PartialEq, Eq, Structural)]
pub enum Binary {
    Mul,
    Hul,
    Div,
    Mod,
    Add,
    Cat,
    Sub,
    Lt,
    Le,
    Ge,
    Gt,
    Eq,
    Ne,
    And,
    Or,
}

impl Binary {
    /// Operators with an IR counterpart in `ir::Binary`.
    pub open spec fn is_arithmetic_or_logical(self) -> bool {
        match self {
            Binary::Mul | Binary::Hul | Binary::Div | Binary::Mod | Binary::Add | Binary::Sub
            | Binary::And | Binary::Or => true,
            _ => false,
        }
    }

    /// Operators with an IR counterpart in `ir::Condition`.
    pub open spec fn is_comparison(self) -> bool {
        match self {
            Binary::Lt | Binary::Le | Binary::Ge | Binary::Gt | Binary::Eq | Binary::Ne => true,
            _ => false,
        }
    }
}

/// Represents a unary operator.
#[derive(Copy, Clone, Debug, PartialEq, Eq, Structural)]
pub enum Unary {
    Neg,
    Not,
}

/// A name, optionally applied to type arguments.
#[derive(Debug)]
pub struct Variable<T> {
    pub name: Identifier,
    pub generics: Option<Vec<Type<T>>>,
    pub span: Span,
}

impl<T> Variable<T> {
    pub fn has_length(&self) -> (has: bool)
        ensures
            has == Type::Class(*self).spec_has_length(),
        decreases self,
    {
        match &self.generics {
            None => false,
            Some(generics) => {
                let mut index: usize = 0;
                while index < generics.len()
                    invariant
                        self.generics == Some(*generics),
                        index <= generics@.len(),
                        forall|i: int| 0 <= i < index ==> !(#[trigger] generics[i]).spec_has_length(),
                    decreases generics@.len() - index,
                {
                    proof {
                        let nested = self.generics;
                        assert(decreases_to!(nested => nested->0));
                        assert(decreases_to!(nested->0 => nested->0[index as int]));
                        assert(decreases_to!(*self => nested));
                    }
                    if generics[index].has_length() {
                        assert(generics[index as int].spec_has_length());
                        return true;
                    }
                    index += 1;
                }
                false
            },
        }
    }
}

/// A name, with the span where it occurs; two identifiers are equal when their names are.
#[derive(Clone, Debug, Eq)]
pub struct Identifier {
    pub symbol: Symbol,
    pub span: Box<Span>,
}

impl PartialEq for Identifier {
    fn eq(&self, other: &Self) -> (equal: bool) {
        self.symbol.0 == other.symbol.0
    }
}

impl vstd::std_specs::cmp::PartialEqSpecImpl for Identifier {
    open spec fn obeys_eq_spec() -> bool {
        true
    }

    open spec fn eq_spec(&self, other: &Identifier) -> bool {
        self.symbol == other.symbol
    }
}

impl Identifier {
    pub fn copy(&self) -> (copy: Identifier)
        ensures
            copy == *self,
    {
        Identifier { symbol: self.symbol, span: Box::new(*self.span) }
    }
}

} // verus!

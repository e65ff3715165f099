use vstd::prelude::*;

use crate::check::context::Bound;
use crate::check::context::Context;
use crate::check::context::Fixed;
use crate::check::context::Entry;
use crate::check::context::EntryModel;
use crate::check::context::Locals;
use crate::check::context::bindings;
use crate::check::context::scoped;
use crate::check::context::scoped_class;
use crate::check::context::scoped_returns;
use crate::check::context::innermost_while;
use crate::check::context::lookup_locals;
use crate::check::context::ScopeModel;
use crate::check::context::GlobalScope;
use crate::check::context::LeastUpperBound;
use crate::check::context::Scope;
use crate::check::error::error;
use crate::check::error::Error;
use crate::check::error::ErrorKind;
use crate::check::error::ErrorKindModel;
use crate::check::error::ErrorModel;
use crate::collections::KeySet;
use crate::data::ast;
use crate::data::ast::Identifier;
use crate::data::span::Span;
use crate::data::symbol::Symbol;
use crate::data::ty;
use crate::data::ty::models;
use crate::data::ty::Model;

verus! {

/// What checking a piece of the program comes to: its type, the first type
/// error found, or an input the checker does not accept (such as a name
/// applied to type arguments after templates were expanded).
pub enum Outcome<T> {
    Typed(T),
    Failed(ErrorModel),
    Stuck,
}

/// A mismatch between an expected and a found type, reported at `span`.
pub open spec fn mismatch(span: Span, expected: Model, expected_span: Option<Span>, found: Model) -> ErrorModel {
    error(span, ErrorKindModel::Mismatch { expected, expected_span, found })
}

/// The type of an array whose elements have any type.
pub open spec fn any_array() -> Model {
    Model::Array(Box::new(Model::Any))
}

/// The parameter and result types of an operator other than `==` and `!=`.
pub open spec fn operator_types(binary: ast::Binary) -> (Model, Model) {
    match binary {
        ast::Binary::Lt | ast::Binary::Le | ast::Binary::Ge | ast::Binary::Gt => (Model::Integer, Model::Boolean),
        ast::Binary::And | ast::Binary::Or => (Model::Boolean, Model::Boolean),
        _ => (Model::Integer, Model::Integer),
    }
}

/// The type annotation of a checked expression.
pub open spec fn annotation(expression: ast::Expression<ty::Expression>) -> Option<Model>
    decreases expression,
{
    match expression {
        ast::Expression::Boolean(..) => Some(Model::Boolean),
        ast::Expression::Character(..) | ast::Expression::Integer(..) | ast::Expression::Length(..) => Some(Model::Integer),
        ast::Expression::String(..) => Some(Model::Array(Box::new(Model::Integer))),
        ast::Expression::Null(_) => Some(Model::Null),
        ast::Expression::This(typ, _)
        | ast::Expression::Super(typ, _)
        | ast::Expression::Variable(_, typ)
        | ast::Expression::Array(_, typ, _)
        | ast::Expression::Binary(_, _, _, typ, _)
        | ast::Expression::Unary(_, _, typ, _)
        | ast::Expression::Index(_, _, typ, _)
        | ast::Expression::Dot(_, _, typ, _) => Some(typ@),
        ast::Expression::New(class, _) => if class.generics is None {
            Some(Model::Class(class.name.symbol))
        } else {
            None
        },
        ast::Expression::Call(call) => match annotation(*call.function) {
            Some(Model::Function(_, returned)) => if returned.len() == 1 {
                Some(returned[0])
            } else {
                None
            },
            _ => None,
        },
    }
}

impl ast::Expression<ty::Expression> {
    /// The type of a checked expression.
    pub fn typ(&self) -> (typ: ty::Expression)
        requires
            annotation(*self) is Some,
        ensures
            typ@ == annotation(*self)->0,
        decreases self,
    {
        match self {
            ast::Expression::Boolean(_, _) => ty::Expression::Boolean,
            ast::Expression::Character(_, _) | ast::Expression::Integer(_, _) | ast::Expression::Length(_, _) => ty::Expression::Integer,
            ast::Expression::String(_, _) => {
                let integer = ty::Expression::Integer;
                assert(integer@ == Model::Integer);
                ty::Expression::Array(Box::new(integer))
            },
            ast::Expression::Null(_) => ty::Expression::Null,
            ast::Expression::This(typ, _)
            | ast::Expression::Super(typ, _)
            | ast::Expression::Variable(_, typ)
            | ast::Expression::Array(_, typ, _)
            | ast::Expression::Binary(_, _, _, typ, _)
            | ast::Expression::Unary(_, _, typ, _)
            | ast::Expression::Index(_, _, typ, _)
            | ast::Expression::Dot(_, _, typ, _) => typ.copy(),
            ast::Expression::New(class, _) => ty::Expression::Class(class.name.symbol),
            ast::Expression::Call(call) => {
                let function = call.function.typ();
                match function {
                    ty::Expression::Function(_, returned) => {
                        proof {
                            function.lemma_function_model();
                            assert(models(returned@)[0] == returned@[0]@);
                        }
                        returned[0].copy()
                    },
                    _ => {
                        assert(false);
                        ty::Expression::Any
                    },
                }
            },
        }
    }
}

impl ast::Type<ty::Expression> {
    /// The type a checked type annotation denotes, if it names no type arguments.
    pub open spec fn denotes(self) -> Option<Model>
        decreases self,
    {
        match self {
            ast::Type::Bool(_) => Some(Model::Boolean),
            ast::Type::Int(_) => Some(Model::Integer),
            ast::Type::Class(variable) => if variable.generics is None {
                Some(Model::Class(variable.name.symbol))
            } else {
                None
            },
            ast::Type::Array(inner, _, _) => match inner.denotes() {
                Some(typ) => Some(Model::Array(Box::new(typ))),
                None => None,
            },
        }
    }

    /// The type a checked type annotation denotes.
    pub fn typ(&self) -> (typ: ty::Expression)
        requires
            self.denotes() is Some,
        ensures
            typ@ == self.denotes()->0,
        decreases self,
    {
        match self {
            ast::Type::Bool(_) => ty::Expression::Boolean,
            ast::Type::Int(_) => ty::Expression::Integer,
            ast::Type::Class(variable) => ty::Expression::Class(variable.name.symbol),
            ast::Type::Array(inner, _, _) => ty::Expression::Array(Box::new(inner.typ())),
        }
    }
}

impl Fixed {
    /// The type of `expression` (or the first error in it) in this context.
    pub open spec fn typing(self, locals: Locals, expression: ast::Expression<()>) -> Outcome<Model>
        decreases expression, 0nat,
    {
        match expression {
            ast::Expression::Boolean(_, _) => Outcome::Typed(Model::Boolean),
            ast::Expression::Character(_, _) => Outcome::Typed(Model::Integer),
            ast::Expression::String(_, _) => Outcome::Typed(Model::Array(Box::new(Model::Integer))),
            ast::Expression::Integer(_, _) => Outcome::Typed(Model::Integer),
            ast::Expression::Null(_) => Outcome::Typed(Model::Null),
            ast::Expression::This(_, span) => if !scoped(locals) {
                Outcome::Stuck
            } else {
                match scoped_class(locals) {
                    Some(class) => Outcome::Typed(Model::Class(class)),
                    None => Outcome::Failed(error(span, ErrorKindModel::NotInClass(None))),
                }
            },
            ast::Expression::Super(_, span) => if !scoped(locals) {
                Outcome::Stuck
            } else {
                match scoped_class(locals) {
                None => Outcome::Failed(error(span, ErrorKindModel::NotInClass(None))),
                Some(class) => match self.parent(class) {
                    Some(superclass) => Outcome::Typed(Model::Class(superclass)),
                    None => Outcome::Failed(error(span, ErrorKindModel::NoSuperclass(class))),
                },
                }
            },
            ast::Expression::Variable(variable, _) => if variable.generics is Some || !self.lookup_defined(
                locals,
                Scope::Local,
                variable.name.symbol,
            ) {
                Outcome::Stuck
            } else {
                match self.lookup(locals, Scope::Local, variable.name.symbol) {
                    Some((_, EntryModel::Variable(typ))) => Outcome::Typed(typ),
                    Some(_) => Outcome::Failed(error(*variable.name.span, ErrorKindModel::NotVariable(variable.name.symbol))),
                    None => Outcome::Failed(error(*variable.name.span, ErrorKindModel::UnboundVariable(variable.name.symbol))),
                }
            },
            ast::Expression::Array(elements, _, _) => match self.typing_elements(locals, elements, 0, Model::Any, None) {
                Outcome::Typed(bound) => Outcome::Typed(Model::Array(Box::new(bound))),
                Outcome::Failed(error) => Outcome::Failed(error),
                Outcome::Stuck => Outcome::Stuck,
            },
            ast::Expression::Binary(binary, left, right, _, _) => match (self.typing(locals, *left), self.typing(locals, *right)) {
                (Outcome::Stuck, _) => Outcome::Stuck,
                (Outcome::Failed(error), _) => Outcome::Failed(error),
                (_, Outcome::Stuck) => Outcome::Stuck,
                (_, Outcome::Failed(error)) => Outcome::Failed(error),
                (Outcome::Typed(l), Outcome::Typed(r)) => self.binary_typing(binary, l, left.spec_span(), r, right.spec_span()),
            },
            ast::Expression::Unary(unary, operand, _, _) => match self.typing(locals, *operand) {
                Outcome::Typed(typ) => {
                    let expected = if unary == ast::Unary::Neg { Model::Integer } else { Model::Boolean };
                    if typ == expected {
                        Outcome::Typed(expected)
                    } else {
                        Outcome::Failed(mismatch(operand.spec_span(), expected, None, typ))
                    }
                },
                Outcome::Failed(error) => Outcome::Failed(error),
                Outcome::Stuck => Outcome::Stuck,
            },
            ast::Expression::Index(array, index, _, span) => match (self.typing(locals, *array), self.typing(locals, *index)) {
                (Outcome::Stuck, _) => Outcome::Stuck,
                (Outcome::Failed(error), _) => Outcome::Failed(error),
                (_, Outcome::Stuck) => Outcome::Stuck,
                (_, Outcome::Failed(error)) => Outcome::Failed(error),
                (Outcome::Typed(a), Outcome::Typed(i)) => match a {
                    Model::Array(element) => if i == Model::Integer {
                        if *element == Model::Any {
                            Outcome::Failed(error(span, ErrorKindModel::IndexEmpty))
                        } else {
                            Outcome::Typed(*element)
                        }
                    } else {
                        Outcome::Failed(mismatch(index.spec_span(), Model::Integer, None, *element))
                    },
                    _ => Outcome::Failed(mismatch(array.spec_span(), any_array(), None, a)),
                },
            },
            ast::Expression::Length(array, span) => match self.typing(locals, *array) {
                Outcome::Typed(Model::Array(_)) => Outcome::Typed(Model::Integer),
                Outcome::Typed(typ) => Outcome::Failed(mismatch(span, any_array(), None, typ)),
                Outcome::Failed(error) => Outcome::Failed(error),
                Outcome::Stuck => Outcome::Stuck,
            },
            ast::Expression::Dot(receiver, field, _, _) => match self.typing(locals, *receiver) {
                Outcome::Typed(Model::Class(class)) => if self.lookup_defined(locals, Scope::Global(GlobalScope::Class(class)), field.symbol) {
                    match self.lookup(locals, Scope::Global(GlobalScope::Class(class)), field.symbol) {
                        None => Outcome::Failed(error(*field.span, ErrorKindModel::UnboundVariable(field.symbol))),
                        Some((_, EntryModel::Variable(typ))) => Outcome::Typed(typ),
                        Some(_) => Outcome::Failed(error(*field.span, ErrorKindModel::NotVariable(field.symbol))),
                    }
                } else {
                    Outcome::Stuck
                },
                Outcome::Typed(_) => Outcome::Failed(error(receiver.spec_span(), ErrorKindModel::NotClass)),
                Outcome::Failed(error) => Outcome::Failed(error),
                Outcome::Stuck => Outcome::Stuck,
            },
            ast::Expression::New(class, span) => if class.generics is Some {
                Outcome::Stuck
            } else if self.class_implementations.contains_key(class.name.symbol) {
                Outcome::Typed(Model::Class(class.name.symbol))
            } else if self.classes.contains_key(class.name.symbol) {
                Outcome::Failed(error(span, ErrorKindModel::NotInClassModule(class.name.symbol)))
            } else {
                Outcome::Failed(error(*class.name.span, ErrorKindModel::UnboundClass(class.name.symbol)))
            },
            ast::Expression::Call(call) => match self.call_typing(locals, call) {
                Outcome::Typed((_, returned)) => if returned.len() == 1 {
                    Outcome::Typed(returned[0])
                } else {
                    Outcome::Failed(error(call.span, ErrorKindModel::NotExp))
                },
                Outcome::Failed(error) => Outcome::Failed(error),
                Outcome::Stuck => Outcome::Stuck,
            },
        }
    }

    /// The type of an operation whose operands have the types `left` and `right`.
    pub open spec fn binary_typing(self, binary: ast::Binary, left: Model, left_span: Span, right: Model, right_span: Span) -> Outcome<Model> {
        if binary == ast::Binary::Eq || binary == ast::Binary::Ne {
            if self.spec_is_subtype(left, right) || self.spec_is_subtype(right, left) {
                Outcome::Typed(Model::Boolean)
            } else {
                Outcome::Failed(mismatch(right_span, left, Some(left_span), right))
            }
        } else if (binary == ast::Binary::Add || binary == ast::Binary::Cat) && left is Array && right is Array {
            match self.spec_least_upper_bound(left, right) {
                Some(Bound::Left(typ)) => Outcome::Typed(typ),
                Some(Bound::Right(typ)) => Outcome::Typed(typ),
                None => Outcome::Failed(mismatch(right_span, left, Some(left_span), right)),
            }
        } else {
            let (parameter, result) = operator_types(binary);
            if self.spec_is_subtype(left, parameter) && self.spec_is_subtype(right, parameter) {
                Outcome::Typed(result)
            } else if self.spec_is_subtype(left, parameter) {
                Outcome::Failed(mismatch(right_span, parameter, None, right))
            } else {
                Outcome::Failed(mismatch(left_span, parameter, None, left))
            }
        }
    }

    /// The least upper bound of the element types from `index` on, starting from
    /// `bound`, which the element at `bound_span` set (if any did).
    pub open spec fn typing_elements(self, locals: Locals, elements: Vec<ast::Expression<()>>, index: nat, bound: Model, bound_span: Option<Span>) -> Outcome<Model>
        decreases elements, elements@.len() - index,
    {
        if index >= elements@.len() {
            Outcome::Typed(bound)
        } else {
            let element = elements[index as int];
            match self.typing(locals, element) {
                Outcome::Typed(typ) => match self.spec_least_upper_bound(bound, typ) {
                    None => Outcome::Failed(mismatch(element.spec_span(), bound, bound_span, typ)),
                    Some(Bound::Left(next)) => self.typing_elements(locals, elements, index + 1, next, bound_span),
                    Some(Bound::Right(next)) => self.typing_elements(locals, elements, index + 1, next, Some(element.spec_span())),
                },
                Outcome::Failed(error) => Outcome::Failed(error),
                Outcome::Stuck => Outcome::Stuck,
            }
        }
    }

    /// The scope and name of the function a call names, and the span to blame.
    pub open spec fn callee(self, locals: Locals, function: ast::Expression<()>) -> Outcome<(Scope, Symbol, Span)>
        decreases function, 0nat,
    {
        match function {
            ast::Expression::Variable(variable, _) => if variable.generics is Some {
                Outcome::Stuck
            } else {
                Outcome::Typed((Scope::Local, variable.name.symbol, *variable.name.span))
            },
            ast::Expression::Dot(receiver, name, _, span) => match self.typing(locals, *receiver) {
                Outcome::Typed(Model::Class(class)) => Outcome::Typed((Scope::Global(GlobalScope::Class(class)), name.symbol, span)),
                Outcome::Typed(_) => Outcome::Failed(error(receiver.spec_span(), ErrorKindModel::NotClass)),
                Outcome::Failed(error) => Outcome::Failed(error),
                Outcome::Stuck => Outcome::Stuck,
            },
            _ => Outcome::Failed(error(function.spec_span(), ErrorKindModel::NotFun(None))),
        }
    }

    /// The parameter and result types of the function a call applies, once its
    /// arguments check against the parameters.
    pub open spec fn call_typing(self, locals: Locals, call: ast::Call<()>) -> Outcome<(Seq<Model>, Seq<Model>)>
        decreases call, 1nat,
    {
        match self.callee(locals, *call.function) {
            Outcome::Typed((scope, name, span)) => if !self.lookup_defined(locals, scope, name) {
                Outcome::Stuck
            } else {
                match self.lookup(locals, scope, name) {
                    Some((_, EntryModel::Function(parameters, returned))) | Some((_, EntryModel::Signature(parameters, returned))) => {
                        if call.arguments@.len() != parameters.len() {
                            Outcome::Failed(error(call.span, ErrorKindModel::CallLength))
                        } else {
                            match self.typing_arguments(locals, call.arguments, parameters, 0) {
                                Outcome::Typed(_) => Outcome::Typed((parameters, returned)),
                                Outcome::Failed(error) => Outcome::Failed(error),
                                Outcome::Stuck => Outcome::Stuck,
                            }
                        }
                    },
                    Some(_) => Outcome::Failed(error(span, ErrorKindModel::NotFun(Some(name)))),
                    None => Outcome::Failed(error(span, ErrorKindModel::UnboundFun(name))),
                }
            },
            Outcome::Failed(error) => Outcome::Failed(error),
            Outcome::Stuck => Outcome::Stuck,
        }
    }

    /// The arguments from `index` on each check and subtype their parameter.
    pub open spec fn typing_arguments(self, locals: Locals, arguments: Vec<ast::Expression<()>>, parameters: Seq<Model>, index: nat) -> Outcome<()>
        decreases arguments, arguments@.len() - index,
    {
        if index >= arguments@.len() {
            Outcome::Typed(())
        } else {
            let argument = arguments[index as int];
            match self.typing(locals, argument) {
                Outcome::Typed(typ) => if self.spec_is_subtype(typ, parameters[index as int]) {
                    self.typing_arguments(locals, arguments, parameters, index + 1)
                } else {
                    Outcome::Failed(mismatch(argument.spec_span(), parameters[index as int], None, typ))
                },
                Outcome::Failed(error) => Outcome::Failed(error),
                Outcome::Stuck => Outcome::Stuck,
            }
        }
    }

    /// `typed` is `expression` checked: each node is the node of `expression`,
    /// with its literals, names and spans, annotated with the type that
    /// [`Fixed::typing`] gives it, and `+` on two arrays made a concatenation.
    #[verifier::opaque]
    pub open spec fn checks(self, locals: Locals, typed: ast::Expression<ty::Expression>, expression: ast::Expression<()>) -> bool
        decreases expression, 0nat,
    {
        &&& annotation(typed) is Some
        &&& self.typing(locals, expression) == Outcome::Typed(annotation(typed)->0)
        &&& match expression {
            ast::Expression::Boolean(boolean, span) => typed == ast::Expression::<ty::Expression>::Boolean(boolean, span),
            ast::Expression::Character(character, span) => typed == ast::Expression::<ty::Expression>::Character(character, span),
            ast::Expression::String(string, span) => typed == ast::Expression::<ty::Expression>::String(string, span),
            ast::Expression::Integer(integer, span) => typed == ast::Expression::<ty::Expression>::Integer(integer, span),
            ast::Expression::Null(span) => typed == ast::Expression::<ty::Expression>::Null(span),
            ast::Expression::This(_, span) => typed matches ast::Expression::This(_, found) && found == span,
            ast::Expression::Super(_, span) => typed matches ast::Expression::Super(_, found) && found == span,
            ast::Expression::Variable(variable, _) => typed matches ast::Expression::Variable(found, _) && found.name
                == variable.name && found.generics is None && found.span == variable.span,
            ast::Expression::Array(elements, _, span) => typed matches ast::Expression::Array(found, _, found_span)
                && found_span == span && found@.len() == elements@.len() && self.checks_elements(locals, found@, elements, 0),
            ast::Expression::Binary(binary, left, right, _, span) => typed matches ast::Expression::Binary(
                found,
                checked_left,
                checked_right,
                _,
                found_span,
            ) && found_span == span && self.checks(locals, *checked_left, *left) && self.checks(
                locals,
                *checked_right,
                *right,
            ) && found == checked_operator(binary, annotation(*checked_left), annotation(*checked_right)),
            ast::Expression::Unary(unary, operand, _, span) => typed matches ast::Expression::Unary(found, checked, _, found_span)
                && found == unary && found_span == span && self.checks(locals, *checked, *operand),
            ast::Expression::Index(array, index, _, span) => typed matches ast::Expression::Index(
                checked_array,
                checked_index,
                _,
                found_span,
            ) && found_span == span && self.checks(locals, *checked_array, *array) && self.checks(
                locals,
                *checked_index,
                *index,
            ),
            ast::Expression::Length(array, span) => typed matches ast::Expression::Length(checked, found_span) && found_span
                == span && self.checks(locals, *checked, *array),
            ast::Expression::Dot(receiver, field, _, span) => typed matches ast::Expression::Dot(checked, found, _, found_span)
                && found == field && found_span == span && self.checks(locals, *checked, *receiver),
            ast::Expression::New(variable, span) => typed matches ast::Expression::New(found, found_span) && found.name
                == variable.name && found.generics is None && found.span == variable.span && found_span == span,
            ast::Expression::Call(call) => typed matches ast::Expression::Call(found) && self.call_checks(locals, found, call),
        }
    }

    /// The elements of `typed` from `index` on are those of `elements` checked.
    pub open spec fn checks_elements(
        self,
        locals: Locals,
        typed: Seq<ast::Expression<ty::Expression>>,
        elements: Vec<ast::Expression<()>>,
        index: nat,
    ) -> bool
        decreases elements, elements@.len() - index,
    {
        if index >= elements@.len() {
            true
        } else {
            self.checks(locals, typed[index as int], elements[index as int]) && self.checks_elements(
                locals,
                typed,
                elements,
                index + 1,
            )
        }
    }

    /// `typed` is `call` checked: the same callee, its receiver checked and
    /// annotated with the function's type, and the arguments checked.
    pub open spec fn call_checks(self, locals: Locals, typed: ast::Call<ty::Expression>, call: ast::Call<()>) -> bool
        decreases call, 1nat,
    {
        &&& typed.span == call.span
        &&& match self.call_typing(locals, call) {
            Outcome::Typed((parameters, returned)) => annotation(*typed.function) == Some(Model::Function(parameters, returned)),
            _ => false,
        }
        &&& typed.arguments@.len() == call.arguments@.len()
        &&& self.checks_elements(locals, typed.arguments@, call.arguments, 0)
        &&& match *call.function {
            ast::Expression::Variable(variable, _) => *typed.function matches ast::Expression::Variable(found, _) && found.name
                == variable.name && found.generics is None && found.span == variable.span,
            ast::Expression::Dot(receiver, name, _, span) => *typed.function matches ast::Expression::Dot(
                checked,
                found,
                _,
                found_span,
            ) && found == name && found_span == span && self.checks(locals, *checked, *receiver),
            _ => false,
        }
    }

    /// Elements checked one by one are checked from any index on.
    pub proof fn lemma_checks_elements(
        self,
        locals: Locals,
        typed: Seq<ast::Expression<ty::Expression>>,
        elements: Vec<ast::Expression<()>>,
        index: nat,
    )
        requires
            typed.len() == elements@.len(),
            forall|j: int| index <= j < elements@.len() ==> self.checks(locals, #[trigger] typed[j], elements@[j]),
        ensures
            self.checks_elements(locals, typed, elements, index),
        decreases elements@.len() - index,
    {
        if index < elements@.len() {
            self.lemma_checks_elements(locals, typed, elements, index + 1);
            assert(self.checks(locals, typed[index as int], elements@[index as int]));
            assert(elements[index as int] == elements@[index as int]);
            assert(self.checks_elements(locals, typed, elements, index)) by {
                reveal(Fixed::checks);
                reveal_with_fuel(Fixed::checks_elements, 1);
            }
        }
    }
}

/// `typed` declares the names of `declaration`, at its span.
pub open spec fn declaration_shape(typed: ast::Declaration<ty::Expression>, declaration: ast::Declaration<()>) -> bool {
    match declaration {
        ast::Declaration::Single(single) => typed matches ast::Declaration::Single(found) && declared_in_place(
            Some(found),
            Some(single),
        ),
        ast::Declaration::Multiple(multiple) => typed matches ast::Declaration::Multiple(found) && found.names == multiple.names
            && found.span == multiple.span,
    }
}

/// A declaration slot checked: empty where it was, else the same name and span.
pub open spec fn declared_in_place(
    typed: Option<ast::SingleDeclaration<ty::Expression>>,
    declaration: Option<ast::SingleDeclaration<()>>,
) -> bool {
    match declaration {
        None => typed is None,
        Some(declaration) => typed matches Some(found) && found.name == declaration.name && found.span == declaration.span,
    }
}

/// The operator of a checked binary expression whose operands have types
/// `left` and `right`: `+` or `++` on two arrays is a concatenation.
pub open spec fn checked_operator(binary: ast::Binary, left: Option<Model>, right: Option<Model>) -> ast::Binary {
    if (binary == ast::Binary::Add || binary == ast::Binary::Cat) && left is Some && left->0 is Array && right is Some
        && right->0 is Array {
        ast::Binary::Cat
    } else {
        binary
    }
}

/// The local scopes with a new, empty innermost scope of the given kind.
pub open spec fn enter(locals: Locals, kind: ScopeModel) -> Locals {
    locals.push((kind, Map::empty()))
}

/// The local scopes without the innermost one.
pub open spec fn leave(locals: Locals) -> Locals {
    if locals.len() == 0 {
        locals
    } else {
        locals.drop_last()
    }
}

/// `Void` only when both are.
pub open spec fn statement_bound(left: ty::Statement, right: ty::Statement) -> ty::Statement {
    if left == ty::Statement::Void && right == ty::Statement::Void {
        ty::Statement::Void
    } else {
        ty::Statement::Unit
    }
}

impl Fixed {
    /// An operator applied to two `int` operands: a comparison (ordering or
    /// equality) has type `bool`, an arithmetic operator has type `int`, and a
    /// logical operator is refused.
    pub proof fn lemma_integer_operands(
        self,
        locals: Locals,
        binary: ast::Binary,
        left: ast::Expression<()>,
        right: ast::Expression<()>,
        span: Span,
    )
        requires
            self.typing(locals, left) == Outcome::Typed(Model::Integer),
            self.typing(locals, right) == Outcome::Typed(Model::Integer),
        ensures
            binary == ast::Binary::Lt || binary == ast::Binary::Le || binary == ast::Binary::Ge || binary == ast::Binary::Gt
                || binary == ast::Binary::Eq || binary == ast::Binary::Ne ==> self.typing(
                locals,
                ast::Expression::Binary(binary, Box::new(left), Box::new(right), (), span),
            ) == Outcome::<Model>::Typed(Model::Boolean),
            binary == ast::Binary::Mul || binary == ast::Binary::Hul || binary == ast::Binary::Div || binary == ast::Binary::Mod
                || binary == ast::Binary::Add || binary == ast::Binary::Sub ==> self.typing(
                locals,
                ast::Expression::Binary(binary, Box::new(left), Box::new(right), (), span),
            ) == Outcome::<Model>::Typed(Model::Integer),
            binary == ast::Binary::And || binary == ast::Binary::Or ==> self.typing(
                locals,
                ast::Expression::Binary(binary, Box::new(left), Box::new(right), (), span),
            ) is Failed,
    {
    }

    /// An operator applied to two `bool` operands: `&`, `|`, `==` and `!=` have
    /// type `bool`; ordering and arithmetic operators are refused.
    pub proof fn lemma_boolean_operands(
        self,
        locals: Locals,
        binary: ast::Binary,
        left: ast::Expression<()>,
        right: ast::Expression<()>,
        span: Span,
    )
        requires
            self.typing(locals, left) == Outcome::Typed(Model::Boolean),
            self.typing(locals, right) == Outcome::Typed(Model::Boolean),
        ensures
            binary == ast::Binary::And || binary == ast::Binary::Or || binary == ast::Binary::Eq || binary == ast::Binary::Ne
                ==> self.typing(
                locals,
                ast::Expression::Binary(binary, Box::new(left), Box::new(right), (), span),
            ) == Outcome::<Model>::Typed(Model::Boolean),
            binary == ast::Binary::Lt || binary == ast::Binary::Le || binary == ast::Binary::Ge || binary == ast::Binary::Gt
                || binary == ast::Binary::Mul || binary == ast::Binary::Hul || binary == ast::Binary::Div || binary
                == ast::Binary::Mod || binary == ast::Binary::Add || binary == ast::Binary::Sub ==> self.typing(
                locals,
                ast::Expression::Binary(binary, Box::new(left), Box::new(right), (), span),
            ) is Failed,
    {
    }

    /// The type a type annotation denotes, once its class names and array
    /// lengths check.
    pub open spec fn type_typing(self, locals: Locals, typ: ast::Type<()>) -> Outcome<Model>
        decreases typ,
    {
        match typ {
            ast::Type::Bool(_) => Outcome::Typed(Model::Boolean),
            ast::Type::Int(_) => Outcome::Typed(Model::Integer),
            ast::Type::Class(variable) => if variable.generics is Some {
                Outcome::Stuck
            } else if self.classes.contains_key(variable.name.symbol) {
                Outcome::Typed(Model::Class(variable.name.symbol))
            } else {
                Outcome::Failed(error(*variable.name.span, ErrorKindModel::UnboundClass(variable.name.symbol)))
            },
            ast::Type::Array(inner, length, _) => match self.type_typing(locals, *inner) {
                Outcome::Typed(element) => match length {
                    None => Outcome::Typed(Model::Array(Box::new(element))),
                    Some(length) => match self.typing(locals, *length) {
                        Outcome::Typed(Model::Integer) => Outcome::Typed(Model::Array(Box::new(element))),
                        Outcome::Typed(other) => Outcome::Failed(mismatch(length.spec_span(), Model::Integer, None, other)),
                        Outcome::Failed(error) => Outcome::Failed(error),
                        Outcome::Stuck => Outcome::Stuck,
                    },
                },
                Outcome::Failed(error) => Outcome::Failed(error),
                Outcome::Stuck => Outcome::Stuck,
            },
        }
    }

    /// Bind `name` to a variable of type `typ` in the innermost local scope;
    /// a name bound in any local scope already clashes.
    pub open spec fn declare(self, locals: Locals, name: Identifier, typ: Model) -> Outcome<Locals> {
        if locals.len() == 0 {
            Outcome::Stuck
        } else {
            let innermost = locals.last().1;
            if innermost.contains_key(name.symbol) {
                Outcome::Failed(error(*name.span, ErrorKindModel::NameClash(*innermost[name.symbol].0.span)))
            } else {
                match lookup_locals(locals.drop_last(), name.symbol) {
                    Some((previous, _)) => Outcome::Failed(error(*name.span, ErrorKindModel::NameClash(*previous.span))),
                    None => Outcome::Typed(locals.drop_last().push(
                        (locals.last().0, innermost.insert(name.symbol, (name, EntryModel::Variable(typ)))),
                    )),
                }
            }
        }
    }

    pub open spec fn single_declaration_typing(self, locals: Locals, declaration: ast::SingleDeclaration<()>) -> Outcome<Locals> {
        match self.type_typing(locals, *declaration.typ) {
            Outcome::Typed(typ) => self.declare(locals, declaration.name, typ),
            Outcome::Failed(error) => Outcome::Failed(error),
            Outcome::Stuck => Outcome::Stuck,
        }
    }

    /// Declare each of `names` with type `typ`, in order.
    pub open spec fn declare_all(self, locals: Locals, names: Seq<Identifier>, typ: Model) -> Outcome<Locals>
        decreases names.len(),
    {
        if names.len() == 0 {
            Outcome::Typed(locals)
        } else {
            match self.declare(locals, names[0], typ) {
                Outcome::Typed(next) => self.declare_all(next, names.drop_first(), typ),
                Outcome::Failed(error) => Outcome::Failed(error),
                Outcome::Stuck => Outcome::Stuck,
            }
        }
    }

    pub open spec fn declaration_typing(self, locals: Locals, declaration: ast::Declaration<()>) -> Outcome<Locals> {
        match declaration {
            ast::Declaration::Single(single) => self.single_declaration_typing(locals, single),
            ast::Declaration::Multiple(multiple) => if multiple.typ.spec_has_length() {
                Outcome::Stuck
            } else {
                match self.type_typing(locals, *multiple.typ) {
                    Outcome::Typed(typ) => self.declare_all(locals, multiple.names@, typ),
                    Outcome::Failed(error) => Outcome::Failed(error),
                    Outcome::Stuck => Outcome::Stuck,
                }
            },
        }
    }

    /// The types an initializing expression produces: the results of a call,
    /// or the type of any other expression.
    pub open spec fn initializer_typing(self, locals: Locals, expression: ast::Expression<()>) -> Outcome<Seq<Model>> {
        match expression {
            ast::Expression::Call(call) => match self.call_typing(locals, call) {
                Outcome::Typed((_, returned)) => Outcome::Typed(returned),
                Outcome::Failed(error) => Outcome::Failed(error),
                Outcome::Stuck => Outcome::Stuck,
            },
            _ => match self.typing(locals, expression) {
                Outcome::Typed(typ) => Outcome::Typed(seq![typ]),
                Outcome::Failed(error) => Outcome::Failed(error),
                Outcome::Stuck => Outcome::Stuck,
            },
        }
    }

    /// Declare the declarations from `index` on, each initialized with a value of
    /// the type at its position in `types`, which must subtype the declared type.
    pub open spec fn initialize(self, locals: Locals, declarations: Seq<Option<ast::SingleDeclaration<()>>>, types: Seq<Model>, index: nat, expression_span: Span) -> Outcome<Locals>
        decreases declarations.len() - index,
    {
        if index >= declarations.len() {
            Outcome::Typed(locals)
        } else {
            match declarations[index as int] {
                None => self.initialize(locals, declarations, types, index + 1, expression_span),
                Some(declaration) => match self.type_typing(locals, *declaration.typ) {
                    Outcome::Typed(supertype) => match self.declare(locals, declaration.name, supertype) {
                        Outcome::Typed(next) => if self.spec_is_subtype(types[index as int], supertype) {
                            self.initialize(next, declarations, types, index + 1, expression_span)
                        } else {
                            Outcome::Failed(mismatch(expression_span, supertype, Some(declaration.span), types[index as int]))
                        },
                        Outcome::Failed(error) => Outcome::Failed(error),
                        Outcome::Stuck => Outcome::Stuck,
                    },
                    Outcome::Failed(error) => Outcome::Failed(error),
                    Outcome::Stuck => Outcome::Stuck,
                },
            }
        }
    }

    pub open spec fn initialization_typing(self, locals: Locals, initialization: ast::Initialization<()>) -> Outcome<Locals> {
        match self.initializer_typing(locals, *initialization.expression) {
            Outcome::Typed(types) => if types.len() == 0 {
                Outcome::Failed(error(initialization.span, ErrorKindModel::InitProcedure))
            } else if types.len() != initialization.declarations@.len() {
                Outcome::Failed(error(initialization.span, ErrorKindModel::InitLength))
            } else {
                self.initialize(locals, initialization.declarations@, types, 0, initialization.expression.spec_span())
            },
            Outcome::Failed(error) => Outcome::Failed(error),
            Outcome::Stuck => Outcome::Stuck,
        }
    }

    /// The types of the expressions from `index` on, checked in order.
    pub open spec fn typing_all(self, locals: Locals, expressions: Vec<ast::Expression<()>>, index: nat) -> Outcome<Seq<Model>>
        decreases expressions@.len() - index,
    {
        if index >= expressions@.len() {
            Outcome::Typed(Seq::empty())
        } else {
            match self.typing(locals, expressions[index as int]) {
                Outcome::Typed(typ) => match self.typing_all(locals, expressions, index + 1) {
                    Outcome::Typed(rest) => Outcome::Typed(seq![typ] + rest),
                    Outcome::Failed(error) => Outcome::Failed(error),
                    Outcome::Stuck => Outcome::Stuck,
                },
                Outcome::Failed(error) => Outcome::Failed(error),
                Outcome::Stuck => Outcome::Stuck,
            }
        }
    }

    /// A condition has type `bool`.
    pub open spec fn condition_typing(self, locals: Locals, condition: ast::Expression<()>) -> Outcome<()> {
        match self.typing(locals, condition) {
            Outcome::Typed(Model::Boolean) => Outcome::Typed(()),
            Outcome::Typed(other) => Outcome::Failed(mismatch(condition.spec_span(), Model::Boolean, None, other)),
            Outcome::Failed(error) => Outcome::Failed(error),
            Outcome::Stuck => Outcome::Stuck,
        }
    }

    /// The local scopes after `statement`, and whether control can fall through it.
    pub open spec fn statement_typing(self, locals: Locals, statement: ast::Statement<()>) -> Outcome<(Locals, ty::Statement)>
        decreases statement, 1nat,
    {
        match statement {
            ast::Statement::Assignment(left, right, _) => match (self.typing(locals, *left), self.typing(locals, *right)) {
                (Outcome::Stuck, _) => Outcome::Stuck,
                (Outcome::Failed(error), _) => Outcome::Failed(error),
                (_, Outcome::Stuck) => Outcome::Stuck,
                (_, Outcome::Failed(error)) => Outcome::Failed(error),
                (Outcome::Typed(l), Outcome::Typed(r)) => if self.spec_is_subtype(r, l) {
                    Outcome::Typed((locals, ty::Statement::Unit))
                } else {
                    Outcome::Failed(mismatch(right.spec_span(), l, Some(left.spec_span()), r))
                },
            },
            ast::Statement::Call(call) => match self.call_typing(locals, call) {
                Outcome::Typed((_, returned)) => if returned.len() == 0 {
                    Outcome::Typed((locals, ty::Statement::Unit))
                } else {
                    Outcome::Failed(error(call.span, ErrorKindModel::NotProcedure))
                },
                Outcome::Failed(error) => Outcome::Failed(error),
                Outcome::Stuck => Outcome::Stuck,
            },
            ast::Statement::Declaration(declaration, _) => match self.declaration_typing(locals, *declaration) {
                Outcome::Typed(next) => Outcome::Typed((next, ty::Statement::Unit)),
                Outcome::Failed(error) => Outcome::Failed(error),
                Outcome::Stuck => Outcome::Stuck,
            },
            ast::Statement::Initialization(initialization) => match self.initialization_typing(locals, initialization) {
                Outcome::Typed(next) => Outcome::Typed((next, ty::Statement::Unit)),
                Outcome::Failed(error) => Outcome::Failed(error),
                Outcome::Stuck => Outcome::Stuck,
            },
            ast::Statement::Return(returned, span) => self.return_typing(locals, returned, span),
            ast::Statement::Sequence(..) => self.block_typing(locals, statement),
            ast::Statement::If(..) => self.if_typing(locals, statement),
            ast::Statement::While(..) => self.while_typing(locals, statement),
            ast::Statement::Break(span) => match innermost_while(locals) {
                None => Outcome::Failed(error(span, ErrorKindModel::NotInWhile)),
                Some(_) => Outcome::Typed((locals, ty::Statement::Void)),
            },
        }
    }

    /// A return checks its results against those of the enclosing function.
    pub open spec fn return_typing(self, locals: Locals, returned: Vec<ast::Expression<()>>, span: Span) -> Outcome<(Locals, ty::Statement)> {
        match self.typing_all(locals, returned, 0) {
            Outcome::Typed(types) => if !scoped(locals) || scoped_returns(locals) is None {
                Outcome::Stuck
            } else if self.spec_all_subtype(types, scoped_returns(locals)->0) {
                Outcome::Typed((locals, ty::Statement::Void))
            } else {
                Outcome::Failed(error(span, ErrorKindModel::ReturnMismatch))
            },
            Outcome::Failed(error) => Outcome::Failed(error),
            Outcome::Stuck => Outcome::Stuck,
        }
    }

    /// A block checks its statements in a new scope.
    pub open spec fn block_typing(self, locals: Locals, statement: ast::Statement<()>) -> Outcome<(Locals, ty::Statement)>
        decreases statement, 0nat,
    {
        match statement {
            ast::Statement::Sequence(statements, _) => match self.sequence_typing(enter(locals, ScopeModel::Block), statements, 0, ty::Statement::Unit) {
                Outcome::Typed((after, typ)) => Outcome::Typed((leave(after), typ)),
                Outcome::Failed(error) => Outcome::Failed(error),
                Outcome::Stuck => Outcome::Stuck,
            },
            _ => Outcome::Stuck,
        }
    }

    /// A conditional checks its condition, then each branch in a scope of its own.
    pub open spec fn if_typing(self, locals: Locals, statement: ast::Statement<()>) -> Outcome<(Locals, ty::Statement)>
        decreases statement, 0nat,
    {
        match statement {
            ast::Statement::If(condition, then, otherwise, _) => match self.condition_typing(locals, *condition) {
                Outcome::Typed(_) => match self.statement_typing(enter(locals, ScopeModel::If), *then) {
                    Outcome::Typed((after, then_type)) => match otherwise {
                        None => Outcome::Typed((leave(after), ty::Statement::Unit)),
                        Some(otherwise) => match self.statement_typing(enter(leave(after), ScopeModel::Else), *otherwise) {
                            Outcome::Typed((last, else_type)) => Outcome::Typed((leave(last), statement_bound(then_type, else_type))),
                            Outcome::Failed(error) => Outcome::Failed(error),
                            Outcome::Stuck => Outcome::Stuck,
                        },
                    },
                    Outcome::Failed(error) => Outcome::Failed(error),
                    Outcome::Stuck => Outcome::Stuck,
                },
                Outcome::Failed(error) => Outcome::Failed(error),
                Outcome::Stuck => Outcome::Stuck,
            },
            _ => Outcome::Stuck,
        }
    }

    /// A loop checks its condition, then its body in a scope of its own.
    pub open spec fn while_typing(self, locals: Locals, statement: ast::Statement<()>) -> Outcome<(Locals, ty::Statement)>
        decreases statement, 0nat,
    {
        match statement {
            ast::Statement::While(_, condition, body, _) => match self.condition_typing(locals, *condition) {
                Outcome::Typed(_) => match self.statement_typing(enter(locals, ScopeModel::While(None)), *body) {
                    Outcome::Typed((after, _)) => Outcome::Typed((leave(after), ty::Statement::Unit)),
                    Outcome::Failed(error) => Outcome::Failed(error),
                    Outcome::Stuck => Outcome::Stuck,
                },
                Outcome::Failed(error) => Outcome::Failed(error),
                Outcome::Stuck => Outcome::Stuck,
            },
            _ => Outcome::Stuck,
        }
    }

    /// Check the statements of a block from `index` on; `so_far` is `Void` once
    /// one of them cannot fall through, and nothing may follow it.
    pub open spec fn sequence_typing(self, locals: Locals, statements: Vec<ast::Statement<()>>, index: nat, so_far: ty::Statement) -> Outcome<(Locals, ty::Statement)>
        decreases statements, statements@.len() - index,
    {
        if index >= statements@.len() {
            Outcome::Typed((locals, so_far))
        } else {
            let statement = statements[index as int];
            match self.statement_typing(locals, statement) {
                Outcome::Typed((next, typ)) => if so_far == ty::Statement::Void {
                    Outcome::Failed(error(statement.spec_span(), ErrorKindModel::Unreachable))
                } else {
                    self.sequence_typing(next, statements, index + 1, if typ == ty::Statement::Void {
                        ty::Statement::Void
                    } else {
                        ty::Statement::Unit
                    })
                },
                Outcome::Failed(error) => Outcome::Failed(error),
                Outcome::Stuck => Outcome::Stuck,
            }
        }
    }

    /// `typed` is `statement` checked in the local scopes `locals`: the same
    /// statement with its spans, its expressions and calls checked (see
    /// [`Fixed::checks`]) in the scopes in force where they stand, and its
    /// branches, body or statements checked in the scopes that
    /// [`Fixed::statement_typing`] enters for them.
    #[verifier::opaque]
    pub open spec fn statement_checks(self, locals: Locals, typed: ast::Statement<ty::Expression>, statement: ast::Statement<()>) -> bool
        decreases statement, 1nat,
    {
        match statement {
            ast::Statement::Assignment(left, right, span) => typed matches ast::Statement::Assignment(
                checked_left,
                checked_right,
                found_span,
            ) && found_span == span && self.checks(locals, *checked_left, *left) && self.checks(
                locals,
                *checked_right,
                *right,
            ),
            ast::Statement::Call(call) => typed matches ast::Statement::Call(found) && self.call_checks(locals, found, call),
            ast::Statement::Declaration(declaration, span) => typed matches ast::Statement::Declaration(found, found_span)
                && found_span == span && declaration_shape(*found, *declaration),
            ast::Statement::Initialization(initialization) => typed matches ast::Statement::Initialization(found)
                && self.initialization_checks(locals, found, initialization),
            ast::Statement::Return(returned, span) => typed matches ast::Statement::Return(found, found_span) && found_span
                == span && found@.len() == returned@.len() && self.checks_elements(locals, found@, returned, 0),
            ast::Statement::Sequence(statements, span) => typed matches ast::Statement::Sequence(found, found_span)
                && found_span == span && found@.len() == statements@.len() && self.sequence_checks(
                enter(locals, ScopeModel::Block),
                found@,
                statements,
                0,
            ),
            ast::Statement::If(condition, then, otherwise, span) => typed matches ast::Statement::If(
                checked_condition,
                checked_then,
                checked_otherwise,
                found_span,
            ) && found_span == span && self.checks(locals, *checked_condition, *condition) && self.statement_checks(
                enter(locals, ScopeModel::If),
                *checked_then,
                *then,
            ) && match otherwise {
                None => checked_otherwise is None,
                Some(otherwise) => checked_otherwise is Some && match self.statement_typing(enter(locals, ScopeModel::If), *then) {
                    Outcome::Typed((after, _)) => self.statement_checks(
                        enter(leave(after), ScopeModel::Else),
                        *checked_otherwise->0,
                        *otherwise,
                    ),
                    _ => false,
                },
            },
            ast::Statement::While(repeat, condition, body, span) => typed matches ast::Statement::While(
                found,
                checked_condition,
                checked_body,
                found_span,
            ) && found == repeat && found_span == span && self.checks(locals, *checked_condition, *condition)
                && self.statement_checks(enter(locals, ScopeModel::While(None)), *checked_body, *body),
            ast::Statement::Break(span) => typed == ast::Statement::<ty::Expression>::Break(span),
        }
    }

    /// `typed` is `initialization` checked: its span, its expression checked
    /// (a call by [`Fixed::call_checks`], as it may give several results), and
    /// each declared variable, or none, in its place.
    pub open spec fn initialization_checks(
        self,
        locals: Locals,
        typed: ast::Initialization<ty::Expression>,
        initialization: ast::Initialization<()>,
    ) -> bool {
        &&& typed.span == initialization.span
        &&& match *initialization.expression {
            ast::Expression::Call(call) => *typed.expression matches ast::Expression::Call(found) && self.call_checks(
                locals,
                found,
                call,
            ),
            expression => self.checks(locals, *typed.expression, expression),
        }
        &&& typed.declarations@.len() == initialization.declarations@.len()
        &&& forall|i: int| 0 <= i < typed.declarations@.len() ==> declared_in_place(
            #[trigger] typed.declarations@[i],
            initialization.declarations@[i],
        )
    }

    /// The statements of `typed` from `index` on are those of `statements`
    /// checked, each in the local scopes that the ones before it leave.
    pub open spec fn sequence_checks(
        self,
        locals: Locals,
        typed: Seq<ast::Statement<ty::Expression>>,
        statements: Vec<ast::Statement<()>>,
        index: nat,
    ) -> bool
        decreases statements, statements@.len() - index,
    {
        if index >= statements@.len() {
            true
        } else {
            self.statement_checks(locals, typed[index as int], statements[index as int]) && match self.statement_typing(
                locals,
                statements[index as int],
            ) {
                Outcome::Typed((next, _)) => self.sequence_checks(next, typed, statements, index + 1),
                _ => false,
            }
        }
    }

    /// Statements checked one by one, each in the scopes `states` gives it, are
    /// checked from any index on.
    pub proof fn lemma_sequence_checks(
        self,
        states: Seq<Locals>,
        typed: Seq<ast::Statement<ty::Expression>>,
        statements: Vec<ast::Statement<()>>,
        index: nat,
    )
        requires
            typed.len() == statements@.len(),
            states.len() == statements@.len() + 1,
            index <= statements@.len(),
            forall|j: int| index <= j < statements@.len() ==> self.statement_checks(states[j], #[trigger] typed[j], statements@[j])
                && self.statement_typing(states[j], statements@[j]) is Typed && self.statement_typing(
                states[j],
                statements@[j],
            )->Typed_0.0 == states[j + 1],
        ensures
            self.sequence_checks(states[index as int], typed, statements, index),
        decreases statements@.len() - index,
    {
        reveal(Fixed::statement_checks);
        if index < statements@.len() {
            self.lemma_sequence_checks(states, typed, statements, index + 1);
            assert(self.statement_checks(states[index as int], typed[index as int], statements@[index as int]));
            assert(statements[index as int] == statements@[index as int]);
        }
    }
}

/// A type checker: the context it builds, and the interfaces the program uses.
pub struct Checker {
    pub context: Context,
    /// Unique interfaces in the use tree.
    pub used: KeySet<Symbol>,
}

/// A mismatch error.
pub(crate) fn mismatch_error(span: Span, wanted: ty::Expression, wanted_span: Option<Span>, found: ty::Expression) -> (error: Error)
    ensures
        error@ == mismatch(span, wanted@, wanted_span, found@),
{
    Error::new(span, ErrorKind::Mismatch { expected: wanted, expected_span: wanted_span, found })
}

fn any_array_type() -> (typ: ty::Expression)
    ensures
        typ@ == any_array(),
{
    let any = ty::Expression::Any;
    assert(any@ == Model::Any);
    ty::Expression::Array(Box::new(any))
}

impl Checker {
    pub fn new() -> (checker: Self)
        ensures
            checker.context.wf(),
            checker.context.is_empty(),
            checker.used@ == Set::<Symbol>::empty(),
    {
        Checker { context: Context::new(), used: KeySet::new() }
    }
}

impl Checker {
    /// Type check an expression, annotating each node with its type.
    #[verifier::rlimit(80)]
    pub fn check_expression(&self, expression: ast::Expression<()>) -> (checked: Result<ast::Expression<ty::Expression>, Error>)
        requires
            self.context.wf(),
            !(self.context.fixed().typing(self.context.locals_model(), expression) is Stuck),
        ensures
            match checked {
                Ok(typed) => annotation(typed) is Some && self.context.fixed().typing(self.context.locals_model(), expression) == Outcome::Typed(annotation(typed)->0)
                    && typed.spec_span() == expression.spec_span() && self.context.fixed().checks(
                    self.context.locals_model(),
                    typed,
                    expression,
                ),
                Err(error) => self.context.fixed().typing(self.context.locals_model(), expression) == Outcome::<Model>::Failed(error@),
            },
        decreases expression, 0nat,
    {
        let ghost original = expression;
        match expression {
            ast::Expression::Boolean(boolean, span) => {
                let typed = ast::Expression::Boolean(boolean, span);
                assert(self.context.fixed().checks(self.context.locals_model(), typed, original)) by {
                    reveal(Fixed::checks);
                }
                Ok(typed)
            },
            ast::Expression::Character(character, span) => {
                let typed = ast::Expression::Character(character, span);
                assert(self.context.fixed().checks(self.context.locals_model(), typed, original)) by {
                    reveal(Fixed::checks);
                }
                Ok(typed)
            },
            ast::Expression::String(string, span) => {
                let typed = ast::Expression::String(string, span);
                assert(self.context.fixed().checks(self.context.locals_model(), typed, original)) by {
                    reveal(Fixed::checks);
                }
                Ok(typed)
            },
            ast::Expression::Integer(integer, span) => {
                let typed = ast::Expression::Integer(integer, span);
                assert(self.context.fixed().checks(self.context.locals_model(), typed, original)) by {
                    reveal(Fixed::checks);
                }
                Ok(typed)
            },
            ast::Expression::Null(span) => {
                let typed = ast::Expression::Null(span);
                assert(self.context.fixed().checks(self.context.locals_model(), typed, original)) by {
                    reveal(Fixed::checks);
                }
                Ok(typed)
            },
            ast::Expression::This(_, span) => match self.context.get_scoped_class() {
                Some(class) => {
                    let typed = ast::Expression::This(ty::Expression::Class(class), span);
                    assert(self.context.fixed().checks(self.context.locals_model(), typed, original)) by {
                        reveal(Fixed::checks);
                    }
                    Ok(typed)
                },
                None => Err(Error::new(span, ErrorKind::NotInClass(None))),
            },
            ast::Expression::Super(_, span) => match self.context.get_scoped_class() {
                None => Err(Error::new(span, ErrorKind::NotInClass(None))),
                Some(class) => match self.context.get_superclass(&class) {
                    Some(superclass) => {
                        let typed = ast::Expression::Super(ty::Expression::Class(superclass), span);
                        assert(self.context.fixed().checks(self.context.locals_model(), typed, original)) by {
                            reveal(Fixed::checks);
                        }
                        Ok(typed)
                    },
                    None => Err(Error::new(span, ErrorKind::NoSuperclass(class))),
                },
            },
            ast::Expression::Variable(variable, _) => {
                let ast::Variable { name, generics: _, span } = variable;
                match self.context.get(Scope::Local, &name) {
                    Some(Entry::Variable(typ)) => {
                        let typed = ast::Expression::Variable(
                        ast::Variable { name, generics: None, span },
                        typ.copy(),
                    );
                        assert(self.context.fixed().checks(self.context.locals_model(), typed, original)) by {
                            reveal(Fixed::checks);
                        }
                        Ok(typed)
                    },
                    Some(_) => Err(Error::new(*name.span, ErrorKind::NotVariable(name.symbol))),
                    None => Err(Error::new(*name.span, ErrorKind::UnboundVariable(name.symbol))),
                }
            },
            ast::Expression::Array(elements, _, span) => {
                let ghost all = elements;
                let mut remaining = elements;
                let mut checked: Vec<ast::Expression<ty::Expression>> = Vec::new();
                let mut bound = ty::Expression::Any;
                let mut bound_span: Option<Span> = None;
                let mut index: usize = 0;
                assert(all@.skip(0) =~= all@);
                assert(original matches ast::Expression::Array(found, _, found_span) && found == all && found_span == span);
                while remaining.len() > 0
                    invariant
                        self.context.wf(),
                        original matches ast::Expression::Array(found, _, found_span) && found == all && found_span == span,
                        original == expression,
                        !(self.context.fixed().typing(self.context.locals_model(), original) is Stuck),
                        index <= all@.len(),
                        checked@.len() == index,
                        remaining@ == all@.skip(index as int),
                        bound_span is None ==> bound@ == Model::Any,
                        self.context.fixed().typing_elements(self.context.locals_model(), all, index as nat, bound@, bound_span) == self.context.fixed().typing_elements(self.context.locals_model(), all, 0, Model::Any, None),
                        forall|j: int| 0 <= j < index ==> self.context.fixed().checks(self.context.locals_model(), #[trigger] checked@[j], all@[j]),
                    decreases remaining@.len(),
                {
                    assert(remaining@[0] == all@[index as int]);
                    let element = remaining.remove(0);
                    assert(remaining@ =~= all@.skip(index + 1));
                    let element_span = element.span();
                    proof {
                        assert(decreases_to!(expression => all));
                        assert(decreases_to!(all => all[index as int]));
                        assert(all[index as int] == element);
                    }
                    let typed = self.check_expression(element)?;
                    let typ = typed.typ();
                    match self.context.least_upper_bound(&bound, &typ) {
                        None => {
                            let wanted_span = match bound_span {
                                Some(wanted_span) => wanted_span,
                                None => {
                                    assert(false);
                                    element_span
                                },
                            };
                            return Err(mismatch_error(element_span, bound, Some(wanted_span), typ));
                        },
                        Some(LeastUpperBound::Left(next)) => {
                            bound = next;
                        },
                        Some(LeastUpperBound::Right(next)) => {
                            bound = next;
                            bound_span = Some(element_span);
                        },
                    }
                    checked.push(typed);
                    assert(checked.len() == index + 1);
                    index += 1;
                }
                let ghost bound_model = bound@;
                proof {
                    self.context.fixed().lemma_checks_elements(self.context.locals_model(), checked@, all, 0);
                }
                {
                    let typed = ast::Expression::Array(checked, ty::Expression::Array(Box::new(bound)), span);
                    assert(self.context.fixed().checks(self.context.locals_model(), typed, original)) by {
                        reveal(Fixed::checks);
                    }
                    Ok(typed)
                }
            },
            ast::Expression::Binary(binary, left, right, _, span) => {
                let left_span = left.span();
                let right_span = right.span();
                let left = self.check_expression(*left)?;
                let left_type = left.typ();
                let right = self.check_expression(*right)?;
                let right_type = right.typ();
                if binary == ast::Binary::Eq || binary == ast::Binary::Ne {
                    if self.context.is_subtype(&left_type, &right_type) || self.context.is_subtype(&right_type, &left_type) {
                        return {
                            let typed = ast::Expression::Binary(binary, Box::new(left), Box::new(right), ty::Expression::Boolean, span);
                            assert(self.context.fixed().checks(self.context.locals_model(), typed, original)) by {
                                reveal(Fixed::checks);
                            }
                            Ok(typed)
                        };
                    } else {
                        return Err(mismatch_error(right_span, left_type, Some(left_span), right_type));
                    }
                }
                let arrays = match (&left_type, &right_type) {
                    (ty::Expression::Array(_), ty::Expression::Array(_)) => true,
                    _ => false,
                };
                if (binary == ast::Binary::Add || binary == ast::Binary::Cat) && arrays {
                    return match self.context.least_upper_bound(&left_type, &right_type) {
                        None => Err(mismatch_error(right_span, left_type, Some(left_span), right_type)),
                        Some(bound) => {
                            let typed = ast::Expression::Binary(
                            ast::Binary::Cat,
                            Box::new(left),
                            Box::new(right),
                            bound.into_type(),
                            span,
                        );
                            assert(self.context.fixed().checks(self.context.locals_model(), typed, original)) by {
                                reveal(Fixed::checks);
                            }
                            Ok(typed)
                        },
                    };
                }
                let (parameter, result) = match binary {
                    ast::Binary::Lt | ast::Binary::Le | ast::Binary::Ge | ast::Binary::Gt => (ty::Expression::Integer, ty::Expression::Boolean),
                    ast::Binary::And | ast::Binary::Or => (ty::Expression::Boolean, ty::Expression::Boolean),
                    _ => (ty::Expression::Integer, ty::Expression::Integer),
                };
                let left_fits = self.context.is_subtype(&left_type, &parameter);
                if left_fits && self.context.is_subtype(&right_type, &parameter) {
                    {
                        let typed = ast::Expression::Binary(binary, Box::new(left), Box::new(right), result, span);
                        assert(self.context.fixed().checks(self.context.locals_model(), typed, original)) by {
                            reveal(Fixed::checks);
                        }
                        Ok(typed)
                    }
                } else if left_fits {
                    Err(mismatch_error(right_span, parameter, None, right_type))
                } else {
                    Err(mismatch_error(left_span, parameter, None, left_type))
                }
            },
            ast::Expression::Unary(unary, operand, _, span) => {
                let operand = self.check_expression(*operand)?;
                let typ = operand.typ();
                match unary {
                    ast::Unary::Neg => match typ {
                        ty::Expression::Integer => {
                            let typed = ast::Expression::Unary(ast::Unary::Neg, Box::new(operand), ty::Expression::Integer, span);
                            assert(self.context.fixed().checks(self.context.locals_model(), typed, original)) by {
                                reveal(Fixed::checks);
                            }
                            Ok(typed)
                        },
                        typ => Err(mismatch_error(operand.span(), ty::Expression::Integer, None, typ)),
                    },
                    ast::Unary::Not => match typ {
                        ty::Expression::Boolean => {
                            let typed = ast::Expression::Unary(ast::Unary::Not, Box::new(operand), ty::Expression::Boolean, span);
                            assert(self.context.fixed().checks(self.context.locals_model(), typed, original)) by {
                                reveal(Fixed::checks);
                            }
                            Ok(typed)
                        },
                        typ => Err(mismatch_error(operand.span(), ty::Expression::Boolean, None, typ)),
                    },
                }
            },
            ast::Expression::Index(array, index, _, span) => {
                let array = self.check_expression(*array)?;
                let index = self.check_expression(*index)?;
                let array_type = array.typ();
                let index_type = index.typ();
                match array_type {
                    ty::Expression::Array(element) => match index_type {
                        ty::Expression::Integer => match *element {
                            ty::Expression::Any => Err(Error::new(span, ErrorKind::IndexEmpty)),
                            element => {
                                let typed = ast::Expression::Index(Box::new(array), Box::new(index), element, span);
                                assert(self.context.fixed().checks(self.context.locals_model(), typed, original)) by {
                                    reveal(Fixed::checks);
                                }
                                Ok(typed)
                            },
                        },
                        _ => Err(mismatch_error(index.span(), ty::Expression::Integer, None, *element)),
                    },
                    typ => Err(mismatch_error(array.span(), any_array_type(), None, typ)),
                }
            },
            ast::Expression::Length(array, span) => {
                let array = self.check_expression(*array)?;
                match array.typ() {
                    ty::Expression::Array(_) => {
                        let typed = ast::Expression::Length(Box::new(array), span);
                        assert(self.context.fixed().checks(self.context.locals_model(), typed, original)) by {
                            reveal(Fixed::checks);
                        }
                        Ok(typed)
                    },
                    typ => Err(mismatch_error(span, any_array_type(), None, typ)),
                }
            },
            ast::Expression::Dot(receiver, field, _, span) => {
                let receiver = self.check_expression(*receiver)?;
                let class = match receiver.typ() {
                    ty::Expression::Class(class) => class,
                    _ => return Err(Error::new(receiver.span(), ErrorKind::NotClass)),
                };
                match self.context.get(Scope::Global(GlobalScope::Class(class)), &field) {
                    None => Err(Error::new(*field.span, ErrorKind::UnboundVariable(field.symbol))),
                    Some(Entry::Variable(typ)) => {
                        let typ = typ.copy();
                        {
                            let typed = ast::Expression::Dot(Box::new(receiver), field, typ, span);
                            assert(self.context.fixed().checks(self.context.locals_model(), typed, original)) by {
                                reveal(Fixed::checks);
                            }
                            Ok(typed)
                        }
                    },
                    Some(_) => Err(Error::new(*field.span, ErrorKind::NotVariable(field.symbol))),
                }
            },
            ast::Expression::New(variable, span) => {
                let ast::Variable { name, generics: _, span: variable_span } = variable;
                match self.context.get_class_implementation(&name) {
                    Some(_) => {
                        let typed = ast::Expression::New(ast::Variable { name, generics: None, span: variable_span }, span);
                        assert(self.context.fixed().checks(self.context.locals_model(), typed, original)) by {
                            reveal(Fixed::checks);
                        }
                        Ok(typed)
                    },
                    None => if self.context.get_class(&name).is_some() {
                        Err(Error::new(span, ErrorKind::NotInClassModule(name.symbol)))
                    } else {
                        Err(Error::new(*name.span, ErrorKind::UnboundClass(name.symbol)))
                    },
                }
            },
            ast::Expression::Call(call) => {
                let call_span = call.span;
                let call = self.check_call(call)?;
                let function = call.function.typ();
                match function {
                    ty::Expression::Function(_, returned) => {
                        proof {
                            function.lemma_function_model();
                        }
                        if returned.len() == 1 {
                            {
                                let typed = ast::Expression::Call(call);
                                assert(self.context.fixed().checks(self.context.locals_model(), typed, original)) by {
                                    reveal(Fixed::checks);
                                }
                                Ok(typed)
                            }
                        } else {
                            Err(Error::new(call.span, ErrorKind::NotExp))
                        }
                    },
                    _ => {
                        assert(false);
                        Err(Error::new(call_span, ErrorKind::NotExp))
                    },
                }
            },
        }
    }

    /// Type check a call: its callee must name a function, and its arguments
    /// must check and subtype the function's parameters.
    pub fn check_call(&self, call: ast::Call<()>) -> (checked: Result<ast::Call<ty::Expression>, Error>)
        requires
            self.context.wf(),
            !(self.context.fixed().call_typing(self.context.locals_model(), call) is Stuck),
        ensures
            match checked {
                Ok(typed) => typed.span == call.span && match self.context.fixed().call_typing(self.context.locals_model(), call) {
                    Outcome::Typed((parameters, returned)) => annotation(*typed.function) == Some(Model::Function(parameters, returned)),
                    _ => false,
                } && self.context.fixed().call_checks(self.context.locals_model(), typed, call),
                Err(error) => self.context.fixed().call_typing(self.context.locals_model(), call) == Outcome::<(Seq<Model>, Seq<Model>)>::Failed(error@),
            },
        decreases call, 1nat,
    {
        let ghost original = call;
        let ast::Call { function, arguments, span } = call;
        let ghost callee = *function;
        let (scope, name, name_span, receiver) = match *function {
            ast::Expression::Variable(variable, _) => {
                let symbol = variable.name.symbol;
                let name_span = *variable.name.span;
                (Scope::Local, symbol, name_span, Callee::Name(variable))
            },
            ast::Expression::Dot(receiver, name, _, dot_span) => {
                proof {
                    assert(decreases_to!(original => original.function));
                }
                let receiver = self.check_expression(*receiver)?;
                let class = match receiver.typ() {
                    ty::Expression::Class(class) => class,
                    _ => return Err(Error::new(receiver.span(), ErrorKind::NotClass)),
                };
                let symbol = name.symbol;
                (Scope::Global(GlobalScope::Class(class)), symbol, dot_span, Callee::Method(receiver, name, dot_span))
            },
            expression => return Err(Error::new(expression.span(), ErrorKind::NotFun(None))),
        };
        let (parameters, returned) = match self.context.get(scope, &name) {
            Some(Entry::Signature(parameters, returned)) | Some(Entry::Function(parameters, returned)) => (parameters, returned),
            Some(_) => return Err(Error::new(name_span, ErrorKind::NotFun(Some(name)))),
            None => return Err(Error::new(name_span, ErrorKind::UnboundFun(name))),
        };
        if arguments.len() != parameters.len() {
            return Err(Error::new(span, ErrorKind::CallLength));
        }
        let ghost all = arguments;
        let mut remaining = arguments;
        let mut checked: Vec<ast::Expression<ty::Expression>> = Vec::new();
        let mut index: usize = 0;
        assert(all@.skip(0) =~= all@);
        let ghost outcome = match self.context.fixed().typing_arguments(self.context.locals_model(), all, models(parameters@), 0) {
            Outcome::Typed(_) => Outcome::Typed((models(parameters@), models(returned@))),
            Outcome::Failed(e) => Outcome::Failed(e),
            Outcome::Stuck => Outcome::Stuck,
        };
        assert(self.context.fixed().call_typing(self.context.locals_model(), call) == outcome);
        while remaining.len() > 0
            invariant
                self.context.wf(),
                original.arguments == all,
                original == call,
                self.context.fixed().call_typing(self.context.locals_model(), call) == outcome,
                outcome == match self.context.fixed().typing_arguments(self.context.locals_model(), all, models(parameters@), 0) {
                    Outcome::Typed(_) => Outcome::Typed((models(parameters@), models(returned@))),
                    Outcome::Failed(e) => Outcome::Failed(e),
                    Outcome::Stuck => Outcome::<(Seq<Model>, Seq<Model>)>::Stuck,
                },
                all@.len() == parameters@.len(),
                index <= all@.len(),
                remaining@ == all@.skip(index as int),
                !(self.context.fixed().typing_arguments(self.context.locals_model(), all, models(parameters@), index as nat) is Stuck),
                self.context.fixed().typing_arguments(self.context.locals_model(), all, models(parameters@), index as nat) == self.context.fixed().typing_arguments(self.context.locals_model(), all, models(parameters@), 0),
                checked@.len() == index,
                forall|j: int| 0 <= j < index ==> self.context.fixed().checks(self.context.locals_model(), #[trigger] checked@[j], all@[j]),
                *original.function == callee,
                match receiver {
                    Callee::Name(variable) => callee matches ast::Expression::Variable(found, _) && found == variable,
                    Callee::Method(checked_receiver, name, dot_span) => callee matches ast::Expression::Dot(found, found_name, _, found_span)
                        && name == found_name && dot_span == found_span && self.context.fixed().checks(
                        self.context.locals_model(),
                        checked_receiver,
                        *found,
                    ),
                },
            decreases remaining@.len(),
        {
            assert(index < all@.len());
            assert(remaining@[0] == all@[index as int]);
            let argument = remaining.remove(0);
            assert(remaining@ =~= all@.skip(index + 1));
            let argument_span = argument.span();
            proof {
                assert(decreases_to!(call => all));
                assert(decreases_to!(all => all[index as int]));
                assert(all[index as int] == argument);
            }
            let typed = self.check_expression(argument)?;
            let typ = typed.typ();
            if !self.context.is_subtype(&typ, &parameters[index]) {
                assert(models(parameters@)[index as int] == parameters@[index as int]@);
                return Err(mismatch_error(argument_span, parameters[index].copy(), None, typ));
            }
            checked.push(typed);
            assert(index < parameters.len());
            index += 1;
        }
        let function_type = ty::Expression::Function(ty::copy_all(parameters), ty::copy_all(returned));
        proof {
            function_type.lemma_function_model();
            self.context.fixed().lemma_checks_elements(self.context.locals_model(), checked@, all, 0);
        }
        let function = match receiver {
            Callee::Name(variable) => {
                let ast::Variable { name, generics: _, span: variable_span } = variable;
                ast::Expression::Variable(ast::Variable { name, generics: None, span: variable_span }, function_type)
            },
            Callee::Method(receiver, name, dot_span) => ast::Expression::Dot(Box::new(receiver), name, function_type, dot_span),
        };
        let typed = ast::Call { function: Box::new(function), arguments: checked, span };
        assert(self.context.fixed().call_checks(self.context.locals_model(), typed, call)) by {
            reveal(Fixed::checks);
        }
        Ok(typed)
    }
}

/// What a call names: a function, or a method of a checked receiver.
enum Callee {
    Name(ast::Variable<()>),
    Method(ast::Expression<ty::Expression>, ast::Identifier, Span),
}

} // verus!

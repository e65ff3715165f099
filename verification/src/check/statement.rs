use vstd::prelude::*;

use crate::check::check::annotation;
use crate::check::check::declaration_shape;
use crate::check::check::declared_in_place;
use crate::check::check::mismatch;
use crate::check::check::mismatch_error;
use crate::check::check::Checker;
use crate::check::check::Outcome;
use crate::check::context::Context;
use crate::check::context::Environment;
use crate::check::context::LocalScope;
use crate::check::check::enter;
use crate::check::check::leave;
use crate::check::context::Fixed;
use crate::check::context::Entry;
use crate::check::context::EntryModel;
use crate::check::context::Locals;
use crate::check::context::bindings;
use crate::check::context::scoped;
use crate::check::context::scoped_class;
use crate::check::context::scoped_returns;
use crate::check::context::innermost_while;
use crate::check::context::lookup_locals;
use crate::check::context::ScopeModel;
use crate::check::context::GlobalScope;
use crate::check::context::LeastUpperBound;
use crate::check::context::Scope;
use crate::check::error::error;
use crate::check::error::Error;
use crate::check::error::ErrorKind;
use crate::check::error::ErrorKindModel;
use crate::check::error::ErrorModel;
use crate::collections::KeySet;
use crate::data::ast;
use crate::data::ast::Identifier;
use crate::data::span::Span;
use crate::data::symbol::Symbol;
use crate::data::ty;
use crate::data::ty::models;
use crate::data::ty::Model;

verus! {

/// Neither type arguments nor array lengths occur in the type.
pub open spec fn plain(typ: ast::Type<()>) -> bool
    decreases typ,
{
    match typ {
        ast::Type::Bool(_) | ast::Type::Int(_) => true,
        ast::Type::Class(variable) => variable.generics is None,
        ast::Type::Array(inner, length, _) => length is None && plain(*inner),
    }
}

impl ast::Type<()> {
    /// A copy of a type without type arguments or array lengths.
    pub fn copy(&self) -> (copy: Self)
        requires
            plain(*self),
        ensures
            copy == *self,
        decreases self,
    {
        match self {
            ast::Type::Bool(span) => ast::Type::Bool(*span),
            ast::Type::Int(span) => ast::Type::Int(*span),
            ast::Type::Class(variable) => ast::Type::Class(
                ast::Variable { name: variable.name.copy(), generics: None, span: variable.span },
            ),
            ast::Type::Array(inner, _, span) => ast::Type::Array(Box::new(inner.copy()), None, *span),
        }
    }
}

impl Fixed {
    /// Without array lengths, what a type denotes does not depend on the local
    /// scopes; and it only checks if it names no type arguments.
    pub proof fn lemma_type_typing_plain(self, locals: Locals, other: Locals, typ: ast::Type<()>)
        requires
            !typ.spec_has_length(),
        ensures
            self.type_typing(locals, typ) == self.type_typing(other, typ),
            !(self.type_typing(locals, typ) is Stuck) ==> plain(typ),
        decreases typ,
    {
        if let ast::Type::Array(inner, _, _) = typ {
            self.lemma_type_typing_plain(locals, other, *inner);
        }
        if let ast::Type::Class(variable) = typ {
            if let Some(generics) = variable.generics {
                assert(self.type_typing(locals, typ) is Stuck);
            }
        }
    }
}

impl Checker {
    /// Check that a type annotation names known classes and integer array lengths.
    pub fn check_type(&self, typ: ast::Type<()>) -> (checked: Result<ast::Type<ty::Expression>, Error>)
        requires
            self.context.wf(),
            !(self.context.fixed().type_typing(self.context.locals_model(), typ) is Stuck),
        ensures
            match checked {
                Ok(typed) => typed.denotes() is Some && self.context.fixed().type_typing(self.context.locals_model(), typ)
                    == Outcome::Typed(typed.denotes()->0) && typed.spec_span() == typ.spec_span(),
                Err(error) => self.context.fixed().type_typing(self.context.locals_model(), typ) == Outcome::<Model>::Failed(error@),
            },
        decreases typ,
    {
        match typ {
            ast::Type::Bool(span) => Ok(ast::Type::Bool(span)),
            ast::Type::Int(span) => Ok(ast::Type::Int(span)),
            ast::Type::Class(variable) => {
                let variable = self.check_variable(variable)?;
                Ok(ast::Type::Class(variable))
            },
            ast::Type::Array(inner, None, span) => {
                let inner = self.check_type(*inner)?;
                Ok(ast::Type::Array(Box::new(inner), None, span))
            },
            ast::Type::Array(inner, Some(length), span) => {
                let inner = self.check_type(*inner)?;
                let length = self.check_expression(*length)?;
                match length.typ() {
                    ty::Expression::Integer => Ok(ast::Type::Array(Box::new(inner), Some(Box::new(length)), span)),
                    typ => Err(mismatch_error(length.span(), ty::Expression::Integer, None, typ)),
                }
            },
        }
    }

    /// Check that a class name (without type arguments) names a known class.
    pub fn check_variable(&self, variable: ast::Variable<()>) -> (checked: Result<ast::Variable<ty::Expression>, Error>)
        requires
            self.context.wf(),
            variable.generics is None,
        ensures
            match checked {
                Ok(typed) => self.context.classes@.contains_key(variable.name.symbol) && typed.name == variable.name
                    && typed.generics is None && typed.span == variable.span,
                Err(failure) => !self.context.classes@.contains_key(variable.name.symbol)
                    && failure@ == error(*variable.name.span, ErrorKindModel::UnboundClass(variable.name.symbol)),
            },
    {
        let ast::Variable { name, generics: _, span } = variable;
        match self.context.get_class(&name) {
            Some(_) => Ok(ast::Variable { name, generics: None, span }),
            None => Err(Error::new(*name.span, ErrorKind::UnboundClass(name.symbol))),
        }
    }

    /// Check a declaration of one local variable, and bind it in the innermost local scope.
    pub fn check_single_declaration(&mut self, declaration: ast::SingleDeclaration<()>) -> (checked: Result<ast::SingleDeclaration<ty::Expression>, Error>)
        requires
            old(self).context.wf(),
            !(old(self).context.fixed().single_declaration_typing(old(self).context.locals_model(), declaration) is Stuck),
        ensures
            final(self).context.wf(),
            final(self).context.fixed() == old(self).context.fixed(),
            match checked {
                Ok(typed) => old(self).context.fixed().single_declaration_typing(old(self).context.locals_model(), declaration)
                    == Outcome::Typed(final(self).context.locals_model()) && typed.span == declaration.span
                    && typed.name == declaration.name && typed.typ.denotes() == Some(old(self).context.fixed().type_typing(
                        old(self).context.locals_model(), *declaration.typ)->Typed_0),
                Err(error) => old(self).context.fixed().single_declaration_typing(old(self).context.locals_model(), declaration)
                    == Outcome::<Locals>::Failed(error@),
            },
    {
        let ghost locals = self.context.locals_model();
        let ast::SingleDeclaration { name, typ, span } = declaration;
        let typ = self.check_type(*typ)?;
        let ghost declared = typ.denotes()->0;
        let entry = Entry::Variable(typ.typ());
        let symbol = name.symbol;
        let name_span = *name.span;
        let ghost raw = self.context.locals@;
        let replaced = self.context.insert(Scope::Local, name.copy(), entry);
        proof {
            let now = self.context.locals@;
            assert forall|i: int| 0 <= i < raw.len() - 1 implies #[trigger] self.context.locals_model()[i] == locals[i] by {
                assert(now.drop_last()[i] == raw.drop_last()[i]);
            }
            assert(bindings(now.last().1@) =~= bindings(raw.last().1@).insert(symbol, (name, EntryModel::Variable(declared))));
            assert(self.context.locals_model() =~= locals.drop_last().push(
                (locals.last().0, locals.last().1.insert(symbol, (name, EntryModel::Variable(declared)))),
            ));
        }
        match replaced {
            Some((previous, _)) => Err(Error::new(name_span, ErrorKind::NameClash(previous))),
            None => Ok(ast::SingleDeclaration { name, typ: Box::new(typ), span }),
        }
    }
}

/// One step of declaring `names` from `start`, taken at `current`.
proof fn lemma_declare_next(fixed: Fixed, start: Locals, current: Locals, names: Seq<Identifier>, index: int, declared: Model)
    requires
        0 <= index < names.len(),
        fixed.declare_all(start, names, declared) == fixed.declare_all(current, names.skip(index), declared),
        !(fixed.declare_all(start, names, declared) is Stuck),
    ensures
        !(fixed.declare(current, names[index], declared) is Stuck),
        fixed.declare(current, names[index], declared) matches Outcome::Failed(e) ==> fixed.declare_all(start, names, declared)
            == Outcome::<Locals>::Failed(e),
        fixed.declare(current, names[index], declared) matches Outcome::Typed(next) ==> fixed.declare_all(start, names, declared)
            == fixed.declare_all(next, names.skip(index + 1), declared),
{
    let rest = names.skip(index);
    assert(rest[0] == names[index]);
    assert(rest.drop_first() =~= names.skip(index + 1));
}

impl Checker {
    /// Check a declaration of local variables, and bind them in the innermost local scope.
    pub fn check_declaration(&mut self, declaration: ast::Declaration<()>) -> (checked: Result<ast::Declaration<ty::Expression>, Error>)
        requires
            old(self).context.wf(),
            !(old(self).context.fixed().declaration_typing(old(self).context.locals_model(), declaration) is Stuck),
        ensures
            final(self).context.wf(),
            final(self).context.fixed() == old(self).context.fixed(),
            match checked {
                Ok(typed) => old(self).context.fixed().declaration_typing(old(self).context.locals_model(), declaration)
                    == Outcome::Typed(final(self).context.locals_model()) && typed.spec_span() == declaration.spec_span()
                    && declaration_shape(typed, declaration),
                Err(error) => old(self).context.fixed().declaration_typing(old(self).context.locals_model(), declaration)
                    == Outcome::<Locals>::Failed(error@),
            },
    {
        let ghost original = declaration;
        let multiple = match declaration {
            ast::Declaration::Single(single) => {
                let single = self.check_single_declaration(single)?;
                return Ok(ast::Declaration::Single(single));
            },
            ast::Declaration::Multiple(multiple) => multiple,
        };
        let ghost fixed = self.context.fixed();
        let ghost start = self.context.locals_model();
        let ghost names = multiple.names@;
        proof {
            fixed.lemma_type_typing_plain(start, start, *multiple.typ);
        }
        let ghost first = fixed.type_typing(start, *multiple.typ);
        let ghost declared = first->Typed_0;
        let mut index: usize = 0;
        assert(names.skip(0) =~= names);
        assert(first is Typed ==> fixed.declaration_typing(start, original) == fixed.declare_all(start, names, declared));
        while index < multiple.names.len()
            invariant
                self.context.wf(),
                self.context.fixed() == fixed,
                fixed == old(self).context.fixed(),
                start == old(self).context.locals_model(),
                original == ast::Declaration::<()>::Multiple(multiple),
                original == declaration,
                names == multiple.names@,
                index <= names.len(),
                !multiple.typ.spec_has_length(),
                plain(*multiple.typ),
                first == fixed.type_typing(start, *multiple.typ),
                declared == first->Typed_0,
                !(first is Stuck),
                index > 0 ==> first is Typed,
                index == 0 ==> self.context.locals_model() == start,
                first is Typed ==> fixed.declare_all(start, names, declared) == fixed.declare_all(self.context.locals_model(), names.skip(index as int), declared),
                first is Typed ==> fixed.declaration_typing(start, original) == fixed.declare_all(start, names, declared),
                first matches Outcome::Failed(e) ==> fixed.declaration_typing(start, original) == Outcome::<Locals>::Failed(e),
                !(fixed.declaration_typing(start, original) is Stuck),
            decreases names.len() - index,
        {
            let ghost current = self.context.locals_model();
            let single = ast::SingleDeclaration {
                name: multiple.names[index].copy(),
                typ: Box::new(multiple.typ.copy()),
                span: multiple.span,
            };
            proof {
                fixed.lemma_type_typing_plain(start, current, *multiple.typ);
                assert(fixed.type_typing(current, *single.typ) == first);
                if first is Typed {
                    lemma_declare_next(fixed, start, current, names, index as int, declared);
                    assert(fixed.single_declaration_typing(current, single) == fixed.declare(current, names[index as int], declared));
                }
            }
            match self.check_single_declaration(single) {
                Ok(_) => {},
                Err(failure) => {
                    return Err(failure);
                },
            }
            index += 1;
        }
        proof {
            fixed.lemma_type_typing_plain(start, self.context.locals_model(), *multiple.typ);
            assert(names.skip(index as int) =~= Seq::<Identifier>::empty());
        }
        let ast::MultipleDeclaration { names: declared_names, typ, span } = multiple;
        let typ = self.check_type(*typ)?;
        Ok(ast::Declaration::Multiple(ast::MultipleDeclaration { names: declared_names, typ: Box::new(typ), span }))
    }

    /// Check an initialization of local variables with the results of an
    /// expression, and bind them in the innermost local scope.
    pub fn check_initialization(&mut self, initialization: ast::Initialization<()>) -> (checked: Result<ast::Initialization<ty::Expression>, Error>)
        requires
            old(self).context.wf(),
            !(old(self).context.fixed().initialization_typing(old(self).context.locals_model(), initialization) is Stuck),
        ensures
            final(self).context.wf(),
            final(self).context.fixed() == old(self).context.fixed(),
            match checked {
                Ok(typed) => old(self).context.fixed().initialization_typing(old(self).context.locals_model(), initialization)
                    == Outcome::Typed(final(self).context.locals_model()) && typed.span == initialization.span
                    && old(self).context.fixed().initialization_checks(old(self).context.locals_model(), typed, initialization),
                Err(error) => old(self).context.fixed().initialization_typing(old(self).context.locals_model(), initialization)
                    == Outcome::<Locals>::Failed(error@),
            },
    {
        let ghost fixed = self.context.fixed();
        let ghost start = self.context.locals_model();
        let ghost original = initialization;
        let ast::Initialization { declarations, expression, span } = initialization;
        let expression_span = expression.span();
        let (expression, types) = match *expression {
            ast::Expression::Call(call) => {
                let call = self.check_call(call)?;
                let function = call.function.typ();
                let types = match function {
                    ty::Expression::Function(_, returned) => {
                        proof {
                            function.lemma_function_model();
                        }
                        ty::copy_all(&returned)
                    },
                    _ => {
                        assert(false);
                        Vec::new()
                    },
                };
                (ast::Expression::Call(call), types)
            },
            expression => {
                let expression = self.check_expression(expression)?;
                let typ = expression.typ();
                let mut types: Vec<ty::Expression> = Vec::new();
                types.push(typ);
                assert(models(types@) =~= seq![annotation(expression)->0]);
                (expression, types)
            },
        };
        let ghost type_models = models(types@);
        assert(fixed.initializer_typing(start, *original.expression) == Outcome::Typed(type_models));
        assert(original.declarations == declarations && original.span == span);
        if types.len() == 0 {
            return Err(Error::new(span, ErrorKind::InitProcedure));
        }
        if types.len() != declarations.len() {
            return Err(Error::new(span, ErrorKind::InitLength));
        }
        let ghost all = declarations@;
        let mut remaining = declarations;
        let mut checked: Vec<Option<ast::SingleDeclaration<ty::Expression>>> = Vec::new();
        let mut index: usize = 0;
        assert(all.skip(0) =~= all);
        while remaining.len() > 0
            invariant
                self.context.wf(),
                self.context.fixed() == fixed,
                fixed == old(self).context.fixed(),
                start == old(self).context.locals_model(),
                fixed.initialization_typing(start, original) == fixed.initialize(start, all, type_models, 0, expression_span),
                original == initialization,
                all.len() == types@.len(),
                type_models == models(types@),
                index <= all.len(),
                checked@.len() == index,
                remaining@ == all.skip(index as int),
                fixed.initialize(start, all, type_models, 0, expression_span) == fixed.initialize(
                    self.context.locals_model(),
                    all,
                    type_models,
                    index as nat,
                    expression_span,
                ),
                !(fixed.initialize(start, all, type_models, 0, expression_span) is Stuck),
                match *original.expression {
                    ast::Expression::Call(call) => expression matches ast::Expression::Call(found) && fixed.call_checks(
                        start,
                        found,
                        call,
                    ),
                    original_expression => fixed.checks(start, expression, original_expression),
                },
                forall|j: int| 0 <= j < index ==> declared_in_place(#[trigger] checked@[j], all[j]),
            decreases remaining@.len(),
        {
            assert(remaining@[0] == all[index as int]);
            let declaration = remaining.remove(0);
            assert(remaining@ =~= all.skip(index + 1));
            match declaration {
                None => checked.push(None),
                Some(declaration) => {
                    let ghost current = self.context.locals_model();
                    proof {
                        assert(fixed.initialize(current, all, type_models, index as nat, expression_span) == match fixed.type_typing(current, *declaration.typ) {
                            Outcome::Typed(supertype) => match fixed.declare(current, declaration.name, supertype) {
                                Outcome::Typed(next) => if fixed.spec_is_subtype(type_models[index as int], supertype) {
                                    fixed.initialize(next, all, type_models, (index + 1) as nat, expression_span)
                                } else {
                                    Outcome::Failed(mismatch(expression_span, supertype, Some(declaration.span), type_models[index as int]))
                                },
                                Outcome::Failed(error) => Outcome::Failed(error),
                                Outcome::Stuck => Outcome::Stuck,
                            },
                            Outcome::Failed(error) => Outcome::Failed(error),
                            Outcome::Stuck => Outcome::Stuck,
                        });
                    }
                    let typed = match self.check_single_declaration(declaration) {
                        Ok(typed) => typed,
                        Err(failure) => {
                            return Err(failure);
                        },
                    };
                    let supertype = typed.typ.typ();
                    if !self.context.is_subtype(&types[index], &supertype) {
                        assert(type_models[index as int] == types@[index as int]@);
                        return Err(mismatch_error(expression_span, supertype, Some(typed.span), types[index].copy()));
                    }
                    checked.push(Some(typed));
                },
            }
            assert(checked.len() == index + 1);
            index += 1;
        }
        Ok(ast::Initialization { declarations: checked, expression: Box::new(expression), span })
    }
}

/// `prefix` followed by the types of a successful outcome.
pub open spec fn prepend(prefix: Seq<Model>, outcome: Outcome<Seq<Model>>) -> Outcome<Seq<Model>> {
    match outcome {
        Outcome::Typed(rest) => Outcome::Typed(prefix + rest),
        Outcome::Failed(error) => Outcome::Failed(error),
        Outcome::Stuck => Outcome::Stuck,
    }
}

impl Context {
    proof fn lemma_enter(self, before: Locals, scope: LocalScope)
        requires
            self.locals@.len() > 0,
            self.locals@.drop_last().map_values(|local: (LocalScope, Environment<Entry>)| (local.0@, bindings(local.1@))) == before,
            self.locals@.last().0 == scope,
            self.locals@.last().1@ == Map::<Symbol, (Identifier, Entry)>::empty(),
        ensures
            self.locals_model() == enter(before, scope@),
    {
        assert(bindings(self.locals@.last().1@) =~= Map::<Symbol, (Identifier, EntryModel)>::empty());
        assert(self.locals_model() =~= enter(before, scope@));
    }
}

impl Checker {
    /// Enter a local scope of the given kind.
    pub(crate) fn enter_scope(&mut self, scope: LocalScope)
        requires
            old(self).context.wf(),
        ensures
            final(self).context.wf(),
            final(self).context.fixed() == old(self).context.fixed(),
            final(self).context.locals_model() == enter(old(self).context.locals_model(), scope@),
    {
        let ghost before = self.context.locals_model();
        let ghost raw = self.context.locals@;
        self.context.push(scope);
        proof {
            assert(self.context.locals@.drop_last() =~= raw);
            self.context.lemma_enter(before, self.context.locals@.last().0);
        }
    }

    /// Leave the innermost local scope.
    pub(crate) fn leave_scope(&mut self)
        requires
            old(self).context.wf(),
        ensures
            final(self).context.wf(),
            final(self).context.fixed() == old(self).context.fixed(),
            final(self).context.locals_model() == leave(old(self).context.locals_model()),
    {
        let ghost before = self.context.locals_model();
        self.context.pop();
        proof {
            if before.len() > 0 {
                assert(self.context.locals_model() =~= before.drop_last());
            }
        }
    }

    /// Check that a condition has type `bool`.
    fn check_condition(&self, condition: ast::Expression<()>) -> (checked: Result<ast::Expression<ty::Expression>, Error>)
        requires
            self.context.wf(),
            !(self.context.fixed().condition_typing(self.context.locals_model(), condition) is Stuck),
        ensures
            match checked {
                Ok(typed) => self.context.fixed().condition_typing(self.context.locals_model(), condition) == Outcome::Typed(())
                    && typed.spec_span() == condition.spec_span() && self.context.fixed().checks(
                    self.context.locals_model(),
                    typed,
                    condition,
                ),
                Err(error) => self.context.fixed().condition_typing(self.context.locals_model(), condition)
                    == Outcome::<()>::Failed(error@),
            },
    {
        let condition = self.check_expression(condition)?;
        match condition.typ() {
            ty::Expression::Boolean => Ok(condition),
            typ => Err(mismatch_error(condition.span(), ty::Expression::Boolean, None, typ)),
        }
    }

    /// Check a statement: the types of its expressions, the bindings it makes,
    /// and whether control can fall through it.
    pub fn check_statement(&mut self, statement: ast::Statement<()>) -> (checked: Result<(ast::Statement<ty::Expression>, ty::Statement), Error>)
        requires
            old(self).context.wf(),
            !(old(self).context.fixed().statement_typing(old(self).context.locals_model(), statement) is Stuck),
        ensures
            final(self).context.wf(),
            final(self).context.fixed() == old(self).context.fixed(),
            match checked {
                Ok((typed, typ)) => old(self).context.fixed().statement_typing(old(self).context.locals_model(), statement)
                    == Outcome::Typed((final(self).context.locals_model(), typ)) && typed.spec_span() == statement.spec_span() && old(
                    self,
                ).context.fixed().statement_checks(old(self).context.locals_model(), typed, statement),
                Err(error) => old(self).context.fixed().statement_typing(old(self).context.locals_model(), statement)
                    == Outcome::<(Locals, ty::Statement)>::Failed(error@),
            },
        decreases statement, 1nat,
    {
        match statement {
            ast::Statement::Assignment(left, right, span) => {
                let left_span = left.span();
                let right_span = right.span();
                let left = self.check_expression(*left)?;
                let left_type = left.typ();
                let right = self.check_expression(*right)?;
                let right_type = right.typ();
                if self.context.is_subtype(&right_type, &left_type) {
                    let typed = ast::Statement::Assignment(Box::new(left), Box::new(right), span);
                    assert(old(self).context.fixed().statement_checks(old(self).context.locals_model(), typed, statement)) by {
                        reveal(Fixed::statement_checks);
                    }
                    Ok((typed, ty::Statement::Unit))
                } else {
                    Err(mismatch_error(right_span, left_type, Some(left_span), right_type))
                }
            },
            ast::Statement::Call(call) => {
                let call_span = call.span;
                let call = self.check_call(call)?;
                let function = call.function.typ();
                match function {
                    ty::Expression::Function(_, returned) => {
                        proof {
                            function.lemma_function_model();
                        }
                        if returned.len() == 0 {
                            let typed = ast::Statement::Call(call);
                            assert(old(self).context.fixed().statement_checks(old(self).context.locals_model(), typed, statement)) by {
                                reveal(Fixed::statement_checks);
                            }
                            Ok((typed, ty::Statement::Unit))
                        } else {
                            Err(Error::new(call_span, ErrorKind::NotProcedure))
                        }
                    },
                    _ => {
                        assert(false);
                        Err(Error::new(call_span, ErrorKind::NotProcedure))
                    },
                }
            },
            ast::Statement::Declaration(declaration, span) => {
                let declaration = self.check_declaration(*declaration)?;
                let typed = ast::Statement::Declaration(Box::new(declaration), span);
                assert(old(self).context.fixed().statement_checks(old(self).context.locals_model(), typed, statement)) by {
                    reveal(Fixed::statement_checks);
                }
                Ok((typed, ty::Statement::Unit))
            },
            ast::Statement::Initialization(initialization) => {
                let initialization = self.check_initialization(initialization)?;
                let typed = ast::Statement::Initialization(initialization);
                assert(old(self).context.fixed().statement_checks(old(self).context.locals_model(), typed, statement)) by {
                    reveal(Fixed::statement_checks);
                }
                Ok((typed, ty::Statement::Unit))
            },
            ast::Statement::Return(returned, span) => self.check_return(returned, span),
            ast::Statement::Sequence(..) => self.check_block(statement),
            ast::Statement::If(..) => self.check_if(statement),
            ast::Statement::While(..) => self.check_while(statement),
            ast::Statement::Break(span) => match self.context.get_scoped_while() {
                None => Err(Error::new(span, ErrorKind::NotInWhile)),
                Some(_) => {
                    let typed = ast::Statement::Break(span);
                    assert(old(self).context.fixed().statement_checks(old(self).context.locals_model(), typed, statement)) by {
                        reveal(Fixed::statement_checks);
                    }
                    Ok((typed, ty::Statement::Void))
                },
            },
        }
    }

    /// Check a return: its results against those of the enclosing function.
    fn check_return(&mut self, returned: Vec<ast::Expression<()>>, span: Span) -> (checked: Result<(ast::Statement<ty::Expression>, ty::Statement), Error>)
        requires
            old(self).context.wf(),
            !(old(self).context.fixed().return_typing(old(self).context.locals_model(), returned, span) is Stuck),
        ensures
            final(self).context == old(self).context,
            match checked {
                Ok((typed, typ)) => old(self).context.fixed().return_typing(old(self).context.locals_model(), returned, span)
                    == Outcome::Typed((old(self).context.locals_model(), typ)) && typed.spec_span() == span && old(
                    self,
                ).context.fixed().statement_checks(
                    old(self).context.locals_model(),
                    typed,
                    ast::Statement::Return(returned, span),
                ),
                Err(error) => old(self).context.fixed().return_typing(old(self).context.locals_model(), returned, span)
                    == Outcome::<(Locals, ty::Statement)>::Failed(error@),
            },
    {
        let ghost fixed = self.context.fixed();
        let ghost start = self.context.locals_model();
        let ghost all = returned;
        let mut remaining = returned;
        let mut checked: Vec<ast::Expression<ty::Expression>> = Vec::new();
        let mut types: Vec<ty::Expression> = Vec::new();
        let mut index: usize = 0;
        assert(all@.skip(0) =~= all@);
        assert(models(types@) + Seq::<Model>::empty() =~= Seq::<Model>::empty());
        while remaining.len() > 0
            invariant
                self.context.wf(),
                self.context == old(self).context,
                fixed == self.context.fixed(),
                start == self.context.locals_model(),
                all == returned,
                index <= all@.len(),
                checked@.len() == index,
                types@.len() == index,
                remaining@ == all@.skip(index as int),
                fixed.typing_all(start, all, 0) == prepend(models(types@), fixed.typing_all(start, all, index as nat)),
                !(fixed.typing_all(start, all, 0) is Stuck),
                forall|j: int| 0 <= j < index ==> fixed.checks(start, #[trigger] checked@[j], all@[j]),
            decreases remaining@.len(),
        {
            assert(remaining@[0] == all@[index as int]);
            let expression = remaining.remove(0);
            assert(remaining@ =~= all@.skip(index + 1));
            let ghost prefix = models(types@);
            let typed = self.check_expression(expression)?;
            let typ = typed.typ();
            let ghost pushed = typ@;
            proof {
                assert(fixed.typing_all(start, all, index as nat) == match fixed.typing_all(start, all, (index + 1) as nat) {
                    Outcome::Typed(rest) => Outcome::Typed(seq![pushed] + rest),
                    Outcome::Failed(error) => Outcome::Failed(error),
                    Outcome::Stuck => Outcome::<Seq<Model>>::Stuck,
                });
                if fixed.typing_all(start, all, (index + 1) as nat) is Typed {
                    let rest = fixed.typing_all(start, all, (index + 1) as nat)->Typed_0;
                    assert(prefix + (seq![pushed] + rest) =~= prefix.push(pushed) + rest);
                }
            }
            types.push(typ);
            proof {
                assert(models(types@) =~= prefix.push(pushed));
            }
            checked.push(typed);
            assert(checked.len() == index + 1);
            index += 1;
        }
        proof {
            assert(models(types@) + Seq::<Model>::empty() =~= models(types@));
        }
        let expected = match self.context.get_scoped_returns() {
            Some(expected) => expected,
            None => {
                assert(false);
                return Err(Error::new(span, ErrorKind::ReturnMismatch));
            },
        };
        if self.context.all_subtype(&types, expected) {
            let typed = ast::Statement::Return(checked, span);
            proof {
                fixed.lemma_checks_elements(start, checked@, all, 0);
                assert(fixed.statement_checks(start, typed, ast::Statement::Return(returned, span))) by {
                    reveal(Fixed::statement_checks);
                }
            }
            Ok((typed, ty::Statement::Void))
        } else {
            Err(Error::new(span, ErrorKind::ReturnMismatch))
        }
    }

    /// Check a block: its statements in order, in a new scope; none may follow
    /// one that cannot fall through.
    fn check_block(&mut self, statement: ast::Statement<()>) -> (checked: Result<(ast::Statement<ty::Expression>, ty::Statement), Error>)
        requires
            old(self).context.wf(),
            statement is Sequence,
            !(old(self).context.fixed().block_typing(old(self).context.locals_model(), statement) is Stuck),
        ensures
            final(self).context.wf(),
            final(self).context.fixed() == old(self).context.fixed(),
            match checked {
                Ok((typed, typ)) => old(self).context.fixed().block_typing(old(self).context.locals_model(), statement)
                    == Outcome::Typed((final(self).context.locals_model(), typ)) && typed.spec_span() == statement.spec_span() && old(
                    self,
                ).context.fixed().statement_checks(old(self).context.locals_model(), typed, statement),
                Err(error) => old(self).context.fixed().block_typing(old(self).context.locals_model(), statement)
                    == Outcome::<(Locals, ty::Statement)>::Failed(error@),
            },
        decreases statement, 0nat,
    {
        let ghost original = statement;
        let ghost fixed = self.context.fixed();
        let ghost start = self.context.locals_model();
        let (statements, span) = match statement {
            ast::Statement::Sequence(statements, span) => (statements, span),
            _ => {
                assert(false);
                return Err(Error::new(statement.span(), ErrorKind::Unreachable));
            },
        };
        self.enter_scope(LocalScope::Block);
        let ghost inner = self.context.locals_model();
        let ghost all = statements;
        let mut remaining = statements;
        let mut checked: Vec<ast::Statement<ty::Expression>> = Vec::new();
        let mut so_far = ty::Statement::Unit;
        let mut index: usize = 0;
        let ghost mut states: Seq<Locals> = seq![inner];
        assert(all@.skip(0) =~= all@);
        while remaining.len() > 0
            invariant
                self.context.wf(),
                self.context.fixed() == fixed,
                fixed == old(self).context.fixed(),
                start == old(self).context.locals_model(),
                inner == enter(start, ScopeModel::Block),
                original == statement,
                original == ast::Statement::<()>::Sequence(all, span),
                index <= all@.len(),
                checked@.len() == index,
                remaining@ == all@.skip(index as int),
                fixed.sequence_typing(inner, all, 0, ty::Statement::Unit) == fixed.sequence_typing(
                    self.context.locals_model(),
                    all,
                    index as nat,
                    so_far,
                ),
                !(fixed.sequence_typing(inner, all, 0, ty::Statement::Unit) is Stuck),
                states.len() == index + 1,
                states[0] == inner,
                states[index as int] == self.context.locals_model(),
                forall|j: int| 0 <= j < index ==> fixed.statement_checks(states[j], #[trigger] checked@[j], all@[j])
                    && fixed.statement_typing(states[j], all@[j]) is Typed && fixed.statement_typing(states[j], all@[j])->Typed_0.0
                    == states[j + 1],
            decreases remaining@.len(),
        {
            assert(remaining@[0] == all@[index as int]);
            let next = remaining.remove(0);
            assert(remaining@ =~= all@.skip(index + 1));
            proof {
                assert(decreases_to!(statement => all));
                assert(decreases_to!(all => all[index as int]));
                assert(all[index as int] == next);
            }
            let ghost before = self.context.locals_model();
            let (typed, typ) = self.check_statement(next)?;
            proof {
                states = states.push(self.context.locals_model());
            }
            if so_far == ty::Statement::Void {
                return Err(Error::new(typed.span(), ErrorKind::Unreachable));
            } else if typ == ty::Statement::Void {
                so_far = ty::Statement::Void;
            }
            checked.push(typed);
            assert(checked.len() == index + 1);
            index += 1;
        }
        self.leave_scope();
        let typed = ast::Statement::Sequence(checked, span);
        proof {
            fixed.lemma_sequence_checks(states, checked@, all, 0);
            assert(fixed.statement_checks(start, typed, statement)) by {
                reveal(Fixed::statement_checks);
            }
        }
        Ok((typed, so_far))
    }

    /// Check a conditional: its condition, then each branch in a scope of its own.
    fn check_if(&mut self, statement: ast::Statement<()>) -> (checked: Result<(ast::Statement<ty::Expression>, ty::Statement), Error>)
        requires
            old(self).context.wf(),
            statement is If,
            !(old(self).context.fixed().if_typing(old(self).context.locals_model(), statement) is Stuck),
        ensures
            final(self).context.wf(),
            final(self).context.fixed() == old(self).context.fixed(),
            match checked {
                Ok((typed, typ)) => old(self).context.fixed().if_typing(old(self).context.locals_model(), statement)
                    == Outcome::Typed((final(self).context.locals_model(), typ)) && typed.spec_span() == statement.spec_span() && old(
                    self,
                ).context.fixed().statement_checks(old(self).context.locals_model(), typed, statement),
                Err(error) => old(self).context.fixed().if_typing(old(self).context.locals_model(), statement)
                    == Outcome::<(Locals, ty::Statement)>::Failed(error@),
            },
        decreases statement, 0nat,
    {
        match statement {
            ast::Statement::If(condition, then, otherwise, span) => {
                let condition = self.check_condition(*condition)?;
                self.enter_scope(LocalScope::If);
                let (then, then_type) = self.check_statement(*then)?;
                self.leave_scope();
                match otherwise {
                    None => {
                        let typed = ast::Statement::If(Box::new(condition), Box::new(then), None, span);
                        assert(old(self).context.fixed().statement_checks(old(self).context.locals_model(), typed, statement)) by {
                            reveal(Fixed::statement_checks);
                        }
                        Ok((typed, ty::Statement::Unit))
                    },
                    Some(otherwise) => {
                        self.enter_scope(LocalScope::Else);
                        let (otherwise, else_type) = self.check_statement(*otherwise)?;
                        self.leave_scope();
                        let typ = then_type.least_upper_bound(&else_type);
                        let typed = ast::Statement::If(Box::new(condition), Box::new(then), Some(Box::new(otherwise)), span);
                        assert(old(self).context.fixed().statement_checks(old(self).context.locals_model(), typed, statement)) by {
                            reveal(Fixed::statement_checks);
                        }
                        Ok((typed, typ))
                    },
                }
            },
            _ => {
                assert(false);
                Err(Error::new(statement.span(), ErrorKind::Unreachable))
            },
        }
    }

    /// Check a loop: its condition, then its body in a scope of its own.
    fn check_while(&mut self, statement: ast::Statement<()>) -> (checked: Result<(ast::Statement<ty::Expression>, ty::Statement), Error>)
        requires
            old(self).context.wf(),
            statement is While,
            !(old(self).context.fixed().while_typing(old(self).context.locals_model(), statement) is Stuck),
        ensures
            final(self).context.wf(),
            final(self).context.fixed() == old(self).context.fixed(),
            match checked {
                Ok((typed, typ)) => old(self).context.fixed().while_typing(old(self).context.locals_model(), statement)
                    == Outcome::Typed((final(self).context.locals_model(), typ)) && typed.spec_span() == statement.spec_span() && old(
                    self,
                ).context.fixed().statement_checks(old(self).context.locals_model(), typed, statement),
                Err(error) => old(self).context.fixed().while_typing(old(self).context.locals_model(), statement)
                    == Outcome::<(Locals, ty::Statement)>::Failed(error@),
            },
        decreases statement, 0nat,
    {
        match statement {
            ast::Statement::While(repeat, condition, body, span) => {
                let condition = self.check_condition(*condition)?;
                self.enter_scope(LocalScope::While(None));
                let (body, _) = self.check_statement(*body)?;
                self.leave_scope();
                let typed = ast::Statement::While(repeat, Box::new(condition), Box::new(body), span);
                assert(old(self).context.fixed().statement_checks(old(self).context.locals_model(), typed, statement)) by {
                    reveal(Fixed::statement_checks);
                }
                Ok((typed, ty::Statement::Unit))
            },
            _ => {
                assert(false);
                Err(Error::new(statement.span(), ErrorKind::Unreachable))
            },
        }
    }
}

} // verus!

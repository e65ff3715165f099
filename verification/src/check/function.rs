use vstd::prelude::*;

use crate::check::check::enter;
use crate::check::check::leave;
use crate::check::check::Checker;
use crate::check::check::Outcome;
use crate::check::context::Fixed;
use crate::check::context::GlobalScope;
use crate::check::context::LocalScope;
use crate::check::context::Locals;
use crate::check::context::ScopeModel;
use crate::check::error::error;
use crate::check::error::Error;
use crate::check::error::ErrorKind;
use crate::check::error::ErrorKindModel;
use crate::check::statement::plain;
use crate::data::ast;
use crate::data::ty;
use crate::data::ty::models;
use crate::data::ty::Model;

verus! {

/// The types of the parameters of `parameters`.
pub open spec fn parameter_types(parameters: Seq<ast::SingleDeclaration<()>>) -> Seq<ast::Type<()>> {
    parameters.map_values(|parameter: ast::SingleDeclaration<()>| *parameter.typ)
}

/// The signature types name no type arguments and carry no array lengths, as
/// after monomorphization.
pub open spec fn signature_plain(types: Seq<ast::Type<()>>) -> bool {
    forall|i: int| 0 <= i < types.len() ==> plain(#[trigger] types[i])
}

impl Fixed {
    /// What each of `types` denotes, checked in order; the first failure.
    pub open spec fn types_typing(self, locals: Locals, types: Seq<ast::Type<()>>) -> Outcome<Seq<Model>>
        decreases types.len(),
    {
        if types.len() == 0 {
            Outcome::Typed(seq![])
        } else {
            match self.types_typing(locals, types.drop_last()) {
                Outcome::Typed(denoted) => match self.type_typing(locals, types.last()) {
                    Outcome::Typed(typ) => Outcome::Typed(denoted.push(typ)),
                    Outcome::Failed(failure) => Outcome::Failed(failure),
                    Outcome::Stuck => Outcome::Stuck,
                },
                Outcome::Failed(failure) => Outcome::Failed(failure),
                Outcome::Stuck => Outcome::Stuck,
            }
        }
    }

    /// The result types of a function, once its parameter types and then its
    /// result types check.
    pub open spec fn signature_typing(self, locals: Locals, parameters: Seq<ast::SingleDeclaration<()>>, returned: Seq<ast::Type<()>>) -> Outcome<Seq<Model>> {
        match self.types_typing(locals, parameter_types(parameters)) {
            Outcome::Typed(_) => self.types_typing(locals, returned),
            Outcome::Failed(failure) => Outcome::Failed(failure),
            Outcome::Stuck => Outcome::Stuck,
        }
    }

    /// The local scopes once each of `parameters` is declared, in order.
    pub open spec fn parameters_typing(self, locals: Locals, parameters: Seq<ast::SingleDeclaration<()>>) -> Outcome<Locals>
        decreases parameters.len(),
    {
        if parameters.len() == 0 {
            Outcome::Typed(locals)
        } else {
            match self.parameters_typing(locals, parameters.drop_last()) {
                Outcome::Typed(declared) => self.single_declaration_typing(declared, parameters.last()),
                other => other,
            }
        }
    }

    /// Checking a function defined in `scope`: its signature, then, in a new
    /// local scope for its body, its parameters and its body, which must not
    /// complete normally if the function returns results. The local scopes
    /// after it, with the function's scope left.
    pub open spec fn function_typing(self, locals: Locals, scope: GlobalScope, function: ast::Function<()>) -> Outcome<Locals> {
        match self.signature_typing(locals, function.parameters@, function.returned@) {
            Outcome::Typed(returned) => {
                let kind = match scope {
                    GlobalScope::Class(class) => ScopeModel::Method { class, returned },
                    GlobalScope::Global => ScopeModel::Function { returned },
                };
                match self.parameters_typing(enter(locals, kind), function.parameters@) {
                    Outcome::Typed(declared) => match self.statement_typing(declared, function.statements) {
                        Outcome::Typed((after, typ)) => if typ != ty::Statement::Void && returned.len() != 0 {
                            Outcome::Failed(error(function.span, ErrorKindModel::MissingReturn))
                        } else {
                            Outcome::Typed(leave(after))
                        },
                        Outcome::Failed(failure) => Outcome::Failed(failure),
                        Outcome::Stuck => Outcome::Stuck,
                    },
                    Outcome::Failed(failure) => Outcome::Failed(failure),
                    Outcome::Stuck => Outcome::Stuck,
                }
            },
            Outcome::Failed(failure) => Outcome::Failed(failure),
            Outcome::Stuck => Outcome::Stuck,
        }
    }

    /// The body of `typed` is that of `function` checked (see
    /// [`Fixed::statement_checks`]) in the scope that [`Fixed::function_typing`]
    /// opens for it, with the parameters bound.
    pub open spec fn body_checks(self, locals: Locals, scope: GlobalScope, function: ast::Function<()>, typed: ast::Function<ty::Expression>) -> bool {
        match self.signature_typing(locals, function.parameters@, function.returned@) {
            Outcome::Typed(returned) => {
                let kind = match scope {
                    GlobalScope::Class(class) => ScopeModel::Method { class, returned },
                    GlobalScope::Global => ScopeModel::Function { returned },
                };
                match self.parameters_typing(enter(locals, kind), function.parameters@) {
                    Outcome::Typed(declared) => self.statement_checks(declared, typed.statements, function.statements),
                    _ => false,
                }
            },
            _ => false,
        }
    }

    proof fn lemma_plain_checks(self, locals: Locals, typ: ast::Type<()>)
        requires
            plain(typ),
        ensures
            !(self.type_typing(locals, typ) is Stuck),
        decreases typ,
    {
        if let ast::Type::Array(inner, _, _) = typ {
            self.lemma_plain_checks(locals, *inner);
        }
    }

    proof fn lemma_plain_types_check(self, locals: Locals, types: Seq<ast::Type<()>>)
        requires
            signature_plain(types),
        ensures
            !(self.types_typing(locals, types) is Stuck),
        decreases types.len(),
    {
        if types.len() > 0 {
            assert forall|i: int| 0 <= i < types.drop_last().len() implies plain(#[trigger] types.drop_last()[i]) by {
                assert(types.drop_last()[i] == types[i]);
            }
            self.lemma_plain_types_check(locals, types.drop_last());
            self.lemma_plain_checks(locals, types.last());
        }
    }

    proof fn lemma_types_prefix(self, locals: Locals, types: Seq<ast::Type<()>>, count: int)
        requires
            0 <= count <= types.len(),
            !(self.types_typing(locals, types) is Stuck),
        ensures
            !(self.types_typing(locals, types.take(count)) is Stuck),
            self.types_typing(locals, types.take(count)) matches Outcome::Failed(failure)
                ==> self.types_typing(locals, types) == Outcome::<Seq<Model>>::Failed(failure),
        decreases types.len() - count,
    {
        if count < types.len() {
            self.lemma_types_prefix(locals, types, count + 1);
            assert(types.take(count + 1).drop_last() =~= types.take(count));
        } else {
            assert(types.take(count) =~= types);
        }
    }

    proof fn lemma_parameters_prefix(self, locals: Locals, parameters: Seq<ast::SingleDeclaration<()>>, count: int)
        requires
            0 <= count <= parameters.len(),
            !(self.parameters_typing(locals, parameters) is Stuck),
        ensures
            !(self.parameters_typing(locals, parameters.take(count)) is Stuck),
            self.parameters_typing(locals, parameters.take(count)) matches Outcome::Failed(failure)
                ==> self.parameters_typing(locals, parameters) == Outcome::<Locals>::Failed(failure),
        decreases parameters.len() - count,
    {
        if count < parameters.len() {
            self.lemma_parameters_prefix(locals, parameters, count + 1);
            assert(parameters.take(count + 1).drop_last() =~= parameters.take(count));
        } else {
            assert(parameters.take(count) =~= parameters);
        }
    }
}

impl Checker {
    /// Check that each of `types` names known classes; what they denote.
    fn check_types(&self, types: &Vec<ast::Type<()>>) -> (checked: Result<Vec<ast::Type<ty::Expression>>, Error>)
        requires
            self.context.wf(),
            signature_plain(types@),
        ensures
            match checked {
                Ok(typed) => self.context.fixed().types_typing(self.context.locals_model(), types@)
                    == Outcome::Typed(denotations(typed@)) && typed@.len() == types@.len()
                    && forall|i: int| 0 <= i < typed@.len() ==> (#[trigger] typed@[i]).denotes() is Some,
                Err(failure) => self.context.fixed().types_typing(self.context.locals_model(), types@)
                    == Outcome::<Seq<Model>>::Failed(failure@),
            },
    {
        let ghost fixed = self.context.fixed();
        let ghost locals = self.context.locals_model();
        proof {
            fixed.lemma_plain_types_check(locals, types@);
        }
        let mut typed: Vec<ast::Type<ty::Expression>> = Vec::new();
        let mut index: usize = 0;
        assert(types@.take(0) =~= Seq::<ast::Type<()>>::empty());
        assert(denotations(typed@) =~= Seq::<Model>::empty());
        while index < types.len()
            invariant
                self.context.wf(),
                fixed == self.context.fixed(),
                locals == self.context.locals_model(),
                signature_plain(types@),
                !(fixed.types_typing(locals, types@) is Stuck),
                index <= types@.len(),
                typed@.len() == index,
                forall|i: int| 0 <= i < typed@.len() ==> (#[trigger] typed@[i]).denotes() is Some,
                fixed.types_typing(locals, types@.take(index as int)) == Outcome::Typed(denotations(typed@)),
            decreases types@.len() - index,
        {
            let ghost prefix = types@.take(index + 1);
            assert(prefix.drop_last() =~= types@.take(index as int));
            assert(prefix.last() == types@[index as int]);
            proof {
                fixed.lemma_types_prefix(locals, types@, index + 1);
                fixed.lemma_plain_checks(locals, types@[index as int]);
            }
            assert(plain(types@[index as int]));
            let typ = types[index].copy();
            match self.check_type(typ) {
                Ok(checked) => {
                    let ghost before = typed@;
                    assert(fixed.type_typing(locals, types@[index as int]) == Outcome::Typed(checked.denotes()->0));
                    typed.push(checked);
                    assert(typed@.drop_last() =~= before);
                    assert(denotations(typed@) =~= denotations(before).push(checked.denotes()->0));
                    assert(fixed.types_typing(locals, prefix) == Outcome::Typed(denotations(typed@)));
                },
                Err(failure) => {
                    assert(fixed.types_typing(locals, prefix) == Outcome::<Seq<Model>>::Failed(failure@));
                    return Err(failure);
                },
            }
            index += 1;
        }
        assert(types@.take(index as int) =~= types@);
        Ok(typed)
    }

    /// Check the parameter types, then the result types, of a function; the
    /// checked result types.
    pub fn check_function_like(
        &self,
        parameters: &Vec<ast::SingleDeclaration<()>>,
        returned: &Vec<ast::Type<()>>,
    ) -> (checked: Result<Vec<ast::Type<ty::Expression>>, Error>)
        requires
            self.context.wf(),
            signature_plain(parameter_types(parameters@)),
            signature_plain(returned@),
        ensures
            match checked {
                Ok(typed) => self.context.fixed().signature_typing(self.context.locals_model(), parameters@, returned@)
                    == Outcome::Typed(denotations(typed@))
                    && forall|i: int| 0 <= i < typed@.len() ==> (#[trigger] typed@[i]).denotes() is Some,
                Err(failure) => self.context.fixed().signature_typing(self.context.locals_model(), parameters@, returned@)
                    == Outcome::<Seq<Model>>::Failed(failure@),
            },
    {
        let mut types: Vec<ast::Type<()>> = Vec::new();
        let mut index: usize = 0;
        while index < parameters.len()
            invariant
                signature_plain(parameter_types(parameters@)),
                index <= parameters@.len(),
                types@ == parameter_types(parameters@).take(index as int),
            decreases parameters@.len() - index,
        {
            assert(plain(parameter_types(parameters@)[index as int]));
            types.push(parameters[index].typ.copy());
            index += 1;
            assert(types@ =~= parameter_types(parameters@).take(index as int));
        }
        assert(types@ =~= parameter_types(parameters@));
        match self.check_types(&types) {
            Ok(_) => {},
            Err(failure) => return Err(failure),
        }
        self.check_types(returned)
    }

    /// Declare each of `parameters` in the innermost local scope, in order.
    #[verifier::rlimit(30)]
    fn check_parameters(&mut self, parameters: Vec<ast::SingleDeclaration<()>>) -> (checked: Result<Vec<ast::SingleDeclaration<ty::Expression>>, Error>)
        requires
            old(self).context.wf(),
            !(old(self).context.fixed().parameters_typing(old(self).context.locals_model(), parameters@) is Stuck),
        ensures
            final(self).context.wf(),
            final(self).context.fixed() == old(self).context.fixed(),
            match checked {
                Ok(typed) => old(self).context.fixed().parameters_typing(old(self).context.locals_model(), parameters@)
                    == Outcome::Typed(final(self).context.locals_model()) && typed@.len() == parameters@.len(),
                Err(failure) => old(self).context.fixed().parameters_typing(old(self).context.locals_model(), parameters@)
                    == Outcome::<Locals>::Failed(failure@),
            },
    {
        let ghost fixed = self.context.fixed();
        let ghost entered = self.context.locals_model();
        let ghost all = parameters@;
        let mut remaining = parameters;
        let mut checked_parameters: Vec<ast::SingleDeclaration<ty::Expression>> = Vec::new();
        assert(all.take(0) =~= Seq::<ast::SingleDeclaration<()>>::empty());
        assert(all.skip(0) =~= all);
        while remaining.len() > 0
            invariant
                self.context.wf(),
                fixed == self.context.fixed(),
                fixed == old(self).context.fixed(),
                entered == old(self).context.locals_model(),
                all == parameters@,
                remaining@ == all.skip(checked_parameters@.len() as int),
                checked_parameters@.len() <= all.len(),
                !(fixed.parameters_typing(entered, all) is Stuck),
                fixed.parameters_typing(entered, all.take(checked_parameters@.len() as int)) == Outcome::Typed(self.context.locals_model()),
            decreases remaining@.len(),
        {
            let count = checked_parameters.len();
            let ghost prefix = all.take(count + 1);
            assert(prefix.drop_last() =~= all.take(count as int));
            assert(prefix.last() == all[count as int]);
            proof {
                fixed.lemma_parameters_prefix(entered, all, count + 1);
            }
            let parameter = remaining.remove(0);
            assert(remaining@ =~= all.skip(count + 1));
            match self.check_single_declaration(parameter) {
                Ok(checked) => checked_parameters.push(checked),
                Err(failure) => {
                    assert(fixed.parameters_typing(entered, prefix) == Outcome::<Locals>::Failed(failure@));
                    return Err(failure);
                },
            }
        }
        assert(all.take(checked_parameters@.len() as int) =~= all);
        Ok(checked_parameters)
    }

    #[verifier::rlimit(40)]
    /// Check a function defined in `scope` (globally or in a class): its
    /// signature, then its parameters and body in a new local scope, which is
    /// left again afterwards.
    pub fn check_function(&mut self, scope: GlobalScope, function: ast::Function<()>) -> (checked: Result<ast::Function<ty::Expression>, Error>)
        requires
            old(self).context.wf(),
            signature_plain(parameter_types(function.parameters@)),
            signature_plain(function.returned@),
            !(old(self).context.fixed().function_typing(old(self).context.locals_model(), scope, function) is Stuck),
        ensures
            final(self).context.wf(),
            final(self).context.fixed() == old(self).context.fixed(),
            match checked {
                Ok(typed) => old(self).context.fixed().function_typing(old(self).context.locals_model(), scope, function)
                    == Outcome::Typed(final(self).context.locals_model()) && typed.name == function.name
                    && typed.span == function.span && typed.parameters@.len() == function.parameters@.len()
                    && typed.provenance == function.provenance && typed.declared == function.declared
                    && old(self).context.fixed().body_checks(old(self).context.locals_model(), scope, function, typed),
                Err(failure) => old(self).context.fixed().function_typing(old(self).context.locals_model(), scope, function)
                    == Outcome::<Locals>::Failed(failure@),
            },
    {
        let ghost fixed = self.context.fixed();
        let ghost locals = self.context.locals_model();
        let ghost original = function;
        let returned_types = self.check_function_like(&function.parameters, &function.returned)?;
        let ghost returned = denotations(returned_types@);
        let results = result_types(&returned_types);
        let is_procedure = returned_types.len() == 0;
        let local = match scope {
            GlobalScope::Class(class) => LocalScope::Method { class, returned: results },
            GlobalScope::Global => LocalScope::Function { returned: results },
        };
        self.enter_scope(local);
        let ast::Function { name, parameters, returned: _, statements, provenance, declared, span } = function;
        let checked_parameters = self.check_parameters(parameters)?;
        let (statements, typ) = self.check_statement(statements)?;
        let diverges = match typ {
            ty::Statement::Void => true,
            ty::Statement::Unit => false,
        };
        if !diverges && !is_procedure {
            return Err(Error::new(span, ErrorKind::MissingReturn));
        }
        self.leave_scope();
        Ok(ast::Function {
            name,
            parameters: checked_parameters,
            returned: returned_types,
            statements,
            provenance,
            declared,
            span,
        })
    }
}

fn result_types(types: &Vec<ast::Type<ty::Expression>>) -> (results: Vec<ty::Expression>)
    requires
        forall|i: int| 0 <= i < types@.len() ==> (#[trigger] types@[i]).denotes() is Some,
    ensures
        models(results@) == denotations(types@),
{
    let mut results: Vec<ty::Expression> = Vec::new();
    let mut index: usize = 0;
    while index < types.len()
        invariant
            index <= types@.len(),
            forall|i: int| 0 <= i < types@.len() ==> (#[trigger] types@[i]).denotes() is Some,
            results@.len() == index,
            forall|i: int| 0 <= i < index ==> (#[trigger] results@[i])@ == types@[i].denotes()->0,
        decreases types@.len() - index,
    {
        results.push(types[index].typ());
        index += 1;
    }
    assert(models(results@) =~= denotations(types@));
    results
}

/// What each of the checked types denotes.
pub open spec fn denotations(types: Seq<ast::Type<ty::Expression>>) -> Seq<Model> {
    types.map_values(|typ: ast::Type<ty::Expression>| typ.denotes()->0)
}

} // verus!

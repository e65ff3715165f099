use vstd::prelude::*;

use crate::collections::KeyMap;
use crate::data::ast;
use crate::data::ast::Identifier;
use crate::data::operand::Label;
use crate::data::span::Span;
use crate::data::symbol::Symbol;
use crate::data::ty;
use crate::data::ty::models;

verus! {

/// What a name is bound to.
#[derive(Debug)]
pub enum Entry {
    Variable(ty::Expression),
    Function(Vec<ty::Expression>, Vec<ty::Expression>),
    Signature(Vec<ty::Expression>, Vec<ty::Expression>),
}

/// The mathematical value of an [`Entry`].
pub enum EntryModel {
    Variable(ty::Model),
    Function(Seq<ty::Model>, Seq<ty::Model>),
    Signature(Seq<ty::Model>, Seq<ty::Model>),
}

impl View for Entry {
    type V = EntryModel;

    open spec fn view(&self) -> EntryModel {
        match self {
            Entry::Variable(typ) => EntryModel::Variable(typ@),
            Entry::Function(parameters, returned) => EntryModel::Function(models(parameters@), models(returned@)),
            Entry::Signature(parameters, returned) => EntryModel::Signature(models(parameters@), models(returned@)),
        }
    }
}

impl Entry {
    pub fn copy(&self) -> (copy: Entry)
        ensures
            copy@ == self@,
    {
        match self {
            Entry::Variable(typ) => Entry::Variable(typ.copy()),
            Entry::Function(parameters, returned) => Entry::Function(ty::copy_all(parameters), ty::copy_all(returned)),
            Entry::Signature(parameters, returned) => Entry::Signature(ty::copy_all(parameters), ty::copy_all(returned)),
        }
    }
}

/// Names that can look up an environment: symbols and identifiers.
pub trait Key {
    spec fn key(&self) -> Symbol;

    fn symbol(&self) -> (symbol: Symbol)
        ensures
            symbol == self.key(),
    ;
}

impl Key for Symbol {
    open spec fn key(&self) -> Symbol {
        *self
    }

    fn symbol(&self) -> (symbol: Symbol) {
        *self
    }
}

impl Key for Identifier {
    open spec fn key(&self) -> Symbol {
        self.symbol
    }

    fn symbol(&self) -> (symbol: Symbol) {
        self.symbol
    }
}

/// An insertion-ordered map from names to `T`, remembering for each name the
/// identifier (and so the span) of its binding occurrence.
#[derive(Debug)]
pub struct Environment<T> {
    entries: KeyMap<Symbol, (Identifier, T)>,
}

impl<T> View for Environment<T> {
    type V = Map<Symbol, (Identifier, T)>;

    closed spec fn view(&self) -> Map<Symbol, (Identifier, T)> {
        self.entries@
    }
}

impl<T> Environment<T> {
    /// Entries have distinct names, and each is stored under its identifier's symbol.
    pub closed spec fn wf(self) -> bool {
        &&& self.entries.wf()
        &&& forall|symbol: Symbol| #[trigger] self.entries@.contains_key(symbol) ==> self.entries@[symbol].0.symbol == symbol
    }

    pub closed spec fn size(self) -> nat {
        self.entries.size()
    }

    /// The identifier and value at a position, in insertion order.
    pub closed spec fn at_spec(self, index: int) -> (Identifier, T) {
        self.entries.value_at_spec(index)
    }

    /// The bound names in insertion order.
    pub closed spec fn order(self) -> Seq<Symbol> {
        self.entries.keys()
    }

    pub proof fn lemma_wf(self)
        requires
            self.wf(),
        ensures
            forall|symbol: Symbol| #[trigger] self@.contains_key(symbol) ==> self@[symbol].0.symbol == symbol,
            self@.dom().finite(),
            self@.dom().len() == self.size(),
            forall|index: int| 0 <= index < self.size() ==> self@.contains_key(#[trigger] self.at_spec(index).0.symbol)
                && self@[self.at_spec(index).0.symbol] == self.at_spec(index),
            forall|symbol: Symbol| self@.contains_key(symbol) ==> exists|index: int|
                0 <= index < self.size() && #[trigger] self.at_spec(index).0.symbol == symbol,
            self.order().len() == self.size(),
            forall|index: int| 0 <= index < self.size() ==> #[trigger] self.order()[index] == self.at_spec(index).0.symbol,
    {
        self.entries.lemma_size();
        self.entries.lemma_entries();
        assert forall|index: int| 0 <= index < self.size() implies #[trigger] self.order()[index] == self.at_spec(
            index,
        ).0.symbol by {
            let key = self.entries.key_at_spec(index);
            assert(self.entries@.contains_key(key@));
        }
        assert forall|index: int| 0 <= index < self.size() implies self@.contains_key(#[trigger] self.at_spec(index).0.symbol)
            && self@[self.at_spec(index).0.symbol] == self.at_spec(index) by {
            let key = self.entries.key_at_spec(index);
            assert(self.entries@.contains_key(key@));
            assert(self.entries@[key@] == self.at_spec(index));
        }
        assert forall|symbol: Symbol| self@.contains_key(symbol) implies exists|index: int|
            0 <= index < self.size() && #[trigger] self.at_spec(index).0.symbol == symbol by {
            let index = choose|index: int| 0 <= index < self.entries.size() && #[trigger] self.entries.key_at_spec(index)@ == symbol;
            assert(self.at_spec(index).0.symbol == symbol);
        }
    }

    pub fn new() -> (environment: Self)
        ensures
            environment.wf(),
            environment@ == Map::<Symbol, (Identifier, T)>::empty(),
    {
        Environment { entries: KeyMap::new() }
    }

    /// The binding occurrence and value of `key`.
    pub fn get<K: Key>(&self, key: &K) -> (found: Option<(&Span, &T)>)
        requires
            self.wf(),
        ensures
            found is Some == self@.contains_key(key.key()),
            found matches Some((span, value)) ==> *span == *self@[key.key()].0.span && *value == self@[key.key()].1,
    {
        let symbol = key.symbol();
        match self.entries.get(&symbol) {
            Some(entry) => Some((&*entry.0.span, &entry.1)),
            None => None,
        }
    }

    /// Bind `identifier` to `entry`, returning the span and value of a binding it replaces.
    pub fn insert(&mut self, identifier: Identifier, entry: T) -> (replaced: Option<(Span, T)>)
        requires
            old(self).wf(),
        ensures
            final(self).wf(),
            final(self)@ == old(self)@.insert(identifier.symbol, (identifier, entry)),
            replaced is Some == old(self)@.contains_key(identifier.symbol),
            replaced matches Some((span, value)) ==> span == *old(self)@[identifier.symbol].0.span
                && value == old(self)@[identifier.symbol].1,
            final(self).order() == if old(self)@.contains_key(identifier.symbol) {
                old(self).order()
            } else {
                old(self).order().push(identifier.symbol)
            },
    {
        let symbol = identifier.symbol;
        match self.entries.replace(symbol, (identifier, entry)) {
            Some((previous, value)) => Some((*previous.span, value)),
            None => None,
        }
    }

    /// Position of the binding of `key`, in insertion order.
    pub fn find<K: Key>(&self, key: &K) -> (index: Option<usize>)
        requires
            self.wf(),
        ensures
            index is Some == self@.contains_key(key.key()),
            index matches Some(index) ==> index < self.size() && self.at_spec(index as int).0.symbol == key.key(),
    {
        let symbol = key.symbol();
        let index = self.entries.find(&symbol);
        proof {
            if let Some(i) = index {
                self.entries.lemma_entries();
                assert(self.entries@.contains_key(symbol));
            }
        }
        index
    }

    /// Replace the value at `index`, keeping its identifier; returns the value it replaced.
    pub fn swap_at(&mut self, index: usize, value: T) -> (previous: T)
        requires
            old(self).wf(),
            index < old(self).size(),
        ensures
            final(self).wf(),
            previous == old(self).at_spec(index as int).1,
            final(self)@ == old(self)@.insert(
                old(self).at_spec(index as int).0.symbol,
                (old(self).at_spec(index as int).0, value),
            ),
            final(self).size() == old(self).size(),
            forall|j: int| 0 <= j < final(self).size() ==> (#[trigger] final(self).at_spec(j)).0 == old(self).at_spec(j).0,
    {
        let ghost before = *self;
        proof {
            before.entries.lemma_entries();
        }
        let identifier = self.entries.value_at(index).0.copy();
        let (_, previous) = self.entries.swap_value_at(index, (identifier, value));
        proof {
            self.entries.lemma_entries();
            assert forall|j: int| 0 <= j < self.size() implies (#[trigger] self.at_spec(j)).0 == before.at_spec(j).0 by {
                assert(self.entries.key_at_spec(j) == before.entries.key_at_spec(j));
                if j == index {
                    assert(self.entries@.contains_key(self.entries.key_at_spec(j)@));
                    assert(self.entries.value_at_spec(j) == self.entries@[self.entries.key_at_spec(j)@]);
                } else {
                    before.entries.lemma_distinct(j, index as int);
                    assert(self.entries@.contains_key(self.entries.key_at_spec(j)@));
                    assert(self.entries.value_at_spec(j) == self.entries@[self.entries.key_at_spec(j)@]);
                    assert(before.entries.value_at_spec(j) == before.entries@[before.entries.key_at_spec(j)@]);
                }
            }
        }
        previous
    }

    pub fn len(&self) -> (len: usize)
        ensures
            len == self.size(),
    {
        self.entries.len()
    }

    /// The identifier and value at a position, in insertion order.
    pub fn at(&self, index: usize) -> (entry: (&Identifier, &T))
        requires
            index < self.size(),
        ensures
            *entry.0 == self.at_spec(index as int).0,
            *entry.1 == self.at_spec(index as int).1,
    {
        let entry = self.entries.value_at(index);
        (&entry.0, &entry.1)
    }
}

/// Where a name is looked up or bound.
#[derive(Copy, Clone, Debug)]
pub enum Scope {
    Global(GlobalScope),
    Local,
}

#[derive(Copy, Clone, Debug)]
pub enum GlobalScope {
    Global,
    Class(Symbol),
}

/// The kinds of nested local scopes, outermost first: a method or function
/// body (with its result types), then blocks, branches and loops.
#[derive(Debug)]
pub enum LocalScope {
    Method { class: Symbol, returned: Vec<ty::Expression> },
    Function { returned: Vec<ty::Expression> },
    Block,
    If,
    Else,
    While(Option<Label>),
}

/// The least upper bound of two types, and which side it came from.
#[derive(Debug)]
pub enum LeastUpperBound {
    Left(ty::Expression),
    Right(ty::Expression),
}

/// The least upper bound of two type models, and which side it came from.
pub enum Bound {
    Left(ty::Model),
    Right(ty::Model),
}

impl LeastUpperBound {
    pub open spec fn bound(self) -> Bound {
        match self {
            LeastUpperBound::Left(typ) => Bound::Left(typ@),
            LeastUpperBound::Right(typ) => Bound::Right(typ@),
        }
    }

    fn array(self) -> (array: Self)
        ensures
            array.bound() == array_bound(self.bound()),
    {
        match self {
            LeastUpperBound::Left(typ) => LeastUpperBound::Left(ty::Expression::Array(Box::new(typ))),
            LeastUpperBound::Right(typ) => LeastUpperBound::Right(ty::Expression::Array(Box::new(typ))),
        }
    }

    /// The bound, whichever side it came from.
    pub fn into_type(self) -> (typ: ty::Expression)
        ensures
            typ@ == match self.bound() {
                Bound::Left(typ) => typ,
                Bound::Right(typ) => typ,
            },
    {
        match self {
            LeastUpperBound::Left(typ) => typ,
            LeastUpperBound::Right(typ) => typ,
        }
    }
}

/// An array of the bound, from the same side.
pub open spec fn array_bound(bound: Bound) -> Bound {
    match bound {
        Bound::Left(typ) => Bound::Left(ty::Model::Array(Box::new(typ))),
        Bound::Right(typ) => Bound::Right(ty::Model::Array(Box::new(typ))),
    }
}

/// Everything the type checker knows of the program: the class hierarchy, the
/// global and class-scoped bindings, the declared and defined classes, the
/// templates, and the stack of local scopes.
#[derive(Debug)]
pub struct Context {
    /// Class hierarchy mapping subtype to supertype
    pub hierarchy: KeyMap<Symbol, Identifier>,
    /// Globally-scoped global variables and functions
    pub globals: Environment<Entry>,
    /// Class-scoped methods and fields
    pub classes: Environment<Environment<Entry>>,
    /// Classes declared in interfaces
    pub class_signatures: Environment<()>,
    /// Classes in the implementation module
    pub class_implementations: Environment<()>,
    /// Class templates visible to the program
    pub class_templates: Environment<ast::ClassTemplate>,
    /// Function templates visible to the program
    pub function_templates: Environment<ast::FunctionTemplate>,
    /// Locally scoped variables, outermost first
    pub locals: Vec<(LocalScope, Environment<Entry>)>,
}

impl Context {
    pub open spec fn wf(self) -> bool {
        &&& self.hierarchy.wf()
        &&& self.globals.wf()
        &&& self.classes.wf()
        &&& forall|class: Symbol| #[trigger] self.classes@.contains_key(class) ==> self.classes@[class].1.wf()
        &&& self.class_signatures.wf()
        &&& self.class_implementations.wf()
        &&& self.class_templates.wf()
        &&& self.function_templates.wf()
        &&& forall|i: int| 0 <= i < self.locals@.len() ==> (#[trigger] self.locals@[i]).1.wf()
    }

}

/// The parts of a [`Context`] that checking a function body reads but does not change.
pub struct Fixed {
    pub hierarchy: Map<Symbol, Identifier>,
    /// How many links of the hierarchy a walk up from a class follows at most.
    pub bound: nat,
    pub globals: Map<Symbol, (Identifier, Entry)>,
    pub classes: Map<Symbol, (Identifier, Environment<Entry>)>,
    pub class_implementations: Map<Symbol, (Identifier, ())>,
}

impl Context {
    pub open spec fn fixed(self) -> Fixed {
        Fixed {
            hierarchy: self.hierarchy@,
            bound: self.hierarchy.size(),
            globals: self.globals@,
            classes: self.classes@,
            class_implementations: self.class_implementations@,
        }
    }
}

impl Fixed {
    /// The direct superclass of `class`.
    pub open spec fn parent(self, class: Symbol) -> Option<Symbol> {
        if self.hierarchy.contains_key(class) {
            Some(self.hierarchy[class].symbol)
        } else {
            None
        }
    }

    /// The superclasses of `class`, nearest first, following at most `steps` links.
    pub open spec fn walk(self, class: Symbol, steps: nat) -> Seq<Symbol>
        decreases steps,
    {
        if steps == 0 {
            Seq::empty()
        } else {
            let before = self.walk(class, (steps - 1) as nat);
            let current = if before.len() == 0 { class } else { before.last() };
            if before.len() == steps - 1 && self.parent(current) is Some {
                before.push(self.parent(current)->0)
            } else {
                before
            }
        }
    }

    /// The superclasses of `class`, nearest first. In a hierarchy without
    /// cycles this is the whole chain; each link is followed at most once per
    /// entry of the hierarchy.
    pub open spec fn ancestors(self, class: Symbol) -> Seq<Symbol> {
        self.walk(class, self.bound)
    }

    /// `subtype` is `supertype` or one of its descendants.
    pub open spec fn spec_is_class_subtype(self, subtype: Symbol, supertype: Symbol) -> bool {
        subtype == supertype || self.ancestors(subtype).contains(supertype)
    }

    pub open spec fn spec_is_subtype_array(self, subtype: ty::Model, supertype: ty::Model) -> bool
        decreases subtype,
    {
        match (subtype, supertype) {
            (ty::Model::Any, _) => true,
            (ty::Model::Null, ty::Model::Class(_)) => true,
            (ty::Model::Array(sub), ty::Model::Array(sup)) => self.spec_is_subtype_array(*sub, *sup),
            _ => subtype == supertype,
        }
    }

    /// Subtyping: `any` below everything, `null` below classes, arrays by their
    /// element types (invariantly for classes), classes by the hierarchy.
    pub open spec fn spec_is_subtype(self, subtype: ty::Model, supertype: ty::Model) -> bool {
        match (subtype, supertype) {
            (ty::Model::Any, _) => true,
            (ty::Model::Null, ty::Model::Class(_)) => true,
            (ty::Model::Array(sub), ty::Model::Array(sup)) => self.spec_is_subtype_array(*sub, *sup),
            (ty::Model::Class(sub), ty::Model::Class(sup)) => self.spec_is_class_subtype(sub, sup),
            _ => subtype == supertype,
        }
    }

    pub open spec fn spec_all_subtype(self, subtypes: Seq<ty::Model>, supertypes: Seq<ty::Model>) -> bool {
        subtypes.len() == supertypes.len() && forall|i: int|
            0 <= i < subtypes.len() ==> self.spec_is_subtype(#[trigger] subtypes[i], supertypes[i])
    }

    pub open spec fn spec_least_upper_bound(self, left: ty::Model, right: ty::Model) -> Option<Bound>
        decreases left,
    {
        match (left, right) {
            (_, ty::Model::Any) => Some(Bound::Left(left)),
            (ty::Model::Any, _) => Some(Bound::Right(right)),
            (ty::Model::Class(_), ty::Model::Null) => Some(Bound::Left(left)),
            (ty::Model::Null, ty::Model::Class(_)) => Some(Bound::Right(right)),
            (ty::Model::Array(l), ty::Model::Array(r)) => match self.spec_least_upper_bound_array(*l, *r) {
                Some(bound) => Some(array_bound(bound)),
                None => None,
            },
            (ty::Model::Class(_), ty::Model::Class(_)) => if self.spec_is_subtype(right, left) {
                Some(Bound::Left(left))
            } else if self.spec_is_subtype(left, right) {
                Some(Bound::Right(right))
            } else {
                None
            },
            _ => if left == right {
                Some(Bound::Left(left))
            } else {
                None
            },
        }
    }

    pub open spec fn spec_least_upper_bound_array(self, left: ty::Model, right: ty::Model) -> Option<Bound>
        decreases left,
    {
        match (left, right) {
            (_, ty::Model::Any) => Some(Bound::Left(left)),
            (ty::Model::Any, _) => Some(Bound::Right(right)),
            (ty::Model::Class(_), ty::Model::Null) => Some(Bound::Left(left)),
            (ty::Model::Null, ty::Model::Class(_)) => Some(Bound::Right(right)),
            (ty::Model::Array(l), ty::Model::Array(r)) => match self.spec_least_upper_bound(*l, *r) {
                Some(bound) => Some(array_bound(bound)),
                None => None,
            },
            _ => if left == right {
                Some(Bound::Left(left))
            } else {
                None
            },
        }
    }

    /// The binding of `symbol` in the first class of `chain` that has one.
    pub open spec fn lookup_chain(self, chain: Seq<Symbol>, symbol: Symbol) -> Option<(Identifier, EntryModel)>
        decreases chain.len(),
    {
        if chain.len() == 0 {
            None
        } else if self.classes[chain[0]].1@.contains_key(symbol) {
            Some((self.classes[chain[0]].1@[symbol].0, self.classes[chain[0]].1@[symbol].1@))
        } else {
            self.lookup_chain(chain.drop_first(), symbol)
        }
    }

    /// Every class of `chain` up to the first that binds `symbol` has an environment.
    pub open spec fn chain_known(self, chain: Seq<Symbol>, symbol: Symbol) -> bool
        decreases chain.len(),
    {
        chain.len() == 0 || (self.classes.contains_key(chain[0]) && (self.classes[chain[0]].1@.contains_key(symbol)
            || self.chain_known(chain.drop_first(), symbol)))
    }

    /// A lookup of `symbol` in `scope`, with the local scopes `locals`, can be carried out.
    pub open spec fn lookup_defined(self, locals: Locals, scope: Scope, symbol: Symbol) -> bool {
        match scope {
            Scope::Global(GlobalScope::Global) => true,
            Scope::Global(GlobalScope::Class(class)) => self.chain_known(seq![class] + self.ancestors(class), symbol),
            Scope::Local => lookup_locals(locals, symbol) is Some || self.globals.contains_key(symbol) || (
            scoped(locals) && match scoped_class(locals) {
                Some(class) => self.chain_known(seq![class] + self.ancestors(class), symbol),
                None => true,
            }),
        }
    }

    /// The binding of `symbol` visible in `scope`, with the local scopes
    /// `locals`: for a class, in it or its nearest superclass that binds it;
    /// locally, the innermost local scope, then the globals, then the
    /// enclosing class.
    pub open spec fn lookup(self, locals: Locals, scope: Scope, symbol: Symbol) -> Option<(Identifier, EntryModel)> {
        match scope {
            Scope::Global(GlobalScope::Global) => match self.globals.get(symbol) {
                Some(found) => Some((found.0, found.1@)),
                None => None,
            },
            Scope::Global(GlobalScope::Class(class)) => self.lookup_chain(seq![class] + self.ancestors(class), symbol),
            Scope::Local => match lookup_locals(locals, symbol) {
                Some(found) => Some(found),
                None => match self.globals.get(symbol) {
                    Some(found) => Some((found.0, found.1@)),
                    None => match scoped_class(locals) {
                        Some(class) => self.lookup_chain(seq![class] + self.ancestors(class), symbol),
                        None => None,
                    },
                },
            },
        }
    }

}

/// Once the walk from `class` stops short, taking more steps changes nothing.
proof fn lemma_walk_stops(context: Fixed, class: Symbol, stop: nat, steps: nat)
    requires
        stop <= steps,
        context.walk(class, stop).len() == stop,
        context.parent(if stop == 0 { class } else { context.walk(class, stop).last() }) is None,
    ensures
        context.walk(class, steps) == context.walk(class, stop),
    decreases steps,
{
    if steps > stop {
        lemma_walk_stops(context, class, stop, (steps - 1) as nat);
        lemma_walk_short(context, class, (steps - 1) as nat);
    }
}

proof fn lemma_walk_short(context: Fixed, class: Symbol, steps: nat)
    ensures
        context.walk(class, steps).len() <= steps,
    decreases steps,
{
    if steps > 0 {
        lemma_walk_short(context, class, (steps - 1) as nat);
    }
}

impl Context {
    /// Nothing is known: no classes, bindings, templates or local scopes.
    pub open spec fn is_empty(self) -> bool {
        &&& self.hierarchy@ == Map::<Symbol, Identifier>::empty()
        &&& self.globals@ == Map::<Symbol, (Identifier, Entry)>::empty()
        &&& self.classes@ == Map::<Symbol, (Identifier, Environment<Entry>)>::empty()
        &&& self.class_signatures@ == Map::<Symbol, (Identifier, ())>::empty()
        &&& self.class_implementations@ == Map::<Symbol, (Identifier, ())>::empty()
        &&& self.class_templates@ == Map::<Symbol, (Identifier, ast::ClassTemplate)>::empty()
        &&& self.function_templates@ == Map::<Symbol, (Identifier, ast::FunctionTemplate)>::empty()
        &&& self.locals@.len() == 0
    }

    pub fn new() -> (context: Self)
        ensures
            context.wf(),
            context.is_empty(),
    {
        Context {
            hierarchy: KeyMap::new(),
            globals: Environment::new(),
            classes: Environment::new(),
            class_signatures: Environment::new(),
            class_implementations: Environment::new(),
            class_templates: Environment::new(),
            function_templates: Environment::new(),
            locals: Vec::new(),
        }
    }

    /// The superclasses of `class`, nearest first.
    pub fn ancestors_exclusive(&self, class: &Symbol) -> (ancestors: Vec<Symbol>)
        requires
            self.hierarchy.wf(),
        ensures
            ancestors@ == self.fixed().ancestors(*class),
    {
        let bound = self.hierarchy.len();
        let mut ancestors: Vec<Symbol> = Vec::new();
        let mut current = *class;
        let mut steps: usize = 0;
        while steps < bound
            invariant
                self.hierarchy.wf(),
                steps <= bound == self.hierarchy.size(),
                ancestors@ == self.fixed().walk(*class, steps as nat),
                ancestors@.len() == steps,
                current == if steps == 0 { *class } else { ancestors@.last() },
            decreases bound - steps,
        {
            match self.hierarchy.get(&current) {
                Some(parent) => {
                    ancestors.push(parent.symbol);
                    current = parent.symbol;
                    steps += 1;
                },
                None => {
                    proof {
                        lemma_walk_stops(self.fixed(), *class, steps as nat, bound as nat);
                    }
                    return ancestors;
                },
            }
        }
        ancestors
    }

    /// `class`, then its superclasses, nearest first.
    pub fn ancestors_inclusive(&self, class: &Symbol) -> (ancestors: Vec<Symbol>)
        requires
            self.hierarchy.wf(),
        ensures
            ancestors@ == seq![*class] + self.fixed().ancestors(*class),
    {
        let mut ancestors: Vec<Symbol> = Vec::new();
        ancestors.push(*class);
        let mut rest = self.ancestors_exclusive(class);
        ancestors.append(&mut rest);
        ancestors
    }

    pub fn get_superclass(&self, class: &Symbol) -> (superclass: Option<Symbol>)
        requires
            self.hierarchy.wf(),
        ensures
            superclass == self.fixed().parent(*class),
    {
        match self.hierarchy.get(class) {
            Some(identifier) => Some(identifier.symbol),
            None => None,
        }
    }

    /// Whether `subtype` is among its own superclasses.
    pub fn has_cycle(&self, subtype: &Identifier) -> (cycle: bool)
        requires
            self.hierarchy.wf(),
        ensures
            cycle == self.fixed().ancestors(subtype.symbol).contains(subtype.symbol),
    {
        let ancestors = self.ancestors_exclusive(&subtype.symbol);
        contains_symbol(&ancestors, subtype.symbol)
    }

    /// Record `supertype` as the superclass of `subtype`; returns the superclass
    /// it replaces, if that was a different class.
    pub fn insert_supertype(&mut self, subtype: Identifier, supertype: Identifier) -> (conflict: Option<Identifier>)
        requires
            old(self).hierarchy.wf(),
        ensures
            final(self).hierarchy.wf(),
            final(self).hierarchy@ == old(self).hierarchy@.insert(subtype.symbol, supertype),
            final(self).globals == old(self).globals,
            final(self).classes == old(self).classes,
            final(self).class_signatures == old(self).class_signatures,
            final(self).class_implementations == old(self).class_implementations,
            final(self).class_templates == old(self).class_templates,
            final(self).function_templates == old(self).function_templates,
            final(self).locals == old(self).locals,
            conflict == match old(self).hierarchy@.get(subtype.symbol) {
                Some(previous) => if previous.symbol != supertype.symbol { Some(previous) } else { None },
                None => None,
            },
    {
        let expected = supertype.symbol;
        match self.hierarchy.replace(subtype.symbol, supertype) {
            Some(actual) => if actual.symbol.0 != expected.0 {
                Some(actual)
            } else {
                None
            },
            None => None,
        }
    }

    pub fn is_subtype(&self, subtype: &ty::Expression, supertype: &ty::Expression) -> (is: bool)
        requires
            self.hierarchy.wf(),
        ensures
            is == self.fixed().spec_is_subtype(subtype@, supertype@),
    {
        match (subtype, supertype) {
            (ty::Expression::Any, _) | (ty::Expression::Null, ty::Expression::Class(_)) => true,
            (ty::Expression::Array(sub), ty::Expression::Array(sup)) => self.is_subtype_array(sub, sup),
            (ty::Expression::Class(sub), ty::Expression::Class(sup)) => {
                if sub.0 == sup.0 {
                    true
                } else {
                    let ancestors = self.ancestors_exclusive(sub);
                    contains_symbol(&ancestors, *sup)
                }
            },
            _ => {
                proof {
                    if subtype is Function {
                        subtype.lemma_function_model();
                    }
                    if supertype is Function {
                        supertype.lemma_function_model();
                    }
                }
                subtype.equals(supertype)
            },
        }
    }

    fn is_subtype_array(&self, subtype: &ty::Expression, supertype: &ty::Expression) -> (is: bool)
        ensures
            is == self.fixed().spec_is_subtype_array(subtype@, supertype@),
        decreases subtype,
    {
        match (subtype, supertype) {
            (ty::Expression::Any, _) | (ty::Expression::Null, ty::Expression::Class(_)) => true,
            (ty::Expression::Array(sub), ty::Expression::Array(sup)) => self.is_subtype_array(sub, sup),
            _ => {
                proof {
                    if subtype is Function {
                        subtype.lemma_function_model();
                    }
                    if supertype is Function {
                        supertype.lemma_function_model();
                    }
                }
                subtype.equals(supertype)
            },
        }
    }

    /// Both lists have the same length, and each subtype is below the supertype at its position.
    pub fn all_subtype(&self, subtypes: &Vec<ty::Expression>, supertypes: &Vec<ty::Expression>) -> (all: bool)
        requires
            self.hierarchy.wf(),
        ensures
            all == self.fixed().spec_all_subtype(models(subtypes@), models(supertypes@)),
    {
        if subtypes.len() != supertypes.len() {
            assert(models(subtypes@).len() != models(supertypes@).len());
            return false;
        }
        let mut index: usize = 0;
        while index < subtypes.len()
            invariant
                self.hierarchy.wf(),
                subtypes@.len() == supertypes@.len(),
                index <= subtypes@.len(),
                forall|i: int| 0 <= i < index ==> self.fixed().spec_is_subtype(#[trigger] models(subtypes@)[i], models(supertypes@)[i]),
            decreases subtypes@.len() - index,
        {
            if !self.is_subtype(&subtypes[index], &supertypes[index]) {
                assert(!self.fixed().spec_is_subtype(models(subtypes@)[index as int], models(supertypes@)[index as int]));
                return false;
            }
            index += 1;
        }
        true
    }

    pub fn least_upper_bound(&self, left: &ty::Expression, right: &ty::Expression) -> (bound: Option<LeastUpperBound>)
        requires
            self.hierarchy.wf(),
        ensures
            match bound {
                Some(bound) => self.fixed().spec_least_upper_bound(left@, right@) == Some(bound.bound()),
                None => self.fixed().spec_least_upper_bound(left@, right@) is None,
            },
        decreases left,
    {
        match (left, right) {
            (typ, ty::Expression::Any) => Some(LeastUpperBound::Left(typ.copy())),
            (ty::Expression::Any, typ) => Some(LeastUpperBound::Right(typ.copy())),
            (ty::Expression::Class(_), ty::Expression::Null) => Some(LeastUpperBound::Left(left.copy())),
            (ty::Expression::Null, ty::Expression::Class(_)) => Some(LeastUpperBound::Right(right.copy())),
            (ty::Expression::Array(l), ty::Expression::Array(r)) => match self.least_upper_bound_array(l, r) {
                Some(bound) => Some(bound.array()),
                None => None,
            },
            (ty::Expression::Class(_), ty::Expression::Class(_)) => {
                if self.is_subtype(right, left) {
                    Some(LeastUpperBound::Left(left.copy()))
                } else if self.is_subtype(left, right) {
                    Some(LeastUpperBound::Right(right.copy()))
                } else {
                    None
                }
            },
            _ => {
                proof {
                    if left is Function {
                        left.lemma_function_model();
                    }
                    if right is Function {
                        right.lemma_function_model();
                    }
                }
                if left.equals(right) {
                    Some(LeastUpperBound::Left(left.copy()))
                } else {
                    None
                }
            },
        }
    }

    fn least_upper_bound_array(&self, left: &ty::Expression, right: &ty::Expression) -> (bound: Option<LeastUpperBound>)
        requires
            self.hierarchy.wf(),
        ensures
            match bound {
                Some(bound) => self.fixed().spec_least_upper_bound_array(left@, right@) == Some(bound.bound()),
                None => self.fixed().spec_least_upper_bound_array(left@, right@) is None,
            },
        decreases left,
    {
        match (left, right) {
            (typ, ty::Expression::Any) => Some(LeastUpperBound::Left(typ.copy())),
            (ty::Expression::Any, typ) => Some(LeastUpperBound::Right(typ.copy())),
            (ty::Expression::Class(_), ty::Expression::Null) => Some(LeastUpperBound::Left(left.copy())),
            (ty::Expression::Null, ty::Expression::Class(_)) => Some(LeastUpperBound::Right(right.copy())),
            (ty::Expression::Array(l), ty::Expression::Array(r)) => match self.least_upper_bound(l, r) {
                Some(bound) => Some(bound.array()),
                None => None,
            },
            _ => {
                proof {
                    if left is Function {
                        left.lemma_function_model();
                    }
                    if right is Function {
                        right.lemma_function_model();
                    }
                }
                if left.equals(right) {
                    Some(LeastUpperBound::Left(left.copy()))
                } else {
                    None
                }
            },
        }
    }
}

/// Whether `symbol` occurs in `symbols`.
pub fn contains_symbol(symbols: &Vec<Symbol>, symbol: Symbol) -> (contains: bool)
    ensures
        contains == symbols@.contains(symbol),
{
    let mut index: usize = 0;
    while index < symbols.len()
        invariant
            index <= symbols@.len(),
            forall|i: int| 0 <= i < index ==> symbols@[i] != symbol,
        decreases symbols@.len() - index,
    {
        if symbols[index].0 == symbol.0 {
            assert(symbols@[index as int] == symbol);
            return true;
        }
        index += 1;
    }
    false
}

/// The mathematical value of a [`LocalScope`].
pub enum ScopeModel {
    Method { class: Symbol, returned: Seq<ty::Model> },
    Function { returned: Seq<ty::Model> },
    Block,
    If,
    Else,
    While(Option<Label>),
}

impl View for LocalScope {
    type V = ScopeModel;

    open spec fn view(&self) -> ScopeModel {
        match self {
            LocalScope::Method { class, returned } => ScopeModel::Method { class: *class, returned: models(returned@) },
            LocalScope::Function { returned } => ScopeModel::Function { returned: models(returned@) },
            LocalScope::Block => ScopeModel::Block,
            LocalScope::If => ScopeModel::If,
            LocalScope::Else => ScopeModel::Else,
            LocalScope::While(label) => ScopeModel::While(*label),
        }
    }
}

/// The bindings of an environment of entries, by their models.
pub open spec fn bindings(environment: Map<Symbol, (Identifier, Entry)>) -> Map<Symbol, (Identifier, EntryModel)> {
    environment.map_values(|binding: (Identifier, Entry)| (binding.0, binding.1@))
}

/// The local scopes, outermost first, by their models.
pub type Locals = Seq<(ScopeModel, Map<Symbol, (Identifier, EntryModel)>)>;

/// The innermost binding of `symbol` among the local scopes.
pub open spec fn lookup_locals(locals: Locals, symbol: Symbol) -> Option<(Identifier, EntryModel)>
    decreases locals.len(),
{
    if locals.len() == 0 {
        None
    } else if locals.last().1.contains_key(symbol) {
        Some(locals.last().1[symbol])
    } else {
        lookup_locals(locals.drop_last(), symbol)
    }
}

/// The innermost while loop among the local scopes, by its label.
pub open spec fn innermost_while(locals: Locals) -> Option<Option<Label>>
    decreases locals.len(),
{
    if locals.len() == 0 {
        None
    } else if let ScopeModel::While(label) = locals.last().0 {
        Some(label)
    } else {
        innermost_while(locals.drop_last())
    }
}

/// The class whose method is being checked, if any.
pub open spec fn scoped_class(locals: Locals) -> Option<Symbol> {
    if locals.len() == 0 {
        None
    } else {
        match locals[0].0 {
            ScopeModel::Method { class, .. } => Some(class),
            _ => None,
        }
    }
}

/// The result types of the method or function being checked, if any.
pub open spec fn scoped_returns(locals: Locals) -> Option<Seq<ty::Model>> {
    if locals.len() == 0 {
        None
    } else {
        match locals[0].0 {
            ScopeModel::Method { returned, .. } => Some(returned),
            ScopeModel::Function { returned } => Some(returned),
            _ => None,
        }
    }
}

/// The outermost local scope, if any, is a method or function body.
pub open spec fn scoped(locals: Locals) -> bool {
    locals.len() == 0 || locals[0].0 is Method || locals[0].0 is Function
}

impl Context {
    /// The local scopes by their models.
    pub open spec fn locals_model(self) -> Locals {
        self.locals@.map_values(|local: (LocalScope, Environment<Entry>)| (local.0@, bindings(local.1@)))
    }

    fn get_in_chain<K: Key>(&self, chain: &Vec<Symbol>, key: &K) -> (found: Option<(&Span, &Entry)>)
        requires
            self.wf(),
            self.fixed().chain_known(chain@, key.key()),
        ensures
            found is Some == self.fixed().lookup_chain(chain@, key.key()) is Some,
            found matches Some((span, entry)) ==> *span == *self.fixed().lookup_chain(chain@, key.key()).unwrap().0.span
                && entry@ == self.fixed().lookup_chain(chain@, key.key()).unwrap().1,
    {
        let ghost symbol = key.key();
        let mut index: usize = 0;
        assert(chain@.skip(0) =~= chain@);
        while index < chain.len()
            invariant
                self.wf(),
                symbol == key.key(),
                index <= chain@.len(),
                self.fixed().chain_known(chain@.skip(index as int), symbol),
                self.fixed().lookup_chain(chain@.skip(index as int), symbol) == self.fixed().lookup_chain(chain@, symbol),
            decreases chain@.len() - index,
        {
            let ghost rest = chain@.skip(index as int);
            assert(rest[0] == chain@[index as int]);
            assert(rest.drop_first() =~= chain@.skip(index + 1));
            let class = match self.classes.get(&chain[index]) {
                Some((_, class)) => class,
                None => {
                    assert(false);
                    return None;
                },
            };
            match class.get(key) {
                Some(found) => {
                    assert(self.fixed().lookup_chain(rest, symbol) == Some((self.classes@[rest[0]].1@[symbol].0, self.classes@[rest[0]].1@[symbol].1@)));
                    return Some(found);
                },
                None => {},
            }
            index += 1;
        }
        assert(chain@.skip(index as int) =~= Seq::<Symbol>::empty());
        None
    }

    pub fn get_full<K: Key>(&self, scope: Scope, key: &K) -> (found: Option<(&Span, &Entry)>)
        requires
            self.wf(),
            self.fixed().lookup_defined(self.locals_model(), scope, key.key()),
        ensures
            found is Some == self.fixed().lookup(self.locals_model(), scope, key.key()) is Some,
            found matches Some((span, entry)) ==> *span == *self.fixed().lookup(self.locals_model(), scope, key.key()).unwrap().0.span
                && entry@ == self.fixed().lookup(self.locals_model(), scope, key.key()).unwrap().1,
    {
        match scope {
            Scope::Global(GlobalScope::Global) => self.globals.get(key),
            Scope::Global(GlobalScope::Class(class)) => {
                let chain = self.ancestors_inclusive(&class);
                self.get_in_chain(&chain, key)
            },
            Scope::Local => {
                let ghost symbol = key.key();
                let mut index: usize = self.locals.len();
                assert(self.locals_model().take(index as int) =~= self.locals_model());
                while index > 0
                    invariant
                        self.wf(),
                        scope is Local,
                        symbol == key.key(),
                        index <= self.locals@.len(),
                        lookup_locals(self.locals_model().take(index as int), symbol) == lookup_locals(self.locals_model(), symbol),
                    decreases index,
                {
                    let ghost prefix = self.locals_model().take(index as int);
                    assert(prefix.drop_last() =~= self.locals_model().take(index - 1));
                    assert(prefix.last() == (self.locals@[index - 1].0@, bindings(self.locals@[index - 1].1@)));
                    match self.locals[index - 1].1.get(key) {
                        Some(found) => {
                            assert(lookup_locals(prefix, symbol) == Some(prefix.last().1[symbol]));
                            return Some(found);
                        },
                        None => {},
                    }
                    index -= 1;
                }
                assert(lookup_locals(self.locals_model().take(0), symbol) is None);
                match self.globals.get(key) {
                    Some(found) => return Some(found),
                    None => {},
                }
                match self.get_scoped_class() {
                    Some(class) => {
                        let chain = self.ancestors_inclusive(&class);
                        self.get_in_chain(&chain, key)
                    },
                    None => None,
                }
            },
        }
    }

    pub fn get<K: Key>(&self, scope: Scope, key: &K) -> (found: Option<&Entry>)
        requires
            self.wf(),
            self.fixed().lookup_defined(self.locals_model(), scope, key.key()),
        ensures
            found is Some == self.fixed().lookup(self.locals_model(), scope, key.key()) is Some,
            found matches Some(entry) ==> entry@ == self.fixed().lookup(self.locals_model(), scope, key.key()).unwrap().1,
    {
        match self.get_full(scope, key) {
            Some((_, entry)) => Some(entry),
            None => None,
        }
    }

    /// The class whose method is being checked, if any.
    pub fn get_scoped_class(&self) -> (class: Option<Symbol>)
        requires
            scoped(self.locals_model()),
        ensures
            class == scoped_class(self.locals_model()),
    {
        if self.locals.len() == 0 {
            return None;
        }
        match &self.locals[0].0 {
            LocalScope::Method { class, .. } => Some(*class),
            _ => None,
        }
    }

    /// The result types of the enclosing method or function.
    pub fn get_scoped_returns(&self) -> (returned: Option<&Vec<ty::Expression>>)
        requires
            scoped(self.locals_model()),
        ensures
            returned is Some == scoped_returns(self.locals_model()) is Some,
            returned matches Some(returned) ==> models(returned@) == scoped_returns(self.locals_model())->0,
    {
        if self.locals.len() == 0 {
            return None;
        }
        match &self.locals[0].0 {
            LocalScope::Method { returned, .. } => Some(returned),
            LocalScope::Function { returned } => Some(returned),
            _ => None,
        }
    }

    /// The label of the innermost enclosing while loop, if there is one.
    pub fn get_scoped_while(&self) -> (label: Option<Option<Label>>)
        ensures
            label == innermost_while(self.locals_model()),
    {
        let mut index: usize = self.locals.len();
        assert(self.locals_model().take(index as int) =~= self.locals_model());
        while index > 0
            invariant
                index <= self.locals@.len(),
                innermost_while(self.locals_model().take(index as int)) == innermost_while(self.locals_model()),
            decreases index,
        {
            let ghost prefix = self.locals_model().take(index as int);
            assert(prefix.drop_last() =~= self.locals_model().take(index - 1));
            assert(prefix.last() == (self.locals@[index - 1].0@, bindings(self.locals@[index - 1].1@)));
            match &self.locals[index - 1].0 {
                LocalScope::While(label) => return Some(*label),
                _ => {},
            }
            index -= 1;
        }
        assert(self.locals_model().take(0) =~= Seq::<(ScopeModel, Map<Symbol, (Identifier, EntryModel)>)>::empty());
        None
    }

    /// Enter a new local scope.
    pub fn push(&mut self, scope: LocalScope)
        requires
            old(self).wf(),
        ensures
            final(self).wf(),
            final(self).locals@ == old(self).locals@.push((scope, final(self).locals@.last().1)),
            final(self).locals@.last().1@ == Map::<Symbol, (Identifier, Entry)>::empty(),
            final(self).hierarchy == old(self).hierarchy,
            final(self).globals == old(self).globals,
            final(self).classes == old(self).classes,
            final(self).class_signatures == old(self).class_signatures,
            final(self).class_implementations == old(self).class_implementations,
            final(self).class_templates == old(self).class_templates,
            final(self).function_templates == old(self).function_templates,
    {
        self.locals.push((scope, Environment::new()));
    }

    /// Leave the innermost local scope.
    pub fn pop(&mut self)
        requires
            old(self).wf(),
        ensures
            final(self).wf(),
            final(self).locals@ == if old(self).locals@.len() == 0 {
                old(self).locals@
            } else {
                old(self).locals@.drop_last()
            },
            final(self).hierarchy == old(self).hierarchy,
            final(self).globals == old(self).globals,
            final(self).classes == old(self).classes,
            final(self).class_signatures == old(self).class_signatures,
            final(self).class_implementations == old(self).class_implementations,
            final(self).class_templates == old(self).class_templates,
            final(self).function_templates == old(self).function_templates,
    {
        self.locals.pop();
    }
}

impl Context {
    /// What a local binding of `symbol` shadows in the enclosing local scopes.
    pub open spec fn shadowed(self, symbol: Symbol) -> Option<(Span, EntryModel)> {
        match lookup_locals(self.locals_model().drop_last(), symbol) {
            Some((identifier, entry)) => Some((*identifier.span, entry)),
            None => None,
        }
    }

    /// Bind `identifier` to `entry` in `scope`. Returns the span and entry of the
    /// binding it replaces in that scope or, locally, of one it shadows.
    pub fn insert(&mut self, scope: Scope, identifier: Identifier, entry: Entry) -> (replaced: Option<(Span, Entry)>)
        requires
            old(self).wf(),
            match scope {
                Scope::Global(GlobalScope::Class(class)) => old(self).classes@.contains_key(class),
                Scope::Local => old(self).locals@.len() > 0,
                _ => true,
            },
        ensures
            final(self).wf(),
            final(self).hierarchy == old(self).hierarchy,
            final(self).class_signatures == old(self).class_signatures,
            final(self).class_implementations == old(self).class_implementations,
            final(self).class_templates == old(self).class_templates,
            final(self).function_templates == old(self).function_templates,
            match scope {
                Scope::Global(GlobalScope::Global) => {
                    &&& final(self).globals@ == old(self).globals@.insert(identifier.symbol, (identifier, entry))
                    &&& final(self).globals.order() == if old(self).globals@.contains_key(identifier.symbol) {
                        old(self).globals.order()
                    } else {
                        old(self).globals.order().push(identifier.symbol)
                    }
                    &&& final(self).classes == old(self).classes
                    &&& final(self).locals == old(self).locals
                    &&& replaced is Some == old(self).globals@.contains_key(identifier.symbol)
                    &&& replaced matches Some((span, previous)) ==> span == *old(self).globals@[identifier.symbol].0.span
                        && previous == old(self).globals@[identifier.symbol].1
                },
                Scope::Global(GlobalScope::Class(class)) => {
                    let members = old(self).classes@[class].1@;
                    &&& final(self).globals == old(self).globals
                    &&& final(self).locals == old(self).locals
                    &&& final(self).classes@.dom() == old(self).classes@.dom()
                    &&& final(self).classes@[class].0 == old(self).classes@[class].0
                    &&& final(self).classes@[class].1@ == members.insert(identifier.symbol, (identifier, entry))
                    &&& final(self).classes@[class].1.order() == if members.contains_key(identifier.symbol) {
                        old(self).classes@[class].1.order()
                    } else {
                        old(self).classes@[class].1.order().push(identifier.symbol)
                    }
                    &&& forall|other: Symbol| other != class ==> #[trigger] final(self).classes@.get(other) == old(self).classes@.get(other)
                    &&& replaced is Some == members.contains_key(identifier.symbol)
                    &&& replaced matches Some((span, previous)) ==> span == *members[identifier.symbol].0.span
                        && previous == members[identifier.symbol].1
                },
                Scope::Local => {
                    let innermost = old(self).locals@.last().1@;
                    &&& final(self).globals == old(self).globals
                    &&& final(self).classes == old(self).classes
                    &&& final(self).locals@.len() == old(self).locals@.len()
                    &&& final(self).locals@.drop_last() == old(self).locals@.drop_last()
                    &&& final(self).locals@.last().0 == old(self).locals@.last().0
                    &&& final(self).locals@.last().1@ == innermost.insert(identifier.symbol, (identifier, entry))
                    &&& final(self).locals@.last().1.order() == if innermost.contains_key(identifier.symbol) {
                        old(self).locals@.last().1.order()
                    } else {
                        old(self).locals@.last().1.order().push(identifier.symbol)
                    }
                    &&& match replaced {
                        Some((span, previous)) => if innermost.contains_key(identifier.symbol) {
                            span == *innermost[identifier.symbol].0.span && previous == innermost[identifier.symbol].1
                        } else {
                            old(self).shadowed(identifier.symbol) == Some((span, previous@))
                        },
                        None => !innermost.contains_key(identifier.symbol) && old(self).shadowed(identifier.symbol) is None,
                    }
                },
            },
    {
        match scope {
            Scope::Global(GlobalScope::Global) => self.globals.insert(identifier, entry),
            Scope::Global(GlobalScope::Class(class)) => {
                let ghost before = self.classes;
                let index = match self.classes.find(&class) {
                    Some(index) => index,
                    None => {
                        assert(false);
                        return None;
                    },
                };
                proof {
                    before.lemma_wf();
                }
                let mut members = self.classes.swap_at(index, Environment::new());
                let replaced = members.insert(identifier, entry);
                self.classes.swap_at(index, members);
                proof {
                    self.classes.lemma_wf();
                    assert(self.classes@.dom() =~= before@.dom());
                }
                replaced
            },
            Scope::Local => {
                let ghost before = self.locals@;
                let ghost before_model = self.locals_model();
                let symbol = identifier.symbol;
                let last = self.locals.len() - 1;
                let (kind, mut innermost) = self.locals.remove(last);
                let replaced = innermost.insert(identifier, entry);
                self.locals.push((kind, innermost));
                proof {
                    assert(self.locals@.drop_last() =~= before.drop_last());
                    assert(self.locals_model().drop_last() =~= before_model.drop_last());
                    assert forall|i: int| 0 <= i < self.locals@.len() implies (#[trigger] self.locals@[i]).1.wf() by {
                        if i < last {
                            assert(self.locals@[i] == before[i]);
                        }
                    }
                }
                match replaced {
                    Some(replaced) => Some(replaced),
                    None => self.get_shadowed(&symbol),
                }
            },
        }
    }

    fn get_shadowed(&self, symbol: &Symbol) -> (shadowed: Option<(Span, Entry)>)
        requires
            self.wf(),
            self.locals@.len() > 0,
        ensures
            match shadowed {
                Some((span, entry)) => self.shadowed(*symbol) == Some((span, entry@)),
                None => self.shadowed(*symbol) is None,
            },
    {
        let ghost outer = self.locals_model().drop_last();
        let mut index: usize = self.locals.len() - 1;
        assert(outer.take(index as int) =~= outer);
        while index > 0
            invariant
                self.wf(),
                self.locals@.len() > 0,
                outer == self.locals_model().drop_last(),
                index <= outer.len(),
                lookup_locals(outer.take(index as int), *symbol) == lookup_locals(outer, *symbol),
            decreases index,
        {
            let ghost prefix = outer.take(index as int);
            assert(prefix.drop_last() =~= outer.take(index - 1));
            assert(prefix.last() == (self.locals@[index - 1].0@, bindings(self.locals@[index - 1].1@)));
            match self.locals[index - 1].1.get(symbol) {
                Some((span, entry)) => {
                    assert(lookup_locals(prefix, *symbol) == Some(prefix.last().1[*symbol]));
                    return Some((*span, entry.copy()));
                },
                None => {},
            }
            index -= 1;
        }
        None
    }

    /// The classes declared in interfaces, in order of declaration.
    pub fn class_signatures(&self) -> (classes: Vec<Symbol>)
        requires
            self.wf(),
        ensures
            classes@.len() == self.class_signatures.size(),
            forall|i: int| 0 <= i < classes@.len() ==> #[trigger] classes@[i] == self.class_signatures.at_spec(i).0.symbol,
    {
        symbols(&self.class_signatures)
    }

    pub fn get_class_signature<K: Key>(&self, class: &K) -> (span: Option<&Span>)
        requires
            self.wf(),
        ensures
            span is Some == self.class_signatures@.contains_key(class.key()),
            span matches Some(span) ==> *span == *self.class_signatures@[class.key()].0.span,
    {
        match self.class_signatures.get(class) {
            Some((span, _)) => Some(span),
            None => None,
        }
    }

    /// Record a class declared in an interface, giving it an empty environment.
    /// Returns the span and environment of a class of that name it replaces.
    pub fn insert_class_signature(&mut self, class: Identifier) -> (replaced: Option<(Span, Environment<Entry>)>)
        requires
            old(self).wf(),
        ensures
            final(self).wf(),
            final(self).class_signatures@ == if old(self).class_signatures@.contains_key(class.symbol) {
                old(self).class_signatures@
            } else {
                old(self).class_signatures@.insert(class.symbol, (class, ()))
            },
            final(self).classes@.dom() == old(self).classes@.dom().insert(class.symbol),
            final(self).classes@[class.symbol].0 == class,
            final(self).classes@[class.symbol].1@ == Map::<Symbol, (Identifier, Entry)>::empty(),
            forall|other: Symbol| other != class.symbol ==> #[trigger] final(self).classes@.get(other) == old(self).classes@.get(other),
            replaced is Some == old(self).classes@.contains_key(class.symbol),
            replaced matches Some((span, members)) ==> span == *old(self).classes@[class.symbol].0.span
                && members == old(self).classes@[class.symbol].1,
            final(self).hierarchy == old(self).hierarchy,
            final(self).globals == old(self).globals,
            final(self).class_implementations == old(self).class_implementations,
            final(self).class_templates == old(self).class_templates,
            final(self).function_templates == old(self).function_templates,
            final(self).locals == old(self).locals,
    {
        if self.class_signatures.find(&class).is_none() {
            self.class_signatures.insert(class.copy(), ());
        }
        let replaced = self.classes.insert(class, Environment::new());
        proof {
            self.classes.lemma_wf();
        }
        replaced
    }

    /// The classes of the implementation module, in order of definition.
    pub fn class_implementations(&self) -> (classes: Vec<Symbol>)
        requires
            self.wf(),
        ensures
            classes@.len() == self.class_implementations.size(),
            forall|i: int| 0 <= i < classes@.len() ==> #[trigger] classes@[i] == self.class_implementations.at_spec(i).0.symbol,
    {
        symbols(&self.class_implementations)
    }

    pub fn get_class_implementation<K: Key>(&self, class: &K) -> (span: Option<&Span>)
        requires
            self.wf(),
        ensures
            span is Some == self.class_implementations@.contains_key(class.key()),
            span matches Some(span) ==> *span == *self.class_implementations@[class.key()].0.span,
    {
        match self.class_implementations.get(class) {
            Some((span, _)) => Some(span),
            None => None,
        }
    }

    /// Record a class of the implementation module. Returns the span of an
    /// earlier definition of the same class, changing nothing; otherwise gives
    /// the class an environment (keeping one an interface declared).
    pub fn insert_class_implementation(&mut self, class: Identifier) -> (previous: Option<Span>)
        requires
            old(self).wf(),
        ensures
            final(self).wf(),
            previous is Some == old(self).class_implementations@.contains_key(class.symbol),
            previous matches Some(span) ==> span == *old(self).class_implementations@[class.symbol].0.span
                && *final(self) == *old(self),
            previous is None ==> {
                &&& final(self).class_implementations@ == old(self).class_implementations@.insert(class.symbol, (class, ()))
                &&& final(self).classes@.dom() == old(self).classes@.dom().insert(class.symbol)
                &&& final(self).classes@[class.symbol].0 == class
                &&& (old(self).classes@.contains_key(class.symbol) ==> final(self).classes@[class.symbol].1
                    == old(self).classes@[class.symbol].1)
                &&& (!old(self).classes@.contains_key(class.symbol) ==> final(self).classes@[class.symbol].1@
                    == Map::<Symbol, (Identifier, Entry)>::empty())
                &&& forall|other: Symbol| other != class.symbol ==> #[trigger] final(self).classes@.get(other)
                    == old(self).classes@.get(other)
                &&& final(self).hierarchy == old(self).hierarchy
                &&& final(self).globals == old(self).globals
                &&& final(self).class_signatures == old(self).class_signatures
                &&& final(self).class_templates == old(self).class_templates
                &&& final(self).function_templates == old(self).function_templates
                &&& final(self).locals == old(self).locals
            },
    {
        match self.class_implementations.get(&class) {
            Some((span, _)) => return Some(*span),
            None => {},
        }
        self.class_implementations.insert(class.copy(), ());
        let ghost before = self.classes;
        match self.classes.find(&class) {
            Some(index) => {
                proof {
                    before.lemma_wf();
                }
                let members = self.classes.swap_at(index, Environment::new());
                self.classes.insert(class, members);
            },
            None => {
                self.classes.insert(class, Environment::new());
            },
        }
        proof {
            self.classes.lemma_wf();
        }
        None
    }

    pub fn insert_class_template(&mut self, class: ast::ClassTemplate) -> (replaced: Option<(Span, ast::ClassTemplate)>)
        requires
            old(self).wf(),
        ensures
            final(self).wf(),
            final(self).class_templates@ == old(self).class_templates@.insert(class.name.symbol, (class.name, class)),
            replaced is Some == old(self).class_templates@.contains_key(class.name.symbol),
            replaced matches Some((span, previous)) ==> span == *old(self).class_templates@[class.name.symbol].0.span
                && previous == old(self).class_templates@[class.name.symbol].1,
            final(self).hierarchy == old(self).hierarchy,
            final(self).globals == old(self).globals,
            final(self).classes == old(self).classes,
            final(self).class_signatures == old(self).class_signatures,
            final(self).class_implementations == old(self).class_implementations,
            final(self).function_templates == old(self).function_templates,
            final(self).locals == old(self).locals,
    {
        let name = class.name.copy();
        self.class_templates.insert(name, class)
    }

    pub fn get_class_template<K: Key>(&self, identifier: &K) -> (template: Option<&ast::ClassTemplate>)
        requires
            self.wf(),
        ensures
            template is Some == self.class_templates@.contains_key(identifier.key()),
            template matches Some(template) ==> *template == self.class_templates@[identifier.key()].1,
    {
        match self.class_templates.get(identifier) {
            Some((_, template)) => Some(template),
            None => None,
        }
    }

    pub fn insert_function_template(&mut self, function: ast::FunctionTemplate) -> (replaced: Option<(Span, ast::FunctionTemplate)>)
        requires
            old(self).wf(),
        ensures
            final(self).wf(),
            final(self).function_templates@ == old(self).function_templates@.insert(function.name.symbol, (function.name, function)),
            replaced is Some == old(self).function_templates@.contains_key(function.name.symbol),
            replaced matches Some((span, previous)) ==> span == *old(self).function_templates@[function.name.symbol].0.span
                && previous == old(self).function_templates@[function.name.symbol].1,
            final(self).hierarchy == old(self).hierarchy,
            final(self).globals == old(self).globals,
            final(self).classes == old(self).classes,
            final(self).class_signatures == old(self).class_signatures,
            final(self).class_implementations == old(self).class_implementations,
            final(self).class_templates == old(self).class_templates,
            final(self).locals == old(self).locals,
    {
        let name = function.name.copy();
        self.function_templates.insert(name, function)
    }

    pub fn get_function_template<K: Key>(&self, identifier: &K) -> (template: Option<&ast::FunctionTemplate>)
        requires
            self.wf(),
        ensures
            template is Some == self.function_templates@.contains_key(identifier.key()),
            template matches Some(template) ==> *template == self.function_templates@[identifier.key()].1,
    {
        match self.function_templates.get(identifier) {
            Some((_, template)) => Some(template),
            None => None,
        }
    }

    /// The members of a class.
    pub fn get_class<K: Key>(&self, class: &K) -> (members: Option<&Environment<Entry>>)
        requires
            self.wf(),
        ensures
            members is Some == self.classes@.contains_key(class.key()),
            members matches Some(members) ==> *members == self.classes@[class.key()].1,
    {
        match self.classes.get(class) {
            Some((_, members)) => Some(members),
            None => None,
        }
    }

    /// The span of a class's declaration, and its members.
    pub fn get_class_full<K: Key>(&self, class: &K) -> (found: Option<(&Span, &Environment<Entry>)>)
        requires
            self.wf(),
        ensures
            found is Some == self.classes@.contains_key(class.key()),
            found matches Some((span, members)) ==> *span == *self.classes@[class.key()].0.span
                && *members == self.classes@[class.key()].1,
    {
        self.classes.get(class)
    }
}

/// The names bound in an environment, in order.
fn symbols<T>(environment: &Environment<T>) -> (symbols: Vec<Symbol>)
    ensures
        symbols@.len() == environment.size(),
        forall|i: int| 0 <= i < symbols@.len() ==> #[trigger] symbols@[i] == environment.at_spec(i).0.symbol,
{
    let mut symbols: Vec<Symbol> = Vec::new();
    let mut index: usize = 0;
    while index < environment.len()
        invariant
            index <= environment.size(),
            symbols@.len() == index,
            forall|i: int| 0 <= i < index ==> #[trigger] symbols@[i] == environment.at_spec(i).0.symbol,
        decreases environment.size() - index,
    {
        let (identifier, _) = environment.at(index);
        symbols.push(identifier.symbol);
        index += 1;
    }
    symbols
}

/// The type a bound stands for, whichever side it came from.
pub open spec fn bound_type(bound: Bound) -> ty::Model {
    match bound {
        Bound::Left(typ) => typ,
        Bound::Right(typ) => typ,
    }
}

/// `left` and `right` hold distinct classes at the same place, at least two
/// arrays deep (counting from `depth`).
pub open spec fn deep_classes_differ(left: ty::Model, right: ty::Model, depth: nat) -> bool
    decreases left,
{
    match (left, right) {
        (ty::Model::Array(l), ty::Model::Array(r)) => deep_classes_differ(*l, *r, depth + 1),
        (ty::Model::Class(l), ty::Model::Class(r)) => depth >= 2 && l != r,
        _ => false,
    }
}

impl Fixed {
    proof fn lemma_subtype_array_reflexive(self, typ: ty::Model)
        ensures
            self.spec_is_subtype_array(typ, typ),
        decreases typ,
    {
        if let ty::Model::Array(element) = typ {
            self.lemma_subtype_array_reflexive(*element);
        }
    }

    /// Subtyping is reflexive: every type is a subtype of itself.
    pub proof fn lemma_subtype_reflexive(self, typ: ty::Model)
        ensures
            self.spec_is_subtype(typ, typ),
    {
        if let ty::Model::Array(element) = typ {
            self.lemma_subtype_array_reflexive(*element);
        }
    }

    /// The subtyping rules: reflexive; `any` below every type; `null` below
    /// every class; a class below itself and its ancestors only; arrays of
    /// classes invariant; `int` not below `bool`.
    pub proof fn lemma_subtyping(self, typ: ty::Model, class: Symbol, sub: Symbol, sup: Symbol)
        ensures
            self.spec_is_subtype(typ, typ),
            self.spec_is_subtype(ty::Model::Any, typ),
            self.spec_is_subtype(ty::Model::Null, ty::Model::Class(class)),
            self.spec_is_subtype(ty::Model::Class(sub), ty::Model::Class(sup)) == (sub == sup || self.ancestors(sub).contains(
                sup,
            )),
            self.spec_is_subtype(
                ty::Model::Array(Box::new(ty::Model::Class(sub))),
                ty::Model::Array(Box::new(ty::Model::Class(sup))),
            ) == (sub == sup),
            !self.spec_is_subtype(ty::Model::Integer, ty::Model::Boolean),
    {
        self.lemma_subtype_reflexive(typ);
    }

    proof fn lemma_upper_bound_deep(self, left: ty::Model, right: ty::Model, depth: nat)
        requires
            depth >= 2,
            !deep_classes_differ(left, right, depth),
        ensures
            self.spec_least_upper_bound(left, right) matches Some(bound) ==> {
                &&& self.spec_is_subtype_array(left, bound_type(bound))
                &&& self.spec_is_subtype_array(right, bound_type(bound))
            },
        decreases left, 1nat,
    {
        self.lemma_subtype_array_reflexive(left);
        self.lemma_subtype_array_reflexive(right);
        match (left, right) {
            (ty::Model::Array(l), ty::Model::Array(r)) => {
                self.lemma_upper_bound_array(*l, *r, depth + 1);
            },
            (ty::Model::Class(l), ty::Model::Class(r)) => {
                assert(self.spec_is_subtype(right, left));
            },
            _ => {},
        }
    }

    proof fn lemma_upper_bound_array(self, left: ty::Model, right: ty::Model, depth: nat)
        requires
            depth >= 1,
            !deep_classes_differ(left, right, depth),
        ensures
            self.spec_least_upper_bound_array(left, right) matches Some(bound) ==> {
                &&& self.spec_is_subtype_array(left, bound_type(bound))
                &&& self.spec_is_subtype_array(right, bound_type(bound))
            },
        decreases left, 0nat,
    {
        self.lemma_subtype_array_reflexive(left);
        self.lemma_subtype_array_reflexive(right);
        if let (ty::Model::Array(l), ty::Model::Array(r)) = (left, right) {
            self.lemma_upper_bound_deep(*l, *r, depth + 1);
        }
    }

    /// The least upper bound of two types is a supertype of both, unless they
    /// hold distinct classes at the same place at least two arrays deep (there
    /// the bound of the element classes is taken, while arrays of classes are
    /// subtypes only of arrays of the same class).
    pub proof fn lemma_least_upper_bound_is_upper(self, left: ty::Model, right: ty::Model)
        requires
            !deep_classes_differ(left, right, 0),
        ensures
            self.spec_least_upper_bound(left, right) matches Some(bound) ==> {
                &&& self.spec_is_subtype(left, bound_type(bound))
                &&& self.spec_is_subtype(right, bound_type(bound))
            },
    {
        self.lemma_subtype_reflexive(left);
        self.lemma_subtype_reflexive(right);
        if let (ty::Model::Array(l), ty::Model::Array(r)) = (left, right) {
            self.lemma_upper_bound_array(*l, *r, 1);
        }
    }
}

/// A binding made in the innermost local scope is what a local lookup of its
/// name finds right after.
pub proof fn lemma_local_lookup_after_insert(before: Context, after: Context, identifier: Identifier, entry: Entry)
    requires
        before.locals@.len() > 0,
        after.globals == before.globals,
        after.classes == before.classes,
        after.hierarchy == before.hierarchy,
        after.class_implementations == before.class_implementations,
        after.locals@.len() == before.locals@.len(),
        after.locals@.drop_last() == before.locals@.drop_last(),
        after.locals@.last().0 == before.locals@.last().0,
        after.locals@.last().1@ == before.locals@.last().1@.insert(identifier.symbol, (identifier, entry)),
    ensures
        after.fixed().lookup(after.locals_model(), Scope::Local, identifier.symbol) == Some((identifier, entry@)),
{
    let locals = after.locals_model();
    assert(locals.last().1 == bindings(after.locals@.last().1@));
    assert(locals.last().1.contains_key(identifier.symbol));
}

/// Everything of `after` but its innermost local scope's bindings is as in
/// `before`, as after a binding made there (see [`Context::insert`]).
pub open spec fn local_insert(before: Context, after: Context) -> bool {
    &&& before.locals@.len() > 0
    &&& after.locals@.len() == before.locals@.len()
    &&& after.locals@.drop_last() == before.locals@.drop_last()
    &&& after.locals@.last().0 == before.locals@.last().0
    &&& same_globals(before, after)
}

/// `before` and `after` agree on all but their local scopes.
pub open spec fn same_globals(before: Context, after: Context) -> bool {
    &&& after.hierarchy == before.hierarchy
    &&& after.globals == before.globals
    &&& after.classes == before.classes
    &&& after.class_signatures == before.class_signatures
    &&& after.class_implementations == before.class_implementations
    &&& after.class_templates == before.class_templates
    &&& after.function_templates == before.function_templates
}

/// Leaving a local scope restores the context from before the scope was
/// entered, whatever bindings were made in it in between: `contexts` runs from
/// the context just after [`Context::push`] through each binding made in the
/// new scope, and `after` follows [`Context::pop`] on the last of them.
pub proof fn lemma_pop_undoes_scope(before: Context, contexts: Seq<Context>, after: Context, scope: LocalScope)
    requires
        contexts.len() > 0,
        contexts[0].locals@ == before.locals@.push((scope, contexts[0].locals@.last().1)),
        same_globals(before, contexts[0]),
        forall|k: int| 0 <= k < contexts.len() - 1 ==> local_insert(#[trigger] contexts[k], contexts[k + 1]),
        after.locals@ == if contexts.last().locals@.len() == 0 {
            contexts.last().locals@
        } else {
            contexts.last().locals@.drop_last()
        },
        same_globals(contexts.last(), after),
    ensures
        after.locals@ == before.locals@,
        same_globals(before, after),
        after.locals_model() == before.locals_model(),
        after.fixed() == before.fixed(),
        forall|scope: Scope, symbol: Symbol| #[trigger] after.fixed().lookup(after.locals_model(), scope, symbol)
            == before.fixed().lookup(before.locals_model(), scope, symbol),
        forall|scope: Scope, symbol: Symbol| #[trigger] after.fixed().lookup_defined(after.locals_model(), scope, symbol)
            == before.fixed().lookup_defined(before.locals_model(), scope, symbol),
        scoped_class(after.locals_model()) == scoped_class(before.locals_model()),
        scoped_returns(after.locals_model()) == scoped_returns(before.locals_model()),
        innermost_while(after.locals_model()) == innermost_while(before.locals_model()),
{
    assert(contexts[0].locals@.drop_last() =~= before.locals@);
    lemma_inserts_keep(before, contexts, contexts.len() - 1);
    assert(after.locals_model() =~= before.locals_model());
}

/// Bindings made in the innermost scope keep the scopes around it.
proof fn lemma_inserts_keep(before: Context, contexts: Seq<Context>, k: int)
    requires
        0 <= k < contexts.len(),
        contexts[0].locals@.len() == before.locals@.len() + 1,
        contexts[0].locals@.drop_last() == before.locals@,
        same_globals(before, contexts[0]),
        forall|j: int| 0 <= j < contexts.len() - 1 ==> local_insert(#[trigger] contexts[j], contexts[j + 1]),
    ensures
        contexts[k].locals@.len() == before.locals@.len() + 1,
        contexts[k].locals@.drop_last() == before.locals@,
        same_globals(before, contexts[k]),
    decreases k,
{
    if k > 0 {
        lemma_inserts_keep(before, contexts, k - 1);
        assert(local_insert(contexts[k - 1], contexts[k]));
    }
}

/// Walks up the hierarchy read the hierarchy alone.
proof fn lemma_walk_same_hierarchy(first: Fixed, second: Fixed, class: Symbol, steps: nat)
    requires
        first.hierarchy == second.hierarchy,
    ensures
        first.walk(class, steps) == second.walk(class, steps),
    decreases steps,
{
    if steps > 0 {
        lemma_walk_same_hierarchy(first, second, class, (steps - 1) as nat);
    }
}

/// A chain lookup of a name whose bindings no class changed finds what it found.
proof fn lemma_chain_unchanged(before: Fixed, after: Fixed, chain: Seq<Symbol>, symbol: Symbol)
    requires
        before.chain_known(chain, symbol),
        forall|k: Symbol| #[trigger] before.classes.contains_key(k) ==> after.classes.contains_key(k)
            && after.classes[k].1@.get(symbol) == before.classes[k].1@.get(symbol),
    ensures
        after.chain_known(chain, symbol),
        after.lookup_chain(chain, symbol) == before.lookup_chain(chain, symbol),
    decreases chain.len(),
{
    if chain.len() > 0 {
        let k = chain[0];
        assert(before.classes.contains_key(k));
        if !before.classes[k].1@.contains_key(symbol) {
            lemma_chain_unchanged(before, after, chain.drop_first(), symbol);
        }
    }
}

/// A binding made in a global scope (see [`Context::insert`]) is what a lookup
/// of its name there finds right after, and every lookup there of another name
/// finds what it found before.
pub proof fn lemma_lookup_after_global_insert(
    before: Context,
    after: Context,
    scope: GlobalScope,
    identifier: Identifier,
    entry: Entry,
)
    requires
        after.hierarchy == before.hierarchy,
        after.locals == before.locals,
        match scope {
            GlobalScope::Global => {
                &&& after.globals@ == before.globals@.insert(identifier.symbol, (identifier, entry))
                &&& after.classes == before.classes
            },
            GlobalScope::Class(class) => {
                &&& before.classes@.contains_key(class)
                &&& after.globals == before.globals
                &&& after.classes@.dom() == before.classes@.dom()
                &&& after.classes@[class].1@ == before.classes@[class].1@.insert(identifier.symbol, (identifier, entry))
                &&& forall|other: Symbol| other != class ==> #[trigger] after.classes@.get(other) == before.classes@.get(other)
            },
        },
    ensures
        after.fixed().lookup(after.locals_model(), Scope::Global(scope), identifier.symbol) == Some((identifier, entry@)),
        forall|symbol: Symbol|
            symbol != identifier.symbol && #[trigger] before.fixed().lookup_defined(
                before.locals_model(),
                Scope::Global(scope),
                symbol,
            ) ==> after.fixed().lookup_defined(after.locals_model(), Scope::Global(scope), symbol) && after.fixed().lookup(
                after.locals_model(),
                Scope::Global(scope),
                symbol,
            ) == before.fixed().lookup(before.locals_model(), Scope::Global(scope), symbol),
{
    let (old_fixed, new_fixed) = (before.fixed(), after.fixed());
    if let GlobalScope::Class(class) = scope {
        let chain = seq![class] + old_fixed.ancestors(class);
        lemma_walk_same_hierarchy(old_fixed, new_fixed, class, old_fixed.bound);
        assert(chain[0] == class);
        assert(after.classes@.contains_key(class));
        assert forall|symbol: Symbol|
            symbol != identifier.symbol && #[trigger] old_fixed.lookup_defined(
                before.locals_model(),
                Scope::Global(scope),
                symbol,
            ) implies new_fixed.lookup_defined(after.locals_model(), Scope::Global(scope), symbol) && new_fixed.lookup(
                after.locals_model(),
                Scope::Global(scope),
                symbol,
            ) == old_fixed.lookup(before.locals_model(), Scope::Global(scope), symbol) by {
            assert forall|k: Symbol| #[trigger] old_fixed.classes.contains_key(k) implies new_fixed.classes.contains_key(k)
                && new_fixed.classes[k].1@.get(symbol) == old_fixed.classes[k].1@.get(symbol) by {
                if k != class {
                    assert(after.classes@.get(k) == before.classes@.get(k));
                }
            }
            lemma_chain_unchanged(old_fixed, new_fixed, chain, symbol);
        }
    }
}

/// Leaving a local scope just entered restores the local scopes as they were.
pub proof fn lemma_pop_after_push(before: Context, entered: Context, after: Context, scope: LocalScope)
    requires
        entered.locals@ == before.locals@.push((scope, entered.locals@.last().1)),
        after.locals@ == if entered.locals@.len() == 0 {
            entered.locals@
        } else {
            entered.locals@.drop_last()
        },
    ensures
        after.locals@ == before.locals@,
{
    assert(entered.locals@.drop_last() =~= before.locals@);
}

} // verus!

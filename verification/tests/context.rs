use xic::abi::class::Layout;
use xic::abi::vtable::Table;
use xic::abi::Abi;
use xic::check::context::Context;
use xic::check::context::Entry;
use xic::check::context::GlobalScope;
use xic::check::context::LocalScope;
use xic::check::context::Scope;

use xic::check::env::Env;
use xic::data::ast::Identifier;
use xic::data::span::Point;
use xic::data::span::Span;
use xic::data::symbol::Interner;
use xic::data::symbol::Symbol;
use xic::data::ty;
use xic::data::typ;

fn identifier(symbol: Symbol) -> Identifier {
    Identifier { symbol, span: Box::new(Span::from_point(Point::start())) }
}

fn class(symbol: Symbol) -> ty::Expression {
    ty::Expression::Class(symbol)
}

fn array(element: ty::Expression) -> ty::Expression {
    ty::Expression::Array(Box::new(element))
}

#[test]
fn subtyping_is_reflexive_and_follows_the_hierarchy() {
    let mut context = Context::new();
    let (a, b) = (Symbol(1), Symbol(2));
    assert_eq!(context.insert_supertype(identifier(b), identifier(a)), None);
    for typ in [ty::Expression::Integer, class(a), class(b), array(class(b)), ty::Expression::Null] {
        assert!(context.is_subtype(&typ, &typ));
    }
    assert!(context.is_subtype(&class(b), &class(a)));
    assert!(!context.is_subtype(&class(a), &class(b)));
    assert!(context.is_subtype(&ty::Expression::Null, &class(a)));
    assert!(!context.is_subtype(&array(class(b)), &array(class(a))));
    assert!(context.is_subtype(&array(ty::Expression::Any), &array(ty::Expression::Integer)));
    assert_eq!(context.ancestors_inclusive(&b), vec![b, a]);
}

#[test]
fn least_upper_bound_is_an_upper_bound() {
    let mut context = Context::new();
    let (a, b) = (Symbol(1), Symbol(2));
    context.insert_supertype(identifier(b), identifier(a));
    let bound = context.least_upper_bound(&class(b), &class(a)).unwrap().into_type();
    assert_eq!(bound, class(a));
    assert!(context.is_subtype(&class(b), &bound) && context.is_subtype(&class(a), &bound));
    let bound = context.least_upper_bound(&ty::Expression::Null, &class(b)).unwrap().into_type();
    assert_eq!(bound, class(b));
    assert!(context.least_upper_bound(&ty::Expression::Integer, &ty::Expression::Boolean).is_none());
    // Two arrays deep the element classes are bounded, but arrays of classes are invariant.
    let deep_b = array(array(class(b)));
    let deep_a = array(array(class(a)));
    let bound = context.least_upper_bound(&deep_b, &deep_a).unwrap().into_type();
    assert_eq!(bound, deep_a);
    assert!(!context.is_subtype(&deep_b, &bound));
}

#[test]
fn local_lookup_after_insert_and_scopes() {
    let mut context = Context::new();
    let x = Symbol(3);
    context.push(LocalScope::Function { returned: vec![] });
    assert!(context.insert(Scope::Local, identifier(x), Entry::Variable(ty::Expression::Integer)).is_none());
    assert!(matches!(context.get(Scope::Local, &x), Some(Entry::Variable(ty::Expression::Integer))));
    context.push(LocalScope::Block);
    let shadowed = context.insert(Scope::Local, identifier(x), Entry::Variable(ty::Expression::Boolean));
    assert!(matches!(shadowed, Some((_, Entry::Variable(ty::Expression::Integer)))));
    assert!(matches!(context.get(Scope::Local, &x), Some(Entry::Variable(ty::Expression::Boolean))));
    context.pop();
    assert!(matches!(context.get(Scope::Local, &x), Some(Entry::Variable(ty::Expression::Integer))));
    context.pop();
    assert!(context.get(Scope::Local, &x).is_none());
}

#[test]
fn env_binds_and_removes() {
    let mut interner = Interner::new();
    let mut environment = Env::new(&mut interner);
    let x = interner.intern("x");
    assert!(environment.get(x).is_none());
    environment.push();
    environment.insert(x, xic::check::env::Entry::Var(typ::Exp::Int));
    assert!(matches!(environment.get(x), Some(xic::check::env::Entry::Var(typ::Exp::Int))));
    assert!(matches!(environment.remove(x), Some(xic::check::env::Entry::Var(typ::Exp::Int))));
    assert!(environment.get(x).is_none());
    let print = interner.intern("print");
    assert!(matches!(environment.get(print), Some(xic::check::env::Entry::Fun(_, typ::Typ::Unit))));
}

fn hierarchy() -> (Context, Symbol, Symbol) {
    let mut context = Context::new();
    let (a, b) = (Symbol(1), Symbol(2));
    let (x, y, f, g) = (Symbol(10), Symbol(11), Symbol(12), Symbol(13));
    context.insert_class_implementation(identifier(a));
    context.insert_class_implementation(identifier(b));
    context.insert_supertype(identifier(b), identifier(a));
    let method = || Entry::Function(vec![], vec![]);
    context.insert(Scope::Global(GlobalScope::Class(a)), identifier(x), Entry::Variable(ty::Expression::Integer));
    context.insert(Scope::Global(GlobalScope::Class(a)), identifier(f), method());
    context.insert(Scope::Global(GlobalScope::Class(b)), identifier(y), Entry::Variable(ty::Expression::Integer));
    context.insert(Scope::Global(GlobalScope::Class(b)), identifier(f), method());
    context.insert(Scope::Global(GlobalScope::Class(b)), identifier(g), method());
    (context, a, b)
}

#[test]
fn class_layout() {
    let (context, a, b) = hierarchy();
    let (x, y, f, g) = (Symbol(10), Symbol(11), Symbol(12), Symbol(13));
    let layout = Layout::new(&context, Abi::Xi, &b, false);
    assert_eq!(layout.interface(), None);
    assert_eq!(layout.field_index(&a, &x), Some(1));
    assert_eq!(layout.field_index(&b, &y), Some(2));
    assert_eq!(layout.field_index(&b, &x), Some(1));
    assert_eq!(layout.field_index(&b, &f), None);
    assert_eq!(layout.field_len(), 3);
    // Slots: a's private slot, f, b's private slot, g.
    assert_eq!(layout.method_index(&f), Some(1));
    assert_eq!(layout.method_index(&g), Some(3));
    assert_eq!(layout.virtual_table_len(), Some(4));
    let root = Layout::new(&context, Abi::XiFinal, &a, true);
    assert_eq!(root.virtual_table_len(), None);
    assert_eq!(root.method_index(&f), None);
    assert_eq!(root.field_index(&a, &x), Some(0));
}

#[test]
fn virtual_tables() {
    let (context, a, b) = hierarchy();
    let (x, y, f, g) = (Symbol(10), Symbol(11), Symbol(12), Symbol(13));
    let table = Table::new(&context);
    assert_eq!(table.field(&b, &x), Some(0));
    assert_eq!(table.field(&b, &y), Some(1));
    assert_eq!(table.field_len(&a), Some(1));
    assert_eq!(table.method(&b, &f), Some(0));
    assert_eq!(table.method(&b, &g), Some(1));
    assert_eq!(table.method_len(&b), Some(4));
    assert_eq!(table.method_len(&a), Some(2));
    assert_eq!(table.field_len(&Symbol(99)), None);
}

#[test]
fn rebinding_a_global_keeps_its_position() {
    let mut context = Context::new();
    let (a, b) = (Symbol(1), Symbol(2));
    let global = || Scope::Global(GlobalScope::Global);
    assert!(context.insert(global(), identifier(a), Entry::Variable(ty::Expression::Integer)).is_none());
    assert!(context.insert(global(), identifier(b), Entry::Variable(ty::Expression::Integer)).is_none());
    let replaced = context.insert(global(), identifier(a), Entry::Variable(ty::Expression::Boolean));
    assert!(matches!(replaced, Some((_, Entry::Variable(ty::Expression::Integer)))));
    assert_eq!(context.globals.find(&a), Some(0));
    assert_eq!(context.globals.find(&b), Some(1));
}

#[test]
fn leaving_a_scope_drops_its_bindings() {
    let mut context = Context::new();
    let (x, y) = (Symbol(3), Symbol(4));
    context.push(LocalScope::Function { returned: vec![] });
    context.insert(Scope::Local, identifier(x), Entry::Variable(ty::Expression::Integer));
    context.push(LocalScope::Block);
    context.insert(Scope::Local, identifier(y), Entry::Variable(ty::Expression::Boolean));
    context.insert(Scope::Local, identifier(x), Entry::Variable(ty::Expression::Boolean));
    context.pop();
    assert!(context.get(Scope::Local, &y).is_none());
    assert!(matches!(context.get(Scope::Local, &x), Some(Entry::Variable(ty::Expression::Integer))));
}

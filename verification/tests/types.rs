use xic::data::ir;
use xic::data::operand::Immediate;
use xic::data::operand::Label;
use xic::data::symbol::Symbol;
use xic::data::typ::Exp;
use xic::data::typ::Typ;

#[test]
fn exp_subtyping() {
    let any_array = Exp::Arr(Box::new(Exp::Any));
    let int_array = Exp::Arr(Box::new(Exp::Int));
    assert!(Exp::Any.subtypes(&Exp::Int));
    assert!(Exp::Int.subtypes(&Exp::Int));
    assert!(!Exp::Int.subtypes(&Exp::Bool));
    assert!(any_array.subtypes(&int_array));
    assert!(!int_array.subtypes(&any_array));
}

#[test]
fn exp_least_upper_bound() {
    let any_array = Exp::Arr(Box::new(Exp::Any));
    let int_array = Exp::Arr(Box::new(Exp::Int));
    assert_eq!(any_array.lub(&int_array), Some(int_array.clone()));
    assert_eq!(int_array.lub(&any_array), Some(int_array.clone()));
    assert_eq!(Exp::Int.lub(&Exp::Bool), None);
    assert_eq!(Exp::Any.lub(&Exp::Bool), Some(Exp::Bool));
}

#[test]
fn tuple_subtyping() {
    let left = Typ::Tup(vec![Exp::Any, Exp::Int]);
    let right = Typ::Tup(vec![Exp::Bool, Exp::Int]);
    assert!(left.subtypes(&right));
    assert!(!right.subtypes(&left));
    assert!(!Typ::Tup(vec![Exp::Int]).subtypes(&right));
    assert!(Typ::Unit.subtypes(&Typ::Unit));
    assert_eq!(Typ::integer().lub(&Typ::any()), Some(Typ::Exp(Exp::Int)));
    assert_eq!(Typ::Unit.lub(&Typ::Unit), None);
}

#[test]
fn map_ref_keeps_names_and_data() {
    let unit = ir::Unit {
        name: Symbol(1),
        functions: vec![(Symbol(2), 10usize), (Symbol(3), 20usize)],
        data: vec![(Label::Fixed(Symbol(4)), vec![Immediate::Integer(7)])],
        bss: vec![(Symbol(5), (ir::Linkage::Local, 2))],
    };
    let mapped = unit.map_ref(|function: &usize| *function + 1);
    assert_eq!(mapped.name, Symbol(1));
    assert_eq!(mapped.functions, vec![(Symbol(2), 11), (Symbol(3), 21)]);
    assert_eq!(mapped.data.len(), 1);
    assert!(matches!(mapped.data[0].1[0], Immediate::Integer(7)));
    assert_eq!(mapped.bss.len(), 1);
    assert_eq!(unit.functions.len(), 2);
}

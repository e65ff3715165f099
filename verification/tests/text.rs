use xic::abi::mangle;
use xic::check::error::ErrorKind;
use xic::check::message::message;
use xic::check::message::related;
use xic::data::assembly;
use xic::data::intel;
use xic::data::operand;
use xic::data::operand::Immediate;
use xic::data::operand::Label;
use xic::data::operand::Memory;
use xic::data::operand::Register;
use xic::data::operand::Scale;
use xic::check::message::type_string;
use xic::data::symbol::Interner;
use xic::data::token::unescape_char;
use xic::data::token::unescape_str;
use xic::data::ty;

#[test]
fn interner_round_trip() {
    let mut interner = Interner::new();
    let a = interner.intern("alpha");
    let b = interner.intern("beta");
    let again = interner.intern("alpha");
    assert_eq!(a, again);
    assert_ne!(a, b);
    assert_eq!(interner.resolve(a), "alpha");
    assert_eq!(interner.resolve(b), "beta");
    assert_eq!(interner.len(), 2);
}

#[test]
fn unescape_characters() {
    assert_eq!(unescape_char('\n'), Some("\\n"));
    assert_eq!(unescape_char('\r'), Some("\\r"));
    assert_eq!(unescape_char('\t'), Some("\\t"));
    assert_eq!(unescape_char('\x08'), Some("\\b"));
    assert_eq!(unescape_char('\x0C'), Some("\\f"));
    assert_eq!(unescape_char('a'), None);
}

#[test]
fn unescape_strings() {
    assert_eq!(unescape_str("a\nb\tc"), "a\\nb\\tc");
    assert_eq!(unescape_str(""), "");
    assert_eq!(unescape_str("plain"), "plain");
    assert_eq!(unescape_str("é\r"), "é\\r");
}

#[test]
fn mangle_class_symbols() {
    let mut interner = Interner::new();
    let class = interner.intern("My_Class'");
    let size = mangle::class_size(&mut interner, &class);
    assert_eq!(interner.resolve(size), "_I_size_My__Class__");
    let table = mangle::class_virtual_table(&mut interner, &class);
    assert_eq!(interner.resolve(table), "_I_vt_My__Class__");
    let init = mangle::class_initialization(&mut interner, &class);
    assert_eq!(interner.resolve(init), "_I_init_My__Class__");
}

#[test]
fn mangle_functions() {
    let mut interner = Interner::new();
    let name = interner.intern("main");
    let class = interner.intern("Point");
    let parameters = vec![ty::Expression::Array(Box::new(ty::Expression::Array(Box::new(ty::Expression::Integer))))];
    let none = mangle::function(&mut interner, &name, &parameters, &vec![]);
    assert_eq!(interner.resolve(none), "_Imain_paai");
    let one = mangle::function(&mut interner, &name, &vec![], &vec![ty::Expression::Boolean]);
    assert_eq!(interner.resolve(one), "_Imain_b");
    let two = mangle::function(
        &mut interner,
        &name,
        &vec![ty::Expression::Class(class)],
        &vec![ty::Expression::Integer, ty::Expression::Boolean],
    );
    assert_eq!(interner.resolve(two), "_Imain_t2ibo5Point");
    let method = mangle::method(&mut interner, &class, &name, &vec![], &vec![]);
    assert_eq!(interner.resolve(method), "_I_Point_main_p");
}

#[test]
fn mangle_long_and_wide_names() {
    let mut interner = Interner::new();
    let long = interner.intern("abcdefghij");
    let wide = interner.intern("é");
    let name = interner.intern("x");
    let symbol = mangle::function(
        &mut interner,
        &name,
        &vec![ty::Expression::Class(long), ty::Expression::Class(wide)],
        &vec![],
    );
    assert_eq!(interner.resolve(symbol), "_Ix_po10abcdefghijo2é");
}

#[test]
fn mangle_globals() {
    let mut interner = Interner::new();
    let x = interner.intern("x");
    let y = interner.intern("y_");
    let global = mangle::global(&mut interner, &x, &ty::Expression::Integer);
    assert_eq!(interner.resolve(global), "_I_global_x_i");
    let initialization = mangle::global_initialization(
        &mut interner,
        &vec![(x, ty::Expression::Integer), (y, ty::Expression::Array(Box::new(ty::Expression::Boolean)))],
    );
    assert_eq!(interner.resolve(initialization), "_I_init_global_xi_y__ab");
    let empty = mangle::global_initialization(&mut interner, &vec![]);
    assert_eq!(interner.resolve(empty), "_I_init_global");
}

fn class_type(symbol: xic::data::symbol::Symbol, generics: Option<Vec<xic::data::ast::Type<()>>>) -> xic::data::ast::Type<()> {
    let span = xic::data::span::Span::from_point(xic::data::span::Point::start());
    xic::data::ast::Type::Class(xic::data::ast::Variable {
        name: xic::data::ast::Identifier { symbol, span: Box::new(span) },
        generics,
        span,
    })
}

#[test]
fn mangle_templates_in_one_go_and_in_steps() {
    let mut interner = Interner::new();
    let a = interner.intern("A");
    let b = interner.intern("B");
    let c = interner.intern("C");
    let d = interner.intern("D");
    let nested = class_type(b, Some(vec![class_type(c, None)]));
    let all_at_once = mangle::template(&mut interner, &a, &vec![nested, class_type(d, None)]);
    assert_eq!(interner.resolve(all_at_once), "t1A2o7t1B1o1Co1D");
    let inner = mangle::template(&mut interner, &b, &vec![class_type(c, None)]);
    assert_eq!(interner.resolve(inner), "t1B1o1C");
    let in_steps = mangle::template(&mut interner, &a, &vec![class_type(inner, None), class_type(d, None)]);
    assert_eq!(in_steps, all_at_once);
}

#[test]
fn error_messages_name_symbols_and_types() {
    let mut interner = Interner::new();
    let x = interner.intern("x");
    assert_eq!(message(&interner, &ErrorKind::UnboundVariable(x)), "Unbound variable x");
    assert_eq!(message(&interner, &ErrorKind::NotFun(Some(x))), "x is not a function");
    assert_eq!(message(&interner, &ErrorKind::MissingReturn), "Missing return statement");
    let mismatch = ErrorKind::Mismatch {
        expected: ty::Expression::Array(Box::new(ty::Expression::Integer)),
        expected_span: None,
        found: ty::Expression::Boolean,
    };
    assert_eq!(message(&interner, &mismatch), "Expected int[] but found bool");
    let span = xic::data::span::Span::from_point(xic::data::span::Point::start());
    let arity = ErrorKind::TemplateArgumentMismatch { span, expected: 2, found: 13 };
    assert_eq!(
        message(&interner, &arity),
        "Template instantiated with incorrect number of type arguments: expected 2, but found 13"
    );
    let function = ty::Expression::Function(
        vec![ty::Expression::Integer, ty::Expression::Class(x)],
        vec![ty::Expression::Boolean],
    );
    assert_eq!(type_string(&interner, &function), "(int, x) -> (bool)");
}

#[test]
fn stack_pointer_placeholder_is_rsp_printed_as_rbp() {
    assert!(Register::rsp_placeholder() == Register::rsp());
    assert!(Register::Rbp != Register::rsp());
    assert_eq!(intel::register(Register::rsp()), "rsp");
    assert_eq!(intel::register(Register::rsp_placeholder()), "rbp");
}

#[test]
fn intel_syntax_of_statements() {
    let mut interner = Interner::new();
    let loop_label = interner.intern("loop");
    let load = assembly::Statement::Binary(
        assembly::Binary::Mov,
        operand::Binary::RM {
            destination: Register::Rax,
            source: Memory::BISO { base: Register::Rbx, index: Register::Rcx, scale: Scale::_8, offset: Immediate::Integer(-16) },
        },
    );
    assert_eq!(intel::statement(&interner, &load), "mov rax, [rbx + rcx * 8 + -16]");
    let store = assembly::Statement::Binary(
        assembly::Binary::Mov,
        operand::Binary::MI { destination: Memory::B { base: Register::Rdi }, source: Immediate::Label(Label::Fresh(loop_label, 3)) },
    );
    assert_eq!(intel::statement(&interner, &store), "mov qword ptr [rdi], offset loop3");
    let jump = assembly::Statement::Jcc(assembly::Condition::Ge, Label::Fixed(loop_label));
    assert_eq!(intel::statement(&interner, &jump), "jge loop");
    assert_eq!(intel::integer(i64::MIN), "-9223372036854775808");
}

#[test]
fn intel_syntax_of_a_function() {
    let mut interner = Interner::new();
    let name = interner.intern("main");
    let enter = Label::Fixed(interner.intern("enter"));
    let function = assembly::Function {
        name,
        statements: vec![
            assembly::Statement::Label(enter),
            assembly::Statement::Label(Label::Fixed(interner.intern("body"))),
            assembly::Statement::Nullary(assembly::Nullary::Ret(0)),
        ],
        arguments: 0,
        returned: 0,
        linkage: xic::data::ir::Linkage::Global,
        enter,
        exit: enter,
    };
    assert_eq!(intel::function(&interner, &function), "main:\nbody:\n  ret\n");
}

#[test]
fn related_labels_point_at_the_definition() {
    let interner = Interner::new();
    let span = xic::data::span::Span::from_point(xic::data::span::Point::start());
    let clash = related(&interner, &ErrorKind::NameClash(span));
    assert!(matches!(clash, Some((_, ref text)) if text == "Previous definition here"));
    let mismatch = ErrorKind::Mismatch { expected: ty::Expression::Integer, expected_span: Some(span), found: ty::Expression::Boolean };
    assert!(matches!(related(&interner, &mismatch), Some((_, ref text)) if text == "Expected int because of this"));
    assert!(related(&interner, &ErrorKind::MissingReturn).is_none());
}

#[test]
fn intel_syntax_of_a_unit() {
    let mut interner = Interner::new();
    let name = interner.intern("main");
    let enter = Label::Fixed(interner.intern("enter"));
    let table = Label::Fixed(interner.intern("table"));
    let counter = interner.intern("counter");
    let function = assembly::Function {
        name,
        statements: vec![assembly::Statement::Label(enter), assembly::Statement::Nullary(assembly::Nullary::Ret(0))],
        arguments: 0,
        returned: 0,
        linkage: xic::data::ir::Linkage::Global,
        enter,
        exit: enter,
    };
    let unit = xic::data::ir::Unit {
        name: interner.intern("unit"),
        functions: vec![(name, function)],
        data: vec![(table, vec![Immediate::Integer(1), Immediate::Label(table)])],
        bss: vec![(counter, (xic::data::ir::Linkage::LinkOnceOdr, 2))],
    };
    assert_eq!(
        intel::unit(&interner, &unit),
        ".intel_syntax noprefix\n\n.section .data\n\n.align 8\n.local table\ntable:\n.quad 1, table\n\n\
         .section .bss\n\n.align 8\n.weak counter\n.global counter\ncounter:\n.space 16\n\n\
         .section .ctors.65534\n.align 8\n.quad _Iinit_classes\n\n\
         .section .ctors.65533\n.align 8\n.quad _Iinit_globals\n\n\
         .section .text\n\n.global main\nmain:\n  ret\n\n"
    );
}

use xic::check::check::Checker;
use xic::check::context::GlobalScope;
use xic::check::error::ErrorKind;
use xic::data::ast;
use xic::data::ast::Identifier;
use xic::data::span::Point;
use xic::data::span::Span;
use xic::data::symbol::Symbol;
use xic::data::ty;

fn span() -> Span {
    Span::from_point(Point::start())
}

fn identifier(symbol: Symbol) -> Identifier {
    Identifier { symbol, span: Box::new(span()) }
}

fn function(returned: Vec<ast::Type<()>>, body: ast::Statement<()>) -> ast::Function<()> {
    ast::Function {
        name: identifier(Symbol(1)),
        parameters: vec![ast::SingleDeclaration {
            name: identifier(Symbol(2)),
            typ: Box::new(ast::Type::Int(span())),
            span: span(),
        }],
        returned,
        statements: body,
        provenance: vec![],
        declared: false,
        span: span(),
    }
}

#[test]
fn check_function_returning_its_parameter() {
    let mut checker = Checker::new();
    let body = ast::Statement::Sequence(
        vec![ast::Statement::Return(vec![ast::Expression::Variable(ast::Variable { name: identifier(Symbol(2)), generics: None, span: span() }, ())], span())],
        span(),
    );
    let checked = checker.check_function(GlobalScope::Global, function(vec![ast::Type::Int(span())], body));
    let checked = checked.expect("well-typed function");
    assert_eq!(checked.parameters.len(), 1);
    assert_eq!(checked.returned.len(), 1);
}

#[test]
fn check_function_missing_return() {
    let mut checker = Checker::new();
    let body = ast::Statement::Sequence(vec![], span());
    let checked = checker.check_function(GlobalScope::Global, function(vec![ast::Type::Bool(span())], body));
    assert!(matches!(checked, Err(error) if matches!(error.kind, ErrorKind::MissingReturn)));
    let mut checker = Checker::new();
    let procedure = checker.check_function(GlobalScope::Global, function(vec![], ast::Statement::Sequence(vec![], span())));
    assert!(procedure.is_ok());
}

#[test]
fn check_function_return_mismatch() {
    let mut checker = Checker::new();
    let body = ast::Statement::Return(vec![ast::Expression::Boolean(true, span())], span());
    let checked = checker.check_function(GlobalScope::Global, function(vec![ast::Type::Int(span())], body));
    assert!(matches!(checked, Err(error) if matches!(error.kind, ErrorKind::ReturnMismatch)));
}

#[test]
fn span_mut_replaces_the_span_in_place() {
    let mut expression: ast::Expression<()> = ast::Expression::Integer(7, span());
    let moved = Span::from_point(Point { path: None, index: 4, row: 2, column: 3 });
    *expression.span_mut() = moved;
    assert_eq!(expression.span(), moved);
    assert!(matches!(expression, ast::Expression::Integer(7, _)));
}

fn boolean(value: bool) -> ast::Expression<ty::Expression> {
    ast::Expression::Boolean(value, span())
}

#[test]
fn negating_a_comparison_complements_it() {
    let comparison = ast::Expression::Binary(
        ast::Binary::Lt,
        Box::new(ast::Expression::Integer(1, span())),
        Box::new(ast::Expression::Integer(2, span())),
        ty::Expression::Boolean,
        span(),
    );
    assert!(matches!(comparison.negate_logical(), ast::Expression::Binary(ast::Binary::Ge, _, _, ty::Expression::Boolean, _)));
}

#[test]
fn negating_literals_and_negations() {
    assert!(matches!(boolean(true).negate_logical(), ast::Expression::Boolean(false, _)));
    let negation = ast::Expression::Unary(ast::Unary::Not, Box::new(boolean(true)), ty::Expression::Boolean, span());
    assert!(matches!(negation.negate_logical(), ast::Expression::Boolean(true, _)));
    let conjunction = ast::Expression::Binary(
        ast::Binary::And,
        Box::new(boolean(true)),
        Box::new(boolean(false)),
        ty::Expression::Boolean,
        span(),
    );
    assert!(matches!(
        conjunction.negate_logical(),
        ast::Expression::Unary(ast::Unary::Not, inner, ty::Expression::Boolean, _)
            if matches!(*inner, ast::Expression::Binary(ast::Binary::And, _, _, _, _))
    ));
    let integer: ast::Expression<ty::Expression> = ast::Expression::Integer(3, span());
    assert!(matches!(integer.negate_logical(), ast::Expression::Integer(3, _)));
}

fn literal(text: &str) -> ast::Expression<()> {
    ast::Expression::String(text.to_string(), span())
}

#[test]
fn adding_two_strings_concatenates_them() {
    let checker = Checker::new();
    let expression = ast::Expression::Binary(ast::Binary::Add, Box::new(literal("ab")), Box::new(literal("c")), (), span());
    let checked = checker.check_expression(expression).expect("well-typed concatenation");
    match checked {
        ast::Expression::Binary(ast::Binary::Cat, left, right, ty::Expression::Array(element), _) => {
            assert!(matches!(*element, ty::Expression::Integer));
            assert!(matches!(*left, ast::Expression::String(ref text, _) if text == "ab"));
            assert!(matches!(*right, ast::Expression::String(ref text, _) if text == "c"));
        },
        _ => panic!("expected a concatenation of two integer arrays"),
    }
}

#[test]
fn comparing_booleans_keeps_the_tree() {
    let checker = Checker::new();
    let expression = ast::Expression::Binary(
        ast::Binary::Eq,
        Box::new(ast::Expression::Boolean(true, span())),
        Box::new(ast::Expression::Boolean(false, span())),
        (),
        span(),
    );
    let checked = checker.check_expression(expression).expect("well-typed comparison");
    match checked {
        ast::Expression::Binary(ast::Binary::Eq, left, right, ty::Expression::Boolean, _) => {
            assert!(matches!(*left, ast::Expression::Boolean(true, _)));
            assert!(matches!(*right, ast::Expression::Boolean(false, _)));
        },
        _ => panic!("expected the comparison annotated as a boolean"),
    }
}

#[test]
fn if_with_else_is_checked_in_place() {
    let mut checker = Checker::new();
    let branch = |value: i64| {
        ast::Statement::Return(vec![ast::Expression::Integer(value, span())], span())
    };
    let body = ast::Statement::If(
        Box::new(ast::Expression::Boolean(true, span())),
        Box::new(branch(1)),
        Some(Box::new(branch(2))),
        span(),
    );
    let checked = checker.check_function(GlobalScope::Global, function(vec![ast::Type::Int(span())], body));
    let checked = checked.expect("both branches return");
    assert!(matches!(checked.statements, ast::Statement::If(_, _, Some(_), _)));
}

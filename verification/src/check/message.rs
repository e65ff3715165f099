//! The text of type errors and of types, as the diagnostics show them.

use vstd::prelude::*;

use crate::abi::mangle::decimal;
use crate::abi::mangle::spec_decimal;
use crate::check::error::ErrorKind;
use crate::data::span::Span;
use crate::data::symbol::string_from_chars;
use crate::data::symbol::Interner;
use crate::data::symbol::Symbol;
use crate::data::ty;

verus! {

/// The text of `symbol`: its interned string, or its number where `names`
/// holds none.
pub open spec fn name_text(names: Seq<Seq<char>>, symbol: Symbol) -> Seq<char> {
    if symbol.0 < names.len() {
        names[symbol.0 as int]
    } else {
        spec_decimal(symbol.0 as nat)
    }
}

/// The source text of a type.
pub open spec fn type_text(names: Seq<Seq<char>>, typ: ty::Expression) -> Seq<char>
    decreases typ, 0nat,
{
    match typ {
        ty::Expression::Any => "any"@,
        ty::Expression::Null => "null"@,
        ty::Expression::Integer => "int"@,
        ty::Expression::Boolean => "bool"@,
        ty::Expression::Class(class) => name_text(names, class),
        ty::Expression::Array(element) => type_text(names, *element) + "[]"@,
        ty::Expression::Function(parameters, returned) => "("@ + list_text(names, parameters, parameters@.len()) + ") -> ("@
            + list_text(names, returned, returned@.len()) + ")"@,
    }
}

/// The first `count` of `types`, separated by commas.
pub open spec fn list_text(names: Seq<Seq<char>>, types: Vec<ty::Expression>, count: nat) -> Seq<char>
    decreases types, count,
{
    if count == 0 || count > types@.len() {
        Seq::empty()
    } else if count == 1 {
        type_text(names, types@[0])
    } else {
        list_text(names, types, (count - 1) as nat) + ", "@ + type_text(names, types@[count - 1])
    }
}

/// The message of a type error.
pub open spec fn message_text(names: Seq<Seq<char>>, kind: ErrorKind) -> Seq<char> {
    match kind {
        ErrorKind::NotFound(interface) => "Interface file not found in library directory: "@ + name_text(names, interface)
            + ".ixi"@,
        ErrorKind::UnboundVariable(variable) => "Unbound variable "@ + name_text(names, variable),
        ErrorKind::UnboundFun(function) => "Unbound function "@ + name_text(names, function),
        ErrorKind::UnboundClass(class) => "Unbound class "@ + name_text(names, class),
        ErrorKind::UnboundClassTemplate(class) => "Unbound class template "@ + name_text(names, class),
        ErrorKind::NotVariable(variable) => name_text(names, variable) + " is not a variable type"@,
        ErrorKind::NotFun(Some(function)) => name_text(names, function) + " is not a function"@,
        ErrorKind::NotFun(None) => "Not a function"@,
        ErrorKind::NotExp => "Not a single expression type"@,
        ErrorKind::NotProcedure => "Not a procedure"@,
        ErrorKind::NotClass => "Receiver of dot operator must be a class"@,
        ErrorKind::NotInClass(None) => "Not inside a class implementation"@,
        ErrorKind::NotInClass(Some(class)) => "Not inside class "@ + name_text(names, class),
        ErrorKind::NotInClassModule(class) => "Not inside module that defines class "@ + name_text(names, class),
        ErrorKind::NotInWhile => "Not inside while loop"@,
        ErrorKind::NoSuperclass(class) => "Class "@ + name_text(names, class) + " has no superclass"@,
        ErrorKind::ClassCycle(class) => "Class hierarchy for class "@ + name_text(names, class) + " forms a cycle"@,
        ErrorKind::ClassIncomplete(class, _) => "Class "@ + name_text(names, class)
            + " does not implement method required in interface"@,
        ErrorKind::IndexEmpty => "Cannot index empty array"@,
        ErrorKind::CallLength => "Incorrect number of arguments for function call"@,
        ErrorKind::InitLength => "Initialization mismatch"@,
        ErrorKind::InitProcedure => "Cannot initialize with a procedure"@,
        ErrorKind::Unreachable => "Unreachable statement"@,
        ErrorKind::MissingReturn => "Missing return statement"@,
        ErrorKind::ReturnMismatch => "Return mismatch"@,
        ErrorKind::NameClash(_) => "Name already bound in environment"@,
        ErrorKind::SignatureMismatch(_) => "Implementation does not match signature"@,
        ErrorKind::TemplateArgumentMismatch { expected, found, .. } =>
            "Template instantiated with incorrect number of type arguments: expected "@ + spec_decimal(expected as nat)
            + ", but found "@ + spec_decimal(found as nat),
        ErrorKind::Mismatch { expected, found, .. } => "Expected "@ + type_text(names, expected) + " but found "@
            + type_text(names, found),
    }
}

/// `prefix`, then `middle`, then `suffix`.
pub(crate) fn around(prefix: &str, middle: String, suffix: &str) -> (text: String)
    ensures
        text@ == prefix@ + middle@ + suffix@,
{
    let mut text = String::from_str(prefix);
    text.append(middle.as_str());
    text.append(suffix);
    text
}

/// `prefix`, then `rest`.
pub(crate) fn prefixed(prefix: &str, rest: String) -> (text: String)
    ensures
        text@ == prefix@ + rest@,
{
    let mut text = String::from_str(prefix);
    text.append(rest.as_str());
    text
}

/// `text`, then `suffix`.
pub(crate) fn suffixed(text: String, suffix: &str) -> (suffixed: String)
    ensures
        suffixed@ == text@ + suffix@,
{
    let mut suffixed = text;
    suffixed.append(suffix);
    suffixed
}

/// The text of `symbol` (see [`name_text`]).
pub fn name(interner: &Interner, symbol: Symbol) -> (text: String)
    ensures
        text@ == name_text(interner@, symbol),
{
    if symbol.0 < interner.len() {
        String::from_str(interner.resolve(symbol))
    } else {
        string_from_chars(&decimal(symbol.0))
    }
}

/// The source text of a type (see [`type_text`]).
pub fn type_string(interner: &Interner, typ: &ty::Expression) -> (text: String)
    ensures
        text@ == type_text(interner@, *typ),
    decreases typ, 0nat,
{
    match typ {
        ty::Expression::Any => String::from_str("any"),
        ty::Expression::Null => String::from_str("null"),
        ty::Expression::Integer => String::from_str("int"),
        ty::Expression::Boolean => String::from_str("bool"),
        ty::Expression::Class(class) => name(interner, *class),
        ty::Expression::Array(element) => suffixed(type_string(interner, element), "[]"),
        ty::Expression::Function(parameters, returned) => {
            let mut text = around("(", list_string(interner, parameters), ") -> (");
            text.append(list_string(interner, returned).as_str());
            text.append(")");
            text
        },
    }
}

/// `types`, separated by commas (see [`list_text`]).
fn list_string(interner: &Interner, types: &Vec<ty::Expression>) -> (text: String)
    ensures
        text@ == list_text(interner@, *types, types@.len()),
    decreases types, 1nat,
{
    let mut text = String::new();
    let mut index: usize = 0;
    while index < types.len()
        invariant
            index <= types@.len(),
            text@ == list_text(interner@, *types, index as nat),
        decreases types@.len() - index,
    {
        proof {
            assert(decreases_to!(types => types@));
            assert(decreases_to!(types@ => types@[index as int]));
        }
        let typ = type_string(interner, &types[index]);
        if index > 0 {
            text.append(", ");
        }
        text.append(typ.as_str());
        index += 1;
    }
    text
}

/// The message of a type error (see [`message_text`]).
pub fn message(interner: &Interner, kind: &ErrorKind) -> (text: String)
    ensures
        text@ == message_text(interner@, *kind),
{
    match kind {
        ErrorKind::NotFound(interface) => around(
            "Interface file not found in library directory: ",
            name(interner, *interface),
            ".ixi",
        ),
        ErrorKind::UnboundVariable(variable) => prefixed("Unbound variable ", name(interner, *variable)),
        ErrorKind::UnboundFun(function) => prefixed("Unbound function ", name(interner, *function)),
        ErrorKind::UnboundClass(class) => prefixed("Unbound class ", name(interner, *class)),
        ErrorKind::UnboundClassTemplate(class) => prefixed("Unbound class template ", name(interner, *class)),
        ErrorKind::NotVariable(variable) => suffixed(name(interner, *variable), " is not a variable type"),
        ErrorKind::NotFun(Some(function)) => suffixed(name(interner, *function), " is not a function"),
        ErrorKind::NotFun(None) => String::from_str("Not a function"),
        ErrorKind::NotExp => String::from_str("Not a single expression type"),
        ErrorKind::NotProcedure => String::from_str("Not a procedure"),
        ErrorKind::NotClass => String::from_str("Receiver of dot operator must be a class"),
        ErrorKind::NotInClass(None) => String::from_str("Not inside a class implementation"),
        ErrorKind::NotInClass(Some(class)) => prefixed("Not inside class ", name(interner, *class)),
        ErrorKind::NotInClassModule(class) => prefixed("Not inside module that defines class ", name(interner, *class)),
        ErrorKind::NotInWhile => String::from_str("Not inside while loop"),
        ErrorKind::NoSuperclass(class) => around("Class ", name(interner, *class), " has no superclass"),
        ErrorKind::ClassCycle(class) => around("Class hierarchy for class ", name(interner, *class), " forms a cycle"),
        ErrorKind::ClassIncomplete(class, _) => around(
            "Class ",
            name(interner, *class),
            " does not implement method required in interface",
        ),
        ErrorKind::IndexEmpty => String::from_str("Cannot index empty array"),
        ErrorKind::CallLength => String::from_str("Incorrect number of arguments for function call"),
        ErrorKind::InitLength => String::from_str("Initialization mismatch"),
        ErrorKind::InitProcedure => String::from_str("Cannot initialize with a procedure"),
        ErrorKind::Unreachable => String::from_str("Unreachable statement"),
        ErrorKind::MissingReturn => String::from_str("Missing return statement"),
        ErrorKind::ReturnMismatch => String::from_str("Return mismatch"),
        ErrorKind::NameClash(_) => String::from_str("Name already bound in environment"),
        ErrorKind::SignatureMismatch(_) => String::from_str("Implementation does not match signature"),
        ErrorKind::TemplateArgumentMismatch { expected, found, .. } => {
            let mut text = around(
                "Template instantiated with incorrect number of type arguments: expected ",
                string_from_chars(&decimal(*expected)),
                ", but found ",
            );
            text.append(string_from_chars(&decimal(*found)).as_str());
            text
        },
        ErrorKind::Mismatch { expected, found, .. } => {
            let mut text = around("Expected ", type_string(interner, expected), " but found ");
            text.append(type_string(interner, found).as_str());
            text
        },
    }
}

/// The secondary label of a type error: the related definition and its text,
/// where the error has one.
pub open spec fn related_text(names: Seq<Seq<char>>, kind: ErrorKind) -> Option<(Span, Seq<char>)> {
    match kind {
        ErrorKind::Mismatch { expected, expected_span: Some(span), .. } => Some(
            (span, "Expected "@ + type_text(names, expected) + " because of this"@),
        ),
        ErrorKind::ClassIncomplete(_, span) => Some((span, "Method required here"@)),
        ErrorKind::NameClash(span) => Some((span, "Previous definition here"@)),
        ErrorKind::SignatureMismatch(span) => Some((span, "Signature definition here"@)),
        ErrorKind::TemplateArgumentMismatch { span, .. } => Some((span, "Template definition here"@)),
        _ => None,
    }
}

/// The secondary label of a type error (see [`related_text`]).
pub fn related(interner: &Interner, kind: &ErrorKind) -> (label: Option<(Span, String)>)
    ensures
        match (label, related_text(interner@, *kind)) {
            (Some((span, text)), Some((expected_span, expected))) => span == expected_span && text@ == expected,
            (None, None) => true,
            _ => false,
        },
{
    match kind {
        ErrorKind::Mismatch { expected, expected_span: Some(span), .. } => Some(
            (*span, around("Expected ", type_string(interner, expected), " because of this")),
        ),
        ErrorKind::ClassIncomplete(_, span) => Some((*span, String::from_str("Method required here"))),
        ErrorKind::NameClash(span) => Some((*span, String::from_str("Previous definition here"))),
        ErrorKind::SignatureMismatch(span) => Some((*span, String::from_str("Signature definition here"))),
        ErrorKind::TemplateArgumentMismatch { span, .. } => Some((*span, String::from_str("Template definition here"))),
        _ => None,
    }
}

} // verus!

use vstd::prelude::*;

use crate::data::symbol::string_from_chars;
use crate::data::symbol::Interner;
use crate::data::symbol::Symbol;
use crate::data::ast;
use crate::data::ty;

verus! {

/// A name with each `'` and `_` written as `__`.
pub open spec fn spec_escape(name: Seq<char>) -> Seq<char>
    decreases name.len(),
{
    if name.len() == 0 {
        seq![]
    } else {
        spec_escape(name.drop_last()) + if name.last() == '\'' || name.last() == '_' {
            seq!['_', '_']
        } else {
            seq![name.last()]
        }
    }
}

/// Number of bytes of the UTF-8 encoding of `c`.
pub open spec fn utf8_width(c: char) -> nat {
    if (c as u32) < 0x80 {
        1
    } else if (c as u32) < 0x800 {
        2
    } else if (c as u32) < 0x10000 {
        3
    } else {
        4
    }
}

/// Number of bytes of the UTF-8 encoding of `text`.
pub open spec fn utf8_len(text: Seq<char>) -> nat
    decreases text.len(),
{
    if text.len() == 0 {
        0
    } else {
        utf8_len(text.drop_last()) + utf8_width(text.last())
    }
}

pub open spec fn spec_digit(digit: nat) -> char {
    if digit == 0 {
        '0'
    } else if digit == 1 {
        '1'
    } else if digit == 2 {
        '2'
    } else if digit == 3 {
        '3'
    } else if digit == 4 {
        '4'
    } else if digit == 5 {
        '5'
    } else if digit == 6 {
        '6'
    } else if digit == 7 {
        '7'
    } else if digit == 8 {
        '8'
    } else {
        '9'
    }
}

/// The decimal digits of `n`.
pub open spec fn spec_decimal(n: nat) -> Seq<char>
    decreases n,
{
    if n < 10 {
        seq![spec_digit(n)]
    } else {
        spec_decimal(n / 10) + seq![spec_digit(n % 10)]
    }
}

/// A type that occurs in compiled code: integers, booleans, classes and arrays of them.
pub open spec fn mangleable(typ: ty::Model) -> bool
    decreases typ,
{
    match typ {
        ty::Model::Integer | ty::Model::Boolean | ty::Model::Class(_) => true,
        ty::Model::Array(element) => mangleable(*element),
        _ => false,
    }
}

/// The classes of `typ` are interned in `names`.
pub open spec fn named(names: Seq<Seq<char>>, typ: ty::Model) -> bool
    decreases typ,
{
    match typ {
        ty::Model::Class(class) => class.0 < names.len(),
        ty::Model::Array(element) => named(names, *element),
        _ => true,
    }
}

pub open spec fn spec_escaped(names: Seq<Seq<char>>, symbol: Symbol) -> Seq<char> {
    spec_escape(names[symbol.0 as int])
}

/// `i`, `b`, `o` with the length and escaped name of the class, or `a` before
/// the element type.
pub open spec fn spec_type(names: Seq<Seq<char>>, typ: ty::Model) -> Seq<char>
    decreases typ,
{
    match typ {
        ty::Model::Integer => seq!['i'],
        ty::Model::Boolean => seq!['b'],
        ty::Model::Class(class) => seq!['o'] + spec_decimal(utf8_len(spec_escaped(names, class))) + spec_escaped(names, class),
        ty::Model::Array(element) => seq!['a'] + spec_type(names, *element),
        _ => seq![],
    }
}

pub open spec fn spec_types(names: Seq<Seq<char>>, types: Seq<ty::Model>) -> Seq<char>
    decreases types.len(),
{
    if types.len() == 0 {
        seq![]
    } else {
        spec_types(names, types.drop_last()) + spec_type(names, types.last())
    }
}

/// The escaped name, `_`, the results (`p` for none, the type for one, `t`, their
/// count and types for more), then the parameter types.
pub open spec fn spec_function(names: Seq<Seq<char>>, name: Symbol, parameters: Seq<ty::Model>, returned: Seq<ty::Model>) -> Seq<char> {
    spec_escaped(names, name) + seq!['_'] + if returned.len() == 0 {
        seq!['p']
    } else if returned.len() == 1 {
        spec_type(names, returned[0])
    } else {
        seq!['t'] + spec_decimal(returned.len()) + spec_types(names, returned)
    } + spec_types(names, parameters)
}

pub open spec fn all_mangleable(names: Seq<Seq<char>>, types: Seq<ty::Model>) -> bool {
    forall|i: int| 0 <= i < types.len() ==> mangleable(#[trigger] types[i]) && named(names, types[i])
}

/// `after` is `before` with `text` interned as `symbol`.
pub open spec fn interned(before: Seq<Seq<char>>, after: Seq<Seq<char>>, symbol: Symbol, text: Seq<char>) -> bool {
    &&& symbol.0 < after.len()
    &&& after[symbol.0 as int] == text
    &&& before.contains(text) ==> after == before
    &&& !before.contains(text) ==> after == before.push(text) && symbol.0 == before.len()
}

fn push_str(buffer: &mut Vec<char>, text: &str)
    ensures
        final(buffer)@ == old(buffer)@ + text@,
{
    let ghost before = buffer@;
    let count = text.unicode_len();
    let mut index: usize = 0;
    while index < count
        invariant
            count == text@.len(),
            index <= count,
            buffer@ == before + text@.take(index as int),
        decreases count - index,
    {
        assert(text@.take(index + 1) =~= text@.take(index as int).push(text@[index as int]));
        buffer.push(text.get_char(index));
        index += 1;
    }
    assert(text@.take(count as int) =~= text@);
}

fn push_chars(buffer: &mut Vec<char>, chars: &Vec<char>)
    ensures
        final(buffer)@ == old(buffer)@ + chars@,
{
    let ghost before = buffer@;
    let mut index: usize = 0;
    while index < chars.len()
        invariant
            index <= chars@.len(),
            buffer@ == before + chars@.take(index as int),
        decreases chars@.len() - index,
    {
        assert(chars@.take(index + 1) =~= chars@.take(index as int).push(chars@[index as int]));
        buffer.push(chars[index]);
        index += 1;
    }
    assert(chars@.take(index as int) =~= chars@);
}

pub(crate) fn digit(value: usize) -> (c: char)
    requires
        value < 10,
    ensures
        c == spec_digit(value as nat),
{
    match value {
        0 => '0',
        1 => '1',
        2 => '2',
        3 => '3',
        4 => '4',
        5 => '5',
        6 => '6',
        7 => '7',
        8 => '8',
        _ => '9',
    }
}

pub(crate) fn decimal(n: usize) -> (digits: Vec<char>)
    ensures
        digits@ == spec_decimal(n as nat),
    decreases n,
{
    if n < 10 {
        let mut digits = Vec::new();
        digits.push(digit(n));
        assert(digits@ =~= spec_decimal(n as nat));
        digits
    } else {
        let mut digits = decimal(n / 10);
        digits.push(digit(n % 10));
        assert(digits@ =~= spec_decimal(n as nat));
        digits
    }
}

fn utf8_length(text: &Vec<char>) -> (length: usize)
    requires
        utf8_len(text@) <= usize::MAX,
    ensures
        length == utf8_len(text@),
{
    let mut length: usize = 0;
    let mut index: usize = 0;
    while index < text.len()
        invariant
            index <= text@.len(),
            length == utf8_len(text@.take(index as int)),
            utf8_len(text@) <= usize::MAX,
        decreases text@.len() - index,
    {
        let ghost prefix = text@.take(index + 1);
        assert(prefix.drop_last() =~= text@.take(index as int));
        proof {
            lemma_utf8_len_prefix(text@, index + 1);
        }
        let c = text[index];
        let width: usize = if (c as u32) < 0x80 {
            1
        } else if (c as u32) < 0x800 {
            2
        } else if (c as u32) < 0x10000 {
            3
        } else {
            4
        };
        length = length + width;
        index += 1;
    }
    assert(text@.take(index as int) =~= text@);
    length
}

proof fn lemma_utf8_len_prefix(text: Seq<char>, count: int)
    requires
        0 <= count <= text.len(),
    ensures
        utf8_len(text.take(count)) <= utf8_len(text),
    decreases text.len() - count,
{
    if count < text.len() {
        lemma_utf8_len_prefix(text, count + 1);
        assert(text.take(count + 1).drop_last() =~= text.take(count));
    } else {
        assert(text.take(count) =~= text);
    }
}

/// The name of `symbol`, escaped.
fn escape(interner: &Interner, symbol: Symbol) -> (escaped: Vec<char>)
    requires
        symbol.0 < interner@.len(),
    ensures
        escaped@ == spec_escaped(interner@, symbol),
{
    let name = interner.resolve(symbol);
    let count = name.unicode_len();
    let mut escaped: Vec<char> = Vec::new();
    let mut index: usize = 0;
    while index < count
        invariant
            count == name@.len(),
            index <= count,
            escaped@ == spec_escape(name@.take(index as int)),
        decreases count - index,
    {
        let ghost prefix = name@.take(index + 1);
        assert(prefix.drop_last() =~= name@.take(index as int));
        let c = name.get_char(index);
        assert(prefix.last() == c);
        if c == '\'' || c == '_' {
            escaped.push('_');
            escaped.push('_');
        } else {
            escaped.push(c);
        }
        index += 1;
        assert(escaped@ =~= spec_escape(name@.take(index as int)));
    }
    assert(name@.take(count as int) =~= name@);
    escaped
}

/// `o`, the byte length of the escaped name, and the escaped name.
fn push_class(buffer: &mut Vec<char>, interner: &Interner, class: Symbol)
    requires
        class.0 < interner@.len(),
        utf8_len(spec_escaped(interner@, class)) <= usize::MAX,
    ensures
        final(buffer)@ == old(buffer)@ + spec_type(interner@, ty::Model::Class(class)),
{
    let escaped = escape(interner, class);
    let length = utf8_length(&escaped);
    let digits = decimal(length);
    let ghost before = buffer@;
    buffer.push('o');
    push_chars(buffer, &digits);
    push_chars(buffer, &escaped);
    assert(buffer@ =~= before + spec_type(interner@, ty::Model::Class(class)));
}

/// The escaped names of classes fit in memory.
pub open spec fn fits(names: Seq<Seq<char>>) -> bool {
    forall|i: int| 0 <= i < names.len() ==> utf8_len(spec_escape(#[trigger] names[i])) <= usize::MAX
}

fn push_type(buffer: &mut Vec<char>, interner: &Interner, typ: &ty::Expression)
    requires
        mangleable(typ@),
        named(interner@, typ@),
        fits(interner@),
    ensures
        final(buffer)@ == old(buffer)@ + spec_type(interner@, typ@),
    decreases typ,
{
    let ghost before = buffer@;
    match typ {
        ty::Expression::Integer => buffer.push('i'),
        ty::Expression::Boolean => buffer.push('b'),
        ty::Expression::Class(class) => {
            assert(utf8_len(spec_escape(interner@[class.0 as int])) <= usize::MAX);
            push_class(buffer, interner, *class);
        },
        ty::Expression::Array(element) => {
            buffer.push('a');
            push_type(buffer, interner, element);
        },
        _ => {
            assert(false);
        },
    }
    assert(buffer@ =~= before + spec_type(interner@, typ@));
}

fn push_types(buffer: &mut Vec<char>, interner: &Interner, types: &Vec<ty::Expression>)
    requires
        all_mangleable(interner@, ty::models(types@)),
        fits(interner@),
    ensures
        final(buffer)@ == old(buffer)@ + spec_types(interner@, ty::models(types@)),
{
    let ghost before = buffer@;
    let ghost models = ty::models(types@);
    let mut index: usize = 0;
    assert(models.take(0) =~= Seq::<ty::Model>::empty());
    while index < types.len()
        invariant
            models == ty::models(types@),
            models.len() == types@.len(),
            all_mangleable(interner@, models),
            fits(interner@),
            index <= types@.len(),
            buffer@ == before + spec_types(interner@, models.take(index as int)),
        decreases types@.len() - index,
    {
        let ghost prefix = models.take(index + 1);
        assert(prefix.drop_last() =~= models.take(index as int));
        assert(prefix.last() == types@[index as int]@);
        assert(mangleable(models[index as int]) && named(interner@, models[index as int]));
        push_type(buffer, interner, &types[index]);
        index += 1;
        assert(buffer@ =~= before + spec_types(interner@, models.take(index as int)));
    }
    assert(models.take(index as int) =~= models);
}

fn push_function(
    buffer: &mut Vec<char>,
    interner: &Interner,
    name: Symbol,
    parameters: &Vec<ty::Expression>,
    returned: &Vec<ty::Expression>,
)
    requires
        name.0 < interner@.len(),
        all_mangleable(interner@, ty::models(parameters@)),
        all_mangleable(interner@, ty::models(returned@)),
        fits(interner@),
    ensures
        final(buffer)@ == old(buffer)@ + spec_function(interner@, name, ty::models(parameters@), ty::models(returned@)),
{
    let ghost before = buffer@;
    let escaped = escape(interner, name);
    push_chars(buffer, &escaped);
    buffer.push('_');
    let ghost middle = buffer@;
    let ghost results = ty::models(returned@);
    if returned.len() == 0 {
        buffer.push('p');
    } else if returned.len() == 1 {
        assert(results[0] == returned@[0]@);
        assert(mangleable(results[0]) && named(interner@, results[0]));
        push_type(buffer, interner, &returned[0]);
    } else {
        buffer.push('t');
        let digits = decimal(returned.len());
        push_chars(buffer, &digits);
        push_types(buffer, interner, returned);
    }
    push_types(buffer, interner, parameters);
    assert(buffer@ =~= before + spec_function(interner@, name, ty::models(parameters@), ty::models(returned@)));
}

fn intern_chars(interner: &mut Interner, chars: &Vec<char>) -> (symbol: Symbol)
    requires
        old(interner).wf(),
    ensures
        final(interner).wf(),
        interned(old(interner)@, final(interner)@, symbol, chars@),
{
    let string = string_from_chars(chars);
    interner.intern(string.as_str())
}

fn prefixed(interner: &mut Interner, prefix: &str, class: Symbol) -> (symbol: Symbol)
    requires
        old(interner).wf(),
        class.0 < old(interner)@.len(),
    ensures
        final(interner).wf(),
        interned(old(interner)@, final(interner)@, symbol, prefix@ + spec_escaped(old(interner)@, class)),
{
    let mut buffer: Vec<char> = Vec::new();
    push_str(&mut buffer, prefix);
    let escaped = escape(interner, class);
    push_chars(&mut buffer, &escaped);
    intern_chars(interner, &buffer)
}

/// The symbol of the global holding the size of `class`: `_I_size_` and its escaped name.
pub fn class_size(interner: &mut Interner, class: &Symbol) -> (symbol: Symbol)
    requires
        old(interner).wf(),
        class.0 < old(interner)@.len(),
    ensures
        final(interner).wf(),
        interned(old(interner)@, final(interner)@, symbol, "_I_size_"@ + spec_escaped(old(interner)@, *class)),
{
    prefixed(interner, "_I_size_", *class)
}

/// The symbol of the virtual table of `class`: `_I_vt_` and its escaped name.
pub fn class_virtual_table(interner: &mut Interner, class: &Symbol) -> (symbol: Symbol)
    requires
        old(interner).wf(),
        class.0 < old(interner)@.len(),
    ensures
        final(interner).wf(),
        interned(old(interner)@, final(interner)@, symbol, "_I_vt_"@ + spec_escaped(old(interner)@, *class)),
{
    prefixed(interner, "_I_vt_", *class)
}

/// The symbol of the initializer of `class`: `_I_init_` and its escaped name.
pub fn class_initialization(interner: &mut Interner, class: &Symbol) -> (symbol: Symbol)
    requires
        old(interner).wf(),
        class.0 < old(interner)@.len(),
    ensures
        final(interner).wf(),
        interned(old(interner)@, final(interner)@, symbol, "_I_init_"@ + spec_escaped(old(interner)@, *class)),
{
    prefixed(interner, "_I_init_", *class)
}

/// `_I_init_global`, then `_`, the escaped name and the type of each global.
pub open spec fn spec_global_initialization(names: Seq<Seq<char>>, globals: Seq<(Symbol, ty::Model)>) -> Seq<char>
    decreases globals.len(),
{
    if globals.len() == 0 {
        "_I_init_global"@
    } else {
        spec_global_initialization(names, globals.drop_last()) + seq!['_'] + spec_escaped(names, globals.last().0)
            + spec_type(names, globals.last().1)
    }
}

pub open spec fn global_models(globals: Seq<(Symbol, ty::Expression)>) -> Seq<(Symbol, ty::Model)> {
    globals.map_values(|global: (Symbol, ty::Expression)| (global.0, global.1@))
}

/// The symbol of the initializer of the globals, named after each of them.
pub fn global_initialization(interner: &mut Interner, initialization: &Vec<(Symbol, ty::Expression)>) -> (symbol: Symbol)
    requires
        old(interner).wf(),
        fits(old(interner)@),
        forall|i: int| 0 <= i < initialization@.len() ==> {
            &&& (#[trigger] initialization@[i]).0.0 < old(interner)@.len()
            &&& mangleable(initialization@[i].1@)
            &&& named(old(interner)@, initialization@[i].1@)
        },
    ensures
        final(interner).wf(),
        interned(
            old(interner)@,
            final(interner)@,
            symbol,
            spec_global_initialization(old(interner)@, global_models(initialization@)),
        ),
{
    let ghost globals = global_models(initialization@);
    let mut buffer: Vec<char> = Vec::new();
    proof {
        reveal_strlit("_I_init_global");
    }
    push_str(&mut buffer, "_I_init_global");
    let mut index: usize = 0;
    assert(globals.take(0) =~= Seq::<(Symbol, ty::Model)>::empty());
    while index < initialization.len()
        invariant
            globals == global_models(initialization@),
            fits(interner@),
            forall|i: int| 0 <= i < initialization@.len() ==> {
                &&& (#[trigger] initialization@[i]).0.0 < interner@.len()
                &&& mangleable(initialization@[i].1@)
                &&& named(interner@, initialization@[i].1@)
            },
            index <= initialization@.len(),
            buffer@ == spec_global_initialization(interner@, globals.take(index as int)),
        decreases initialization@.len() - index,
    {
        let ghost prefix = globals.take(index + 1);
        assert(prefix.drop_last() =~= globals.take(index as int));
        assert(prefix.last() == (initialization@[index as int].0, initialization@[index as int].1@));
        let ghost before = buffer@;
        buffer.push('_');
        let escaped = escape(interner, initialization[index].0);
        push_chars(&mut buffer, &escaped);
        push_type(&mut buffer, interner, &initialization[index].1);
        index += 1;
        assert(buffer@ =~= spec_global_initialization(interner@, globals.take(index as int)));
    }
    assert(globals.take(index as int) =~= globals);
    intern_chars(interner, &buffer)
}

/// The symbol of global `name` of type `typ`: `_I_global_`, its escaped name, `_` and the type.
pub fn global(interner: &mut Interner, name: &Symbol, typ: &ty::Expression) -> (symbol: Symbol)
    requires
        old(interner).wf(),
        fits(old(interner)@),
        name.0 < old(interner)@.len(),
        mangleable(typ@),
        named(old(interner)@, typ@),
    ensures
        final(interner).wf(),
        interned(
            old(interner)@,
            final(interner)@,
            symbol,
            "_I_global_"@ + spec_escaped(old(interner)@, *name) + seq!['_'] + spec_type(old(interner)@, typ@),
        ),
{
    let mut buffer: Vec<char> = Vec::new();
    push_str(&mut buffer, "_I_global_");
    let escaped = escape(interner, *name);
    push_chars(&mut buffer, &escaped);
    buffer.push('_');
    push_type(&mut buffer, interner, typ);
    assert(buffer@ =~= "_I_global_"@ + spec_escaped(interner@, *name) + seq!['_'] + spec_type(interner@, typ@));
    intern_chars(interner, &buffer)
}

/// The symbol of method `name` of `class`: `_I_`, the escaped class name, `_`,
/// then the mangled function.
pub fn method(
    interner: &mut Interner,
    class: &Symbol,
    name: &Symbol,
    parameters: &Vec<ty::Expression>,
    returned: &Vec<ty::Expression>,
) -> (symbol: Symbol)
    requires
        old(interner).wf(),
        fits(old(interner)@),
        class.0 < old(interner)@.len(),
        name.0 < old(interner)@.len(),
        all_mangleable(old(interner)@, ty::models(parameters@)),
        all_mangleable(old(interner)@, ty::models(returned@)),
    ensures
        final(interner).wf(),
        interned(
            old(interner)@,
            final(interner)@,
            symbol,
            "_I_"@ + spec_escaped(old(interner)@, *class) + seq!['_']
                + spec_function(old(interner)@, *name, ty::models(parameters@), ty::models(returned@)),
        ),
{
    let mut buffer: Vec<char> = Vec::new();
    push_str(&mut buffer, "_I_");
    let escaped = escape(interner, *class);
    push_chars(&mut buffer, &escaped);
    buffer.push('_');
    push_function(&mut buffer, interner, *name, parameters, returned);
    assert(buffer@ =~= "_I_"@ + spec_escaped(interner@, *class) + seq!['_']
        + spec_function(interner@, *name, ty::models(parameters@), ty::models(returned@)));
    intern_chars(interner, &buffer)
}

/// The symbol of function `name`: `_I` and the mangled function.
pub fn function(
    interner: &mut Interner,
    name: &Symbol,
    parameters: &Vec<ty::Expression>,
    returned: &Vec<ty::Expression>,
) -> (symbol: Symbol)
    requires
        old(interner).wf(),
        fits(old(interner)@),
        name.0 < old(interner)@.len(),
        all_mangleable(old(interner)@, ty::models(parameters@)),
        all_mangleable(old(interner)@, ty::models(returned@)),
    ensures
        final(interner).wf(),
        interned(
            old(interner)@,
            final(interner)@,
            symbol,
            "_I"@ + spec_function(old(interner)@, *name, ty::models(parameters@), ty::models(returned@)),
        ),
{
    let mut buffer: Vec<char> = Vec::new();
    push_str(&mut buffer, "_I");
    push_function(&mut buffer, interner, *name, parameters, returned);
    intern_chars(interner, &buffer)
}

/// An AST type: `i`, `b`, `a` before the element type, `o` with the byte length
/// and escaped name of a class, or the mangled template for a class with type
/// arguments.
pub open spec fn spec_type_ast<T>(names: Seq<Seq<char>>, typ: ast::Type<T>) -> Seq<char>
    decreases typ, 0nat,
{
    match typ {
        ast::Type::Int(_) => seq!['i'],
        ast::Type::Bool(_) => seq!['b'],
        ast::Type::Class(variable) => match variable.generics {
            None => seq!['o'] + spec_decimal(utf8_len(spec_escaped(names, variable.name.symbol)))
                + spec_escaped(names, variable.name.symbol),
            Some(generics) => spec_template(names, variable.name.symbol, generics@),
        },
        ast::Type::Array(element, _, _) => seq!['a'] + spec_type_ast(names, *element),
    }
}

/// `t`, the byte length and escaped name of the template, the number of type
/// arguments, then each type argument.
pub open spec fn spec_template<T>(names: Seq<Seq<char>>, name: Symbol, generics: Seq<ast::Type<T>>) -> Seq<char>
    decreases generics, generics.len() + 1,
{
    seq!['t'] + spec_decimal(utf8_len(spec_escaped(names, name))) + spec_escaped(names, name)
        + spec_decimal(generics.len()) + spec_generics(names, generics, generics.len())
}

/// The first `count` type arguments; one that is itself a template
/// instantiation is prefixed by `o` and its byte length, so that mangling it
/// first and using the result as a class name gives the same text.
pub open spec fn spec_generics<T>(names: Seq<Seq<char>>, generics: Seq<ast::Type<T>>, count: nat) -> Seq<char>
    decreases generics, count,
{
    if count == 0 || count > generics.len() {
        seq![]
    } else {
        let generic = generics[count - 1];
        spec_generics(names, generics, (count - 1) as nat) + if generic matches ast::Type::Class(variable) && variable.generics is Some {
            seq!['o'] + spec_decimal(utf8_len(spec_type_ast(names, generic))) + spec_type_ast(names, generic)
        } else {
            spec_type_ast(names, generic)
        }
    }
}

/// Every class and template name in `typ` is interned in `names`.
pub open spec fn named_ast<T>(names: Seq<Seq<char>>, typ: ast::Type<T>) -> bool
    decreases typ, 0nat,
{
    match typ {
        ast::Type::Int(_) | ast::Type::Bool(_) => true,
        ast::Type::Class(variable) => variable.name.symbol.0 < names.len() && match variable.generics {
            None => true,
            Some(generics) => named_generics(names, generics@, generics@.len()),
        },
        ast::Type::Array(element, _, _) => named_ast(names, *element),
    }
}

pub open spec fn named_generics<T>(names: Seq<Seq<char>>, generics: Seq<ast::Type<T>>, count: nat) -> bool
    decreases generics, count,
{
    if count == 0 || count > generics.len() {
        true
    } else {
        named_generics(names, generics, (count - 1) as nat) && named_ast(names, generics[count - 1])
    }
}

/// The mangled text of AST types fits in memory: its byte length is a `usize`.
pub open spec fn small<T>(names: Seq<Seq<char>>, typ: ast::Type<T>) -> bool
    decreases typ, 0nat,
{
    utf8_len(spec_type_ast(names, typ)) <= usize::MAX && match typ {
        ast::Type::Class(variable) => match variable.generics {
            None => true,
            Some(generics) => small_generics(names, generics@, generics@.len()),
        },
        ast::Type::Array(element, _, _) => small(names, *element),
        _ => true,
    }
}

pub open spec fn small_generics<T>(names: Seq<Seq<char>>, generics: Seq<ast::Type<T>>, count: nat) -> bool
    decreases generics, count,
{
    if count == 0 || count > generics.len() {
        true
    } else {
        small_generics(names, generics, (count - 1) as nat) && small(names, generics[count - 1])
    }
}

proof fn lemma_generics_prefix<T>(names: Seq<Seq<char>>, generics: Seq<ast::Type<T>>, index: nat, count: nat)
    requires
        index < count <= generics.len(),
        named_generics(names, generics, count),
        small_generics(names, generics, count),
    ensures
        named_ast(names, generics[index as int]),
        small(names, generics[index as int]),
    decreases count,
{
    if index < count - 1 {
        lemma_generics_prefix(names, generics, index, (count - 1) as nat);
    }
}

fn push_type_ast<T>(buffer: &mut Vec<char>, interner: &Interner, typ: &ast::Type<T>)
    requires
        fits(interner@),
        named_ast(interner@, *typ),
        small(interner@, *typ),
    ensures
        final(buffer)@ == old(buffer)@ + spec_type_ast(interner@, *typ),
    decreases typ, 0nat,
{
    let ghost before = buffer@;
    match typ {
        ast::Type::Int(_) => buffer.push('i'),
        ast::Type::Bool(_) => buffer.push('b'),
        ast::Type::Class(variable) => match &variable.generics {
            None => {
                let class = variable.name.symbol;
                assert(utf8_len(spec_escape(interner@[class.0 as int])) <= usize::MAX);
                push_class(buffer, interner, class);
            },
            Some(generics) => {
                proof {
                    assert(decreases_to!(*typ => (*typ)->Class_0));
                    assert(decreases_to!((*typ)->Class_0 => (*typ)->Class_0.generics));
                    assert(decreases_to!((*typ)->Class_0.generics => (*typ)->Class_0.generics->Some_0));
                    assert(decreases_to!((*typ)->Class_0.generics->Some_0 => (*typ)->Class_0.generics->Some_0@));
                }
                push_template(buffer, interner, variable.name.symbol, generics);
            },
        },
        ast::Type::Array(element, _, _) => {
            buffer.push('a');
            push_type_ast(buffer, interner, element);
        },
    }
    assert(buffer@ =~= before + spec_type_ast(interner@, *typ));
}

fn push_template<T>(buffer: &mut Vec<char>, interner: &Interner, name: Symbol, generics: &Vec<ast::Type<T>>)
    requires
        fits(interner@),
        name.0 < interner@.len(),
        named_generics(interner@, generics@, generics@.len()),
        small_generics(interner@, generics@, generics@.len()),
    ensures
        final(buffer)@ == old(buffer)@ + spec_template(interner@, name, generics@),
    decreases generics@, generics@.len() + 1,
{
    let ghost before = buffer@;
    buffer.push('t');
    let escaped = escape(interner, name);
    assert(utf8_len(spec_escape(interner@[name.0 as int])) <= usize::MAX);
    let length = utf8_length(&escaped);
    let digits = decimal(length);
    push_chars(buffer, &digits);
    push_chars(buffer, &escaped);
    let count = decimal(generics.len());
    push_chars(buffer, &count);
    let ghost header = buffer@;
    let mut index: usize = 0;
    while index < generics.len()
        invariant
            fits(interner@),
            named_generics(interner@, generics@, generics@.len()),
            small_generics(interner@, generics@, generics@.len()),
            index <= generics@.len(),
            buffer@ == header + spec_generics(interner@, generics@, index as nat),
        decreases generics@.len() - index,
    {
        proof {
            lemma_generics_prefix(interner@, generics@, index as nat, generics@.len());
        }
        let generic = &generics[index];
        let ghost prior = buffer@;
        let nested = match generic {
            ast::Type::Class(variable) => variable.generics.is_some(),
            _ => false,
        };
        if nested {
            let mut inner: Vec<char> = Vec::new();
            push_type_ast(&mut inner, interner, generic);
            assert(inner@ =~= spec_type_ast(interner@, generics@[index as int]));
            let length = utf8_length(&inner);
            let digits = decimal(length);
            buffer.push('o');
            push_chars(buffer, &digits);
            push_chars(buffer, &inner);
        } else {
            push_type_ast(buffer, interner, generic);
        }
        index += 1;
        assert(buffer@ =~= header + spec_generics(interner@, generics@, index as nat));
    }
    assert(buffer@ =~= before + spec_template(interner@, name, generics@));
}

/// The symbol of the instantiation of template `name` with `generics`.
pub fn template<T>(interner: &mut Interner, name: &Symbol, generics: &Vec<ast::Type<T>>) -> (symbol: Symbol)
    requires
        old(interner).wf(),
        fits(old(interner)@),
        name.0 < old(interner)@.len(),
        named_generics(old(interner)@, generics@, generics@.len()),
        small_generics(old(interner)@, generics@, generics@.len()),
    ensures
        final(interner).wf(),
        interned(old(interner)@, final(interner)@, symbol, spec_template(old(interner)@, *name, generics@)),
{
    let mut buffer: Vec<char> = Vec::new();
    push_template(&mut buffer, interner, *name, generics);
    assert(buffer@ =~= spec_template(interner@, *name, generics@));
    intern_chars(interner, &buffer)
}

/// No `_` or `'` occurs in `text`: escaping leaves it as it is.
pub open spec fn clean(text: Seq<char>) -> bool {
    forall|i: int| 0 <= i < text.len() ==> #[trigger] text[i] != '_' && text[i] != '\''
}

/// Every class and template name in `typ` is interned in `names`, and none
/// holds `_` or `'`.
pub open spec fn clean_ast<T>(names: Seq<Seq<char>>, typ: ast::Type<T>) -> bool
    decreases typ, 0nat,
{
    match typ {
        ast::Type::Int(_) | ast::Type::Bool(_) => true,
        ast::Type::Class(variable) => variable.name.symbol.0 < names.len() && clean(names[variable.name.symbol.0 as int])
            && match variable.generics {
            None => true,
            Some(generics) => clean_generics(names, generics@, generics@.len()),
        },
        ast::Type::Array(element, _, _) => clean_ast(names, *element),
    }
}

pub open spec fn clean_generics<T>(names: Seq<Seq<char>>, generics: Seq<ast::Type<T>>, count: nat) -> bool
    decreases generics, count,
{
    if count == 0 || count > generics.len() {
        true
    } else {
        clean_generics(names, generics, (count - 1) as nat) && clean_ast(names, generics[count - 1])
    }
}

proof fn lemma_clean_append(first: Seq<char>, second: Seq<char>)
    requires
        clean(first),
        clean(second),
    ensures
        clean(first + second),
{
    assert forall|i: int| 0 <= i < (first + second).len() implies #[trigger] (first + second)[i] != '_'
        && (first + second)[i] != '\'' by {
        if i < first.len() {
            assert((first + second)[i] == first[i]);
        } else {
            assert((first + second)[i] == second[i - first.len()]);
        }
    }
}

proof fn lemma_escape_clean(text: Seq<char>)
    requires
        clean(text),
    ensures
        spec_escape(text) == text,
    decreases text.len(),
{
    if text.len() > 0 {
        assert(text.last() == text[text.len() - 1]);
        lemma_escape_clean(text.drop_last());
        assert(spec_escape(text) =~= text);
    }
}

proof fn lemma_decimal_clean(n: nat)
    ensures
        clean(spec_decimal(n)),
    decreases n,
{
    if n >= 10 {
        lemma_decimal_clean(n / 10);
        lemma_clean_append(spec_decimal(n / 10), seq![spec_digit(n % 10)]);
    }
}

proof fn lemma_type_ast_clean<T>(names: Seq<Seq<char>>, typ: ast::Type<T>)
    requires
        clean_ast(names, typ),
    ensures
        clean(spec_type_ast(names, typ)),
    decreases typ, 0nat,
{
    match typ {
        ast::Type::Class(variable) => match variable.generics {
            None => {
                let name = names[variable.name.symbol.0 as int];
                assert(clean(name));
                lemma_escape_clean(name);
                let escaped = spec_escaped(names, variable.name.symbol);
                lemma_decimal_clean(utf8_len(escaped));
                lemma_clean_append(seq!['o'], spec_decimal(utf8_len(escaped)));
                lemma_clean_append(seq!['o'] + spec_decimal(utf8_len(escaped)), escaped);
            },
            Some(generics) => {
                lemma_template_clean(names, variable.name.symbol, generics@);
            },
        },
        ast::Type::Array(element, _, _) => {
            lemma_type_ast_clean(names, *element);
            lemma_clean_append(seq!['a'], spec_type_ast(names, *element));
        },
        _ => {},
    }
}

proof fn lemma_template_clean<T>(names: Seq<Seq<char>>, name: Symbol, generics: Seq<ast::Type<T>>)
    requires
        name.0 < names.len(),
        clean(names[name.0 as int]),
        clean_generics(names, generics, generics.len()),
    ensures
        clean(spec_template(names, name, generics)),
    decreases generics, generics.len() + 1,
{
    let escaped = spec_escaped(names, name);
    assert(clean(names[name.0 as int]));
    lemma_escape_clean(names[name.0 as int]);
    lemma_decimal_clean(utf8_len(escaped));
    lemma_decimal_clean(generics.len());
    lemma_generics_clean(names, generics, generics.len());
    let a = seq!['t'] + spec_decimal(utf8_len(escaped));
    lemma_clean_append(seq!['t'], spec_decimal(utf8_len(escaped)));
    lemma_clean_append(a, escaped);
    lemma_clean_append(a + escaped, spec_decimal(generics.len()));
    lemma_clean_append(a + escaped + spec_decimal(generics.len()), spec_generics(names, generics, generics.len()));
}

proof fn lemma_generics_clean<T>(names: Seq<Seq<char>>, generics: Seq<ast::Type<T>>, count: nat)
    requires
        clean_generics(names, generics, count),
    ensures
        clean(spec_generics(names, generics, count)),
    decreases generics, count,
{
    if count > 0 && count <= generics.len() {
        let generic = generics[count - 1];
        lemma_generics_clean(names, generics, (count - 1) as nat);
        lemma_type_ast_clean(names, generic);
        let mangled = spec_type_ast(names, generic);
        if generic matches ast::Type::Class(variable) && variable.generics is Some {
            lemma_decimal_clean(utf8_len(mangled));
            lemma_clean_append(seq!['o'], spec_decimal(utf8_len(mangled)));
            lemma_clean_append(seq!['o'] + spec_decimal(utf8_len(mangled)), mangled);
            lemma_clean_append(
                spec_generics(names, generics, (count - 1) as nat),
                seq!['o'] + spec_decimal(utf8_len(mangled)) + mangled,
            );
        } else {
            lemma_clean_append(spec_generics(names, generics, (count - 1) as nat), mangled);
        }
    }
}

/// Mangling a nested template instantiation on its own first, and then using
/// the result as a plain class name, gives the same text as mangling it within
/// the enclosing instantiation, as long as no name in `nested` holds `_` or
/// `'` (which escaping would double a second time).
pub proof fn lemma_mangling_in_steps<T>(names: Seq<Seq<char>>, nested: ast::Type<T>, step: ast::Type<T>)
    requires
        clean_ast(names, nested),
        nested matches ast::Type::Class(variable) && variable.generics is Some,
        step matches ast::Type::Class(variable) && variable.generics is None && variable.name.symbol.0 < names.len()
            && names[variable.name.symbol.0 as int] == spec_type_ast(names, nested),
    ensures
        spec_generics(names, seq![nested], 1) == spec_type_ast(names, step),
{
    lemma_type_ast_clean(names, nested);
    lemma_escape_clean(spec_type_ast(names, nested));
    assert(seq![nested][0] == nested);
    assert(spec_generics(names, seq![nested], 0) == Seq::<char>::empty());
    assert(spec_generics(names, seq![nested], 1) =~= spec_type_ast(names, step));
}

/// `step` is the nested template instantiation `nested` mangled on its own
/// first: a plain class whose interned name is the mangled text of `nested`,
/// in which no name holds `_` or `'`.
pub open spec fn stepped<T>(names: Seq<Seq<char>>, nested: ast::Type<T>, step: ast::Type<T>) -> bool {
    &&& clean_ast(names, nested)
    &&& nested is Class && nested->Class_0.generics is Some
    &&& step is Class && step->Class_0.generics is None
    &&& step->Class_0.name.symbol.0 < names.len()
    &&& names[step->Class_0.name.symbol.0 as int] == spec_type_ast(names, nested)
}

/// `steps` is `generics` with any of its nested template instantiations
/// mangled on their own first (see [`stepped`]).
pub open spec fn mangled_in_steps<T>(names: Seq<Seq<char>>, generics: Seq<ast::Type<T>>, steps: Seq<ast::Type<T>>) -> bool {
    &&& steps.len() == generics.len()
    &&& forall|i: int| 0 <= i < generics.len() ==> #[trigger] steps[i] == generics[i] || stepped(names, generics[i], steps[i])
}

/// Mangling a template instantiation whose type arguments were mangled step
/// by step, each nested instantiation on its own first, gives the same text as
/// mangling it all at once, as long as no name in the nested instantiations
/// holds `_` or `'`.
pub proof fn lemma_template_in_steps<T>(
    names: Seq<Seq<char>>,
    name: Symbol,
    generics: Seq<ast::Type<T>>,
    steps: Seq<ast::Type<T>>,
)
    requires
        mangled_in_steps(names, generics, steps),
    ensures
        spec_template(names, name, generics) == spec_template(names, name, steps),
{
    lemma_generics_in_steps(names, generics, steps, generics.len());
}

proof fn lemma_generics_in_steps<T>(
    names: Seq<Seq<char>>,
    generics: Seq<ast::Type<T>>,
    steps: Seq<ast::Type<T>>,
    count: nat,
)
    requires
        mangled_in_steps(names, generics, steps),
        count <= generics.len(),
    ensures
        spec_generics(names, generics, count) == spec_generics(names, steps, count),
    decreases count,
{
    if count > 0 {
        lemma_generics_in_steps(names, generics, steps, (count - 1) as nat);
        let generic = generics[count - 1];
        let step = steps[count - 1];
        if step != generic {
            assert(stepped(names, generic, step));
            lemma_mangling_in_steps(names, generic, step);
            assert(seq![generic][0] == generic);
            assert(spec_generics(names, seq![generic], 0) == Seq::<char>::empty());
            assert(spec_generics(names, seq![generic], 1) =~= Seq::<char>::empty() + (seq!['o'] + spec_decimal(
                utf8_len(spec_type_ast(names, generic)),
            ) + spec_type_ast(names, generic)));
        }
    }
}

} // verus!

//! Intel-syntax text of allocated assembly.

use vstd::prelude::*;

use crate::abi::mangle::decimal;
use crate::assemble::machine::compare_flags;
use crate::assemble::machine::jump_taken;
use crate::assemble::machine::lemma_compare_flags;
use crate::assemble::machine::unsigned;
use crate::abi::mangle::digit;
use crate::abi::mangle::spec_decimal;
use crate::check::message::around;
use crate::check::message::name;
use crate::check::message::name_text;
use crate::check::message::prefixed;
use crate::check::message::suffixed;
use crate::data::assembly;
use crate::data::ir;
use crate::data::operand::Binary;
use crate::data::operand::Immediate;
use crate::data::operand::Label;
use crate::data::operand::Memory;
use crate::data::operand::Register;
use crate::data::operand::Scale;
use crate::data::operand::Unary;
use crate::data::symbol::string_from_chars;
use crate::data::symbol::Interner;
use crate::data::symbol::Symbol;

verus! {

/// The name of a register; the stack pointer placeholder prints as `rbp`.
pub open spec fn register_text(register: Register) -> Seq<char> {
    match register {
        Register::Rax => "rax"@,
        Register::Rbx => "rbx"@,
        Register::Rcx => "rcx"@,
        Register::Rdx => "rdx"@,
        Register::Rbp => "rbp"@,
        Register::Rsp(true) => "rsp"@,
        Register::Rsp(false) => "rbp"@,
        Register::Rsi => "rsi"@,
        Register::Rdi => "rdi"@,
        Register::R8 => "r8"@,
        Register::R9 => "r9"@,
        Register::R10 => "r10"@,
        Register::R11 => "r11"@,
        Register::R12 => "r12"@,
        Register::R13 => "r13"@,
        Register::R14 => "r14"@,
        Register::R15 => "r15"@,
    }
}

/// A signed decimal integer.
pub open spec fn integer_text(integer: i64) -> Seq<char> {
    if integer < 0 {
        seq!['-'] + spec_decimal((0 - integer) as nat)
    } else {
        spec_decimal(integer as nat)
    }
}

/// A label: its name, then its number if it is fresh.
pub open spec fn label_text(names: Seq<Seq<char>>, label: Label) -> Seq<char> {
    match label {
        Label::Fixed(label) => name_text(names, label),
        Label::Fresh(label, index) => name_text(names, label) + spec_decimal(index as nat),
    }
}

pub open spec fn immediate_text(names: Seq<Seq<char>>, immediate: Immediate) -> Seq<char> {
    match immediate {
        Immediate::Integer(integer) => integer_text(integer),
        Immediate::Label(label) => label_text(names, label),
    }
}

/// An immediate source operand: a label stands for its address.
pub open spec fn source_text(names: Seq<Seq<char>>, immediate: Immediate) -> Seq<char> {
    match immediate {
        Immediate::Integer(integer) => integer_text(integer),
        Immediate::Label(label) => "offset "@ + label_text(names, label),
    }
}

pub open spec fn scale_text(scale: Scale) -> Seq<char> {
    match scale {
        Scale::_1 => "1"@,
        Scale::_2 => "2"@,
        Scale::_4 => "4"@,
        Scale::_8 => "8"@,
    }
}

/// An addressing mode in brackets.
pub open spec fn memory_text(names: Seq<Seq<char>>, memory: Memory<Register>) -> Seq<char> {
    "["@ + match memory {
        Memory::B { base } => register_text(base),
        Memory::O { offset } => immediate_text(names, offset),
        Memory::BI { base, index } => register_text(base) + " + "@ + register_text(index),
        Memory::BO { base, offset } => register_text(base) + " + "@ + immediate_text(names, offset),
        Memory::BIO { base, index, offset } => register_text(base) + " + "@ + register_text(index) + " + "@
            + immediate_text(names, offset),
        Memory::BIS { base, index, scale } => register_text(base) + " + "@ + register_text(index) + " * "@ + scale_text(
            scale,
        ),
        Memory::ISO { index, scale, offset } => register_text(index) + " * "@ + scale_text(scale) + " + "@
            + immediate_text(names, offset),
        Memory::BISO { base, index, scale, offset } => register_text(base) + " + "@ + register_text(index) + " * "@
            + scale_text(scale) + " + "@ + immediate_text(names, offset),
    } + "]"@
}

pub open spec fn binary_operands_text(names: Seq<Seq<char>>, operands: Binary<Register>) -> Seq<char> {
    match operands {
        Binary::RI { destination, source } => register_text(destination) + ", "@ + source_text(names, source),
        Binary::MI { destination, source } => "qword ptr "@ + memory_text(names, destination) + ", "@ + source_text(
            names,
            source,
        ),
        Binary::MR { destination, source } => memory_text(names, destination) + ", "@ + register_text(source),
        Binary::RM { destination, source } => register_text(destination) + ", "@ + memory_text(names, source),
        Binary::RR { destination, source } => register_text(destination) + ", "@ + register_text(source),
    }
}

pub open spec fn unary_operand_text(names: Seq<Seq<char>>, operand: Unary<Register>) -> Seq<char> {
    match operand {
        Unary::I(immediate) => immediate_text(names, immediate),
        Unary::R(register) => register_text(register),
        Unary::M(memory) => "qword ptr "@ + memory_text(names, memory),
    }
}

pub open spec fn binary_name(binary: assembly::Binary) -> Seq<char> {
    match binary {
        assembly::Binary::Add => "add"@,
        assembly::Binary::Sub => "sub"@,
        assembly::Binary::Mul => "imul"@,
        assembly::Binary::And => "and"@,
        assembly::Binary::Or => "or"@,
        assembly::Binary::Xor => "xor"@,
        assembly::Binary::Cmp => "cmp"@,
        assembly::Binary::Mov => "mov"@,
        assembly::Binary::Lea => "lea"@,
        assembly::Binary::Shl => "shl"@,
    }
}

pub open spec fn unary_name(unary: assembly::Unary) -> Seq<char> {
    match unary {
        assembly::Unary::Neg => "neg"@,
        assembly::Unary::Call { .. } => "call"@,
        assembly::Unary::Hul => "imul"@,
        assembly::Unary::Div | assembly::Unary::Mod => "idiv"@,
        assembly::Unary::Push => "push"@,
        assembly::Unary::Pop => "pop"@,
    }
}

pub open spec fn condition_name(condition: assembly::Condition) -> Seq<char> {
    match condition {
        assembly::Condition::L => "l"@,
        assembly::Condition::Le => "le"@,
        assembly::Condition::Ge => "ge"@,
        assembly::Condition::G => "g"@,
        assembly::Condition::Ne => "ne"@,
        assembly::Condition::E => "e"@,
        assembly::Condition::Ae => "ae"@,
    }
}

/// One statement in Intel syntax.
pub open spec fn statement_text(names: Seq<Seq<char>>, statement: assembly::Statement<Register>) -> Seq<char> {
    match statement {
        assembly::Statement::Binary(binary, operands) => binary_name(binary) + " "@ + binary_operands_text(names, operands),
        assembly::Statement::Unary(unary, operand) => unary_name(unary) + " "@ + unary_operand_text(names, operand),
        assembly::Statement::Nullary(assembly::Nullary::Nop) => "nop"@,
        assembly::Statement::Nullary(assembly::Nullary::Cqo) => "cqo"@,
        assembly::Statement::Nullary(assembly::Nullary::Ret(_)) => "ret"@,
        assembly::Statement::Label(label) => label_text(names, label) + ":"@,
        assembly::Statement::Jmp(label) => "jmp "@ + label_text(names, label),
        assembly::Statement::Jcc(condition, label) => "j"@ + condition_name(condition) + " "@ + label_text(names, label),
    }
}

/// A line of a function: labels flush left, instructions indented.
pub open spec fn line_text(names: Seq<Seq<char>>, statement: assembly::Statement<Register>) -> Seq<char> {
    (if statement is Label {
        Seq::empty()
    } else {
        "  "@
    }) + statement_text(names, statement) + "\n"@
}

/// The lines of the statements of `statements` after the first, up to `count`.
pub open spec fn lines_text(names: Seq<Seq<char>>, statements: Seq<assembly::Statement<Register>>, count: nat) -> Seq<char>
    decreases count,
{
    if count <= 1 || count > statements.len() {
        Seq::empty()
    } else {
        lines_text(names, statements, (count - 1) as nat) + line_text(names, statements[count - 1])
    }
}

/// A function: its name, then a line for each statement after its entry label.
pub open spec fn function_text(names: Seq<Seq<char>>, function: assembly::Function<Register>) -> Seq<char> {
    name_text(names, function.name) + ":\n"@ + lines_text(names, function.statements@, function.statements@.len())
}

fn decimal_u64(n: u64) -> (digits: Vec<char>)
    ensures
        digits@ == spec_decimal(n as nat),
    decreases n,
{
    if n < 10 {
        let mut digits = Vec::new();
        digits.push(digit(n as usize));
        assert(digits@ =~= spec_decimal(n as nat));
        digits
    } else {
        let mut digits = decimal_u64(n / 10);
        digits.push(digit((n % 10) as usize));
        assert(digits@ =~= spec_decimal(n as nat));
        digits
    }
}

/// A signed decimal integer (see [`integer_text`]).
pub fn integer(value: i64) -> (text: String)
    ensures
        text@ == integer_text(value),
{
    if value < 0 {
        let magnitude: u64 = if value == i64::MIN {
            9223372036854775808u64
        } else {
            (0 - value) as u64
        };
        assert(magnitude == 0 - value);
        proof {
            reveal_strlit("-");
            assert("-"@ =~= seq!['-']);
        }
        prefixed("-", string_from_chars(&decimal_u64(magnitude)))
    } else {
        string_from_chars(&decimal_u64(value as u64))
    }
}

/// The name of a register (see [`register_text`]).
pub fn register(which: Register) -> (text: &'static str)
    ensures
        text@ == register_text(which),
{
    match which {
        Register::Rax => "rax",
        Register::Rbx => "rbx",
        Register::Rcx => "rcx",
        Register::Rdx => "rdx",
        Register::Rbp => "rbp",
        Register::Rsp(true) => "rsp",
        Register::Rsp(false) => "rbp",
        Register::Rsi => "rsi",
        Register::Rdi => "rdi",
        Register::R8 => "r8",
        Register::R9 => "r9",
        Register::R10 => "r10",
        Register::R11 => "r11",
        Register::R12 => "r12",
        Register::R13 => "r13",
        Register::R14 => "r14",
        Register::R15 => "r15",
    }
}

/// A label (see [`label_text`]).
pub fn label(interner: &Interner, target: Label) -> (text: String)
    ensures
        text@ == label_text(interner@, target),
{
    match target {
        Label::Fixed(symbol) => name(interner, symbol),
        Label::Fresh(symbol, index) => {
            let mut text = name(interner, symbol);
            text.append(string_from_chars(&decimal_u64(index as u64)).as_str());
            text
        },
    }
}

fn immediate(interner: &Interner, value: Immediate) -> (text: String)
    ensures
        text@ == immediate_text(interner@, value),
{
    match value {
        Immediate::Integer(value) => integer(value),
        Immediate::Label(target) => label(interner, target),
    }
}

fn source(interner: &Interner, operand: Immediate) -> (text: String)
    ensures
        text@ == source_text(interner@, operand),
{
    match operand {
        Immediate::Integer(value) => integer(value),
        Immediate::Label(target) => prefixed("offset ", label(interner, target)),
    }
}

fn scale(factor: Scale) -> (text: &'static str)
    ensures
        text@ == scale_text(factor),
{
    match factor {
        Scale::_1 => "1",
        Scale::_2 => "2",
        Scale::_4 => "4",
        Scale::_8 => "8",
    }
}

/// `text`, then `separator` and `next`.
fn then(text: String, separator: &str, next: &str) -> (joined: String)
    ensures
        joined@ == text@ + separator@ + next@,
{
    let mut joined = text;
    joined.append(separator);
    joined.append(next);
    joined
}

/// An addressing mode in brackets (see [`memory_text`]).
pub fn memory(interner: &Interner, address: &Memory<Register>) -> (text: String)
    ensures
        text@ == memory_text(interner@, *address),
{
    let inner = match address {
        Memory::B { base } => String::from_str(register(*base)),
        Memory::O { offset } => immediate(interner, *offset),
        Memory::BI { base, index } => then(String::from_str(register(*base)), " + ", register(*index)),
        Memory::BO { base, offset } => then(
            String::from_str(register(*base)),
            " + ",
            immediate(interner, *offset).as_str(),
        ),
        Memory::BIO { base, index, offset } => then(
            then(String::from_str(register(*base)), " + ", register(*index)),
            " + ",
            immediate(interner, *offset).as_str(),
        ),
        Memory::BIS { base, index, scale: factor } => then(
            then(String::from_str(register(*base)), " + ", register(*index)),
            " * ",
            scale(*factor),
        ),
        Memory::ISO { index, scale: factor, offset } => then(
            then(String::from_str(register(*index)), " * ", scale(*factor)),
            " + ",
            immediate(interner, *offset).as_str(),
        ),
        Memory::BISO { base, index, scale: factor, offset } => then(
            then(then(String::from_str(register(*base)), " + ", register(*index)), " * ", scale(*factor)),
            " + ",
            immediate(interner, *offset).as_str(),
        ),
    };
    around("[", inner, "]")
}

fn binary_operands(interner: &Interner, operands: &Binary<Register>) -> (text: String)
    ensures
        text@ == binary_operands_text(interner@, *operands),
{
    match operands {
        Binary::RI { destination, source: value } => then(
            String::from_str(register(*destination)),
            ", ",
            source(interner, *value).as_str(),
        ),
        Binary::MI { destination, source: value } => then(
            prefixed("qword ptr ", memory(interner, destination)),
            ", ",
            source(interner, *value).as_str(),
        ),
        Binary::MR { destination, source: value } => then(memory(interner, destination), ", ", register(*value)),
        Binary::RM { destination, source: value } => then(
            String::from_str(register(*destination)),
            ", ",
            memory(interner, value).as_str(),
        ),
        Binary::RR { destination, source: value } => then(String::from_str(register(*destination)), ", ", register(*value)),
    }
}

fn unary_operand(interner: &Interner, operand: &Unary<Register>) -> (text: String)
    ensures
        text@ == unary_operand_text(interner@, *operand),
{
    match operand {
        Unary::I(value) => immediate(interner, *value),
        Unary::R(value) => String::from_str(register(*value)),
        Unary::M(value) => prefixed("qword ptr ", memory(interner, value)),
    }
}

fn binary_instruction(binary: assembly::Binary) -> (text: &'static str)
    ensures
        text@ == binary_name(binary),
{
    match binary {
        assembly::Binary::Add => "add",
        assembly::Binary::Sub => "sub",
        assembly::Binary::Mul => "imul",
        assembly::Binary::And => "and",
        assembly::Binary::Or => "or",
        assembly::Binary::Xor => "xor",
        assembly::Binary::Cmp => "cmp",
        assembly::Binary::Mov => "mov",
        assembly::Binary::Lea => "lea",
        assembly::Binary::Shl => "shl",
    }
}

fn unary_instruction(unary: assembly::Unary) -> (text: &'static str)
    ensures
        text@ == unary_name(unary),
{
    match unary {
        assembly::Unary::Neg => "neg",
        assembly::Unary::Call { .. } => "call",
        assembly::Unary::Hul => "imul",
        assembly::Unary::Div | assembly::Unary::Mod => "idiv",
        assembly::Unary::Push => "push",
        assembly::Unary::Pop => "pop",
    }
}

fn condition(jump: assembly::Condition) -> (text: &'static str)
    ensures
        text@ == condition_name(jump),
{
    match jump {
        assembly::Condition::L => "l",
        assembly::Condition::Le => "le",
        assembly::Condition::Ge => "ge",
        assembly::Condition::G => "g",
        assembly::Condition::Ne => "ne",
        assembly::Condition::E => "e",
        assembly::Condition::Ae => "ae",
    }
}

/// One statement in Intel syntax (see [`statement_text`]).
pub fn statement(interner: &Interner, each: &assembly::Statement<Register>) -> (text: String)
    ensures
        text@ == statement_text(interner@, *each),
{
    match each {
        assembly::Statement::Binary(binary, operands) => then(
            String::from_str(binary_instruction(*binary)),
            " ",
            binary_operands(interner, operands).as_str(),
        ),
        assembly::Statement::Unary(unary, operand) => then(
            String::from_str(unary_instruction(*unary)),
            " ",
            unary_operand(interner, operand).as_str(),
        ),
        assembly::Statement::Nullary(assembly::Nullary::Nop) => String::from_str("nop"),
        assembly::Statement::Nullary(assembly::Nullary::Cqo) => String::from_str("cqo"),
        assembly::Statement::Nullary(assembly::Nullary::Ret(_)) => String::from_str("ret"),
        assembly::Statement::Label(target) => suffixed(label(interner, *target), ":"),
        assembly::Statement::Jmp(target) => prefixed("jmp ", label(interner, *target)),
        assembly::Statement::Jcc(jump, target) => then(
            prefixed("j", String::from_str(condition(*jump))),
            " ",
            label(interner, *target).as_str(),
        ),
    }
}

/// A function in Intel syntax (see [`function_text`]): its name, then each
/// statement after the entry label, labels flush left and instructions
/// indented.
pub fn function(interner: &Interner, tiled: &assembly::Function<Register>) -> (text: String)
    requires
        tiled.statements@.len() > 0,
        tiled.statements@[0] == assembly::Statement::<Register>::Label(tiled.enter),
    ensures
        text@ == function_text(interner@, *tiled),
{
    let mut text = suffixed(name(interner, tiled.name), ":\n");
    let ghost head = text@;
    let mut index: usize = 1;
    while index < tiled.statements.len()
        invariant
            1 <= index <= tiled.statements@.len(),
            text@ == head + lines_text(interner@, tiled.statements@, index as nat),
        decreases tiled.statements@.len() - index,
    {
        let each = &tiled.statements[index];
        let indent = match each {
            assembly::Statement::Label(_) => "",
            _ => "  ",
        };
        let line = around(indent, statement(interner, each), "\n");
        proof {
            if each is Label {
                reveal_strlit("");
                assert(indent@ =~= Seq::<char>::empty());
            }
        }
        text.append(line.as_str());
        index += 1;
    }
    text
}


/// The directive that gives `target` its linkage.
pub open spec fn linkage_text(names: Seq<Seq<char>>, linkage: ir::Linkage, target: Label) -> Seq<char> {
    match linkage {
        ir::Linkage::Local => ".local "@ + label_text(names, target),
        ir::Linkage::Global => ".global "@ + label_text(names, target),
        ir::Linkage::LinkOnceOdr => ".weak "@ + label_text(names, target) + "\n.global "@ + label_text(names, target),
    }
}

/// The first `count` words of a `.quad` directive, each after a separator.
pub open spec fn quad_items(names: Seq<Seq<char>>, words: Seq<Immediate>, count: nat) -> Seq<char>
    decreases count,
{
    if count == 0 {
        Seq::empty()
    } else if count == 1 {
        " "@ + immediate_text(names, words[0])
    } else {
        quad_items(names, words, (count - 1) as nat) + ", "@ + immediate_text(names, words[count - 1])
    }
}

/// The first `count` initialized words, each local, labelled and followed by a blank line.
pub open spec fn data_text(names: Seq<Seq<char>>, data: Seq<(Label, Vec<Immediate>)>, count: nat) -> Seq<char>
    decreases count,
{
    if count == 0 {
        Seq::empty()
    } else {
        let (target, words) = data[count - 1];
        data_text(names, data, (count - 1) as nat) + linkage_text(names, ir::Linkage::Local, target) + "\n"@ + label_text(
            names,
            target,
        ) + ":\n"@ + ".quad"@ + quad_items(names, words@, words@.len()) + "\n\n"@
    }
}

/// The first `count` zeroed globals, with their linkage, label and size in bytes.
pub open spec fn bss_text(names: Seq<Seq<char>>, bss: Seq<(Symbol, (ir::Linkage, usize))>, count: nat) -> Seq<char>
    decreases count,
{
    if count == 0 {
        Seq::empty()
    } else {
        let (symbol, (linkage, size)) = bss[count - 1];
        bss_text(names, bss, (count - 1) as nat) + linkage_text(names, linkage, Label::Fixed(symbol)) + "\n"@ + label_text(
            names,
            Label::Fixed(symbol),
        ) + ":\n"@ + ".space "@ + spec_decimal((size * 8) as nat) + "\n\n"@
    }
}

/// The first `count` functions, each after its linkage and followed by a blank line.
pub open spec fn functions_text(
    names: Seq<Seq<char>>,
    functions: Seq<(Symbol, assembly::Function<Register>)>,
    count: nat,
) -> Seq<char>
    decreases count,
{
    if count == 0 {
        Seq::empty()
    } else {
        let (symbol, function) = functions[count - 1];
        functions_text(names, functions, (count - 1) as nat) + linkage_text(names, function.linkage, Label::Fixed(symbol))
            + "\n"@ + function_text(names, function) + "\n"@
    }
}

/// A compilation unit: its data, then its zeroed globals, then the
/// initializers run before `main` (classes first), then its functions.
pub open spec fn unit_text(names: Seq<Seq<char>>, unit: ir::Unit<assembly::Function<Register>>) -> Seq<char> {
    ".intel_syntax noprefix\n\n"@ + ".section .data\n\n"@ + ".align 8\n"@ + data_text(names, unit.data@, unit.data@.len())
        + ".section .bss\n\n"@ + ".align 8\n"@ + bss_text(names, unit.bss@, unit.bss@.len())
        + ".section .ctors.65534\n"@ + ".align 8\n"@ + ".quad _Iinit_classes\n\n"@
        + ".section .ctors.65533\n"@ + ".align 8\n"@ + ".quad _Iinit_globals\n\n"@
        + ".section .text\n\n"@ + functions_text(names, unit.functions@, unit.functions@.len())
}

fn linkage(interner: &Interner, kind: ir::Linkage, target: Label) -> (text: String)
    ensures
        text@ == linkage_text(interner@, kind, target),
{
    match kind {
        ir::Linkage::Local => prefixed(".local ", label(interner, target)),
        ir::Linkage::Global => prefixed(".global ", label(interner, target)),
        ir::Linkage::LinkOnceOdr => {
            let mut text = prefixed(".weak ", label(interner, target));
            text.append("\n.global ");
            text.append(label(interner, target).as_str());
            text
        },
    }
}

fn quad(interner: &Interner, words: &Vec<Immediate>) -> (text: String)
    ensures
        text@ == ".quad"@ + quad_items(interner@, words@, words@.len()),
{
    let mut text = String::from_str(".quad");
    let mut index: usize = 0;
    while index < words.len()
        invariant
            index <= words@.len(),
            text@ == ".quad"@ + quad_items(interner@, words@, index as nat),
        decreases words@.len() - index,
    {
        let separator = if index == 0 {
            " "
        } else {
            ", "
        };
        text.append(separator);
        text.append(immediate(interner, words[index]).as_str());
        index += 1;
    }
    text
}

/// A compilation unit in Intel syntax (see [`unit_text`]).
pub fn unit(interner: &Interner, compiled: &ir::Unit<assembly::Function<Register>>) -> (text: String)
    requires
        forall|i: int|
            0 <= i < compiled.functions@.len() ==> (#[trigger] compiled.functions@[i]).1.statements@.len() > 0
                && compiled.functions@[i].1.statements@[0] == assembly::Statement::<Register>::Label(
                compiled.functions@[i].1.enter,
            ),
        forall|i: int| 0 <= i < compiled.bss@.len() ==> (#[trigger] compiled.bss@[i]).1.1 * 8 <= usize::MAX,
    ensures
        text@ == unit_text(interner@, *compiled),
{
    let mut text = String::from_str(".intel_syntax noprefix\n\n");
    text.append(".section .data\n\n");
    text.append(".align 8\n");
    let ghost head = text@;
    let mut index: usize = 0;
    while index < compiled.data.len()
        invariant
            index <= compiled.data@.len(),
            text@ == head + data_text(interner@, compiled.data@, index as nat),
        decreases compiled.data@.len() - index,
    {
        let target = compiled.data[index].0;
        text.append(linkage(interner, ir::Linkage::Local, target).as_str());
        text.append("\n");
        text.append(label(interner, target).as_str());
        text.append(":\n");
        text.append(quad(interner, &compiled.data[index].1).as_str());
        text.append("\n\n");
        index += 1;
    }
    text.append(".section .bss\n\n");
    text.append(".align 8\n");
    let ghost head = text@;
    let mut index: usize = 0;
    while index < compiled.bss.len()
        invariant
            index <= compiled.bss@.len(),
            text@ == head + bss_text(interner@, compiled.bss@, index as nat),
            forall|i: int| 0 <= i < compiled.bss@.len() ==> (#[trigger] compiled.bss@[i]).1.1 * 8 <= usize::MAX,
        decreases compiled.bss@.len() - index,
    {
        let symbol = compiled.bss[index].0;
        let (kind, size) = compiled.bss[index].1;
        text.append(linkage(interner, kind, Label::Fixed(symbol)).as_str());
        text.append("\n");
        text.append(label(interner, Label::Fixed(symbol)).as_str());
        text.append(":\n");
        text.append(".space ");
        text.append(string_from_chars(&decimal(size * 8)).as_str());
        text.append("\n\n");
        index += 1;
    }
    text.append(".section .ctors.65534\n");
    text.append(".align 8\n");
    text.append(".quad _Iinit_classes\n\n");
    text.append(".section .ctors.65533\n");
    text.append(".align 8\n");
    text.append(".quad _Iinit_globals\n\n");
    text.append(".section .text\n\n");
    let ghost head = text@;
    let mut index: usize = 0;
    while index < compiled.functions.len()
        invariant
            index <= compiled.functions@.len(),
            text@ == head + functions_text(interner@, compiled.functions@, index as nat),
            forall|i: int|
                0 <= i < compiled.functions@.len() ==> (#[trigger] compiled.functions@[i]).1.statements@.len() > 0
                    && compiled.functions@[i].1.statements@[0] == assembly::Statement::<Register>::Label(
                    compiled.functions@[i].1.enter,
                ),
        decreases compiled.functions@.len() - index,
    {
        let each = &compiled.functions[index];
        assert(each == compiled.functions@[index as int]);
        text.append(linkage(interner, each.1.linkage, Label::Fixed(each.0)).as_str());
        text.append("\n");
        text.append(function(interner, &each.1).as_str());
        text.append("\n");
        index += 1;
    }
    text
}


/// A conditional jump prints as `j`, the standard Intel suffix of its
/// condition, a space and its target; the suffix names what the jump tests
/// after `cmp left, right`: `l`/`le`/`ge`/`g` the signed order, `e`/`ne`
/// equality and `ae` the unsigned order. Distinct conditions print distinct
/// mnemonics.
pub proof fn lemma_jump_mnemonics(names: Seq<Seq<char>>, target: Label, left: i64, right: i64)
    ensures
        statement_text(names, assembly::Statement::Jcc(assembly::Condition::L, target)) == seq!['j', 'l', ' '] + label_text(names, target),
        statement_text(names, assembly::Statement::Jcc(assembly::Condition::Le, target)) == seq!['j', 'l', 'e', ' '] + label_text(
            names,
            target,
        ),
        statement_text(names, assembly::Statement::Jcc(assembly::Condition::Ge, target)) == seq!['j', 'g', 'e', ' '] + label_text(
            names,
            target,
        ),
        statement_text(names, assembly::Statement::Jcc(assembly::Condition::G, target)) == seq!['j', 'g', ' '] + label_text(names, target),
        statement_text(names, assembly::Statement::Jcc(assembly::Condition::Ne, target)) == seq!['j', 'n', 'e', ' '] + label_text(
            names,
            target,
        ),
        statement_text(names, assembly::Statement::Jcc(assembly::Condition::E, target)) == seq!['j', 'e', ' '] + label_text(names, target),
        statement_text(names, assembly::Statement::Jcc(assembly::Condition::Ae, target)) == seq!['j', 'a', 'e', ' '] + label_text(
            names,
            target,
        ),
        jump_taken(assembly::Condition::L, compare_flags(left, right)) == (left < right),
        jump_taken(assembly::Condition::Le, compare_flags(left, right)) == (left <= right),
        jump_taken(assembly::Condition::Ge, compare_flags(left, right)) == (left >= right),
        jump_taken(assembly::Condition::G, compare_flags(left, right)) == (left > right),
        jump_taken(assembly::Condition::Ne, compare_flags(left, right)) == (left != right),
        jump_taken(assembly::Condition::E, compare_flags(left, right)) == (left == right),
        jump_taken(assembly::Condition::Ae, compare_flags(left, right)) == (unsigned(left) >= unsigned(right)),
        forall|a: assembly::Condition, b: assembly::Condition|
            a != b ==> #[trigger] condition_name(a) != #[trigger] condition_name(b),
{
    reveal_strlit("j");
    reveal_strlit(" ");
    reveal_strlit("l");
    reveal_strlit("le");
    reveal_strlit("ge");
    reveal_strlit("g");
    reveal_strlit("ne");
    reveal_strlit("e");
    reveal_strlit("ae");
    lemma_compare_flags(left, right);
    assert forall|a: assembly::Condition, b: assembly::Condition| a != b implies #[trigger] condition_name(a) != #[trigger] condition_name(
        b,
    ) by {
        if condition_name(a).len() == condition_name(b).len() {
            if condition_name(a)[0] == condition_name(b)[0] {
                assert(condition_name(a)[1] != condition_name(b)[1]);
            }
        }
    }
    assert(seq!['j'] + seq!['l'] + seq![' '] =~= seq!['j', 'l', ' ']);
    assert(seq!['j'] + seq!['l', 'e'] + seq![' '] =~= seq!['j', 'l', 'e', ' ']);
    assert(seq!['j'] + seq!['g', 'e'] + seq![' '] =~= seq!['j', 'g', 'e', ' ']);
    assert(seq!['j'] + seq!['g'] + seq![' '] =~= seq!['j', 'g', ' ']);
    assert(seq!['j'] + seq!['n', 'e'] + seq![' '] =~= seq!['j', 'n', 'e', ' ']);
    assert(seq!['j'] + seq!['e'] + seq![' '] =~= seq!['j', 'e', ' ']);
    assert(seq!['j'] + seq!['a', 'e'] + seq![' '] =~= seq!['j', 'a', 'e', ' ']);
}


/// Instructions print under their Intel mnemonics: the two-operand ones as
/// `add sub imul and or xor cmp mov lea shl`, the one-operand ones as
/// `neg call imul idiv idiv push pop`.
pub proof fn lemma_instruction_mnemonics(arguments: usize, returned: usize)
    ensures
        binary_name(assembly::Binary::Add) == seq!['a', 'd', 'd'],
        binary_name(assembly::Binary::Sub) == seq!['s', 'u', 'b'],
        binary_name(assembly::Binary::Mul) == seq!['i', 'm', 'u', 'l'],
        binary_name(assembly::Binary::And) == seq!['a', 'n', 'd'],
        binary_name(assembly::Binary::Or) == seq!['o', 'r'],
        binary_name(assembly::Binary::Xor) == seq!['x', 'o', 'r'],
        binary_name(assembly::Binary::Cmp) == seq!['c', 'm', 'p'],
        binary_name(assembly::Binary::Mov) == seq!['m', 'o', 'v'],
        binary_name(assembly::Binary::Lea) == seq!['l', 'e', 'a'],
        binary_name(assembly::Binary::Shl) == seq!['s', 'h', 'l'],
        unary_name(assembly::Unary::Neg) == seq!['n', 'e', 'g'],
        unary_name(assembly::Unary::Call { arguments, returned }) == seq!['c', 'a', 'l', 'l'],
        unary_name(assembly::Unary::Hul) == seq!['i', 'm', 'u', 'l'],
        unary_name(assembly::Unary::Div) == seq!['i', 'd', 'i', 'v'],
        unary_name(assembly::Unary::Mod) == seq!['i', 'd', 'i', 'v'],
        unary_name(assembly::Unary::Push) == seq!['p', 'u', 's', 'h'],
        unary_name(assembly::Unary::Pop) == seq!['p', 'o', 'p'],
{
    reveal_strlit("add");
    reveal_strlit("sub");
    reveal_strlit("imul");
    reveal_strlit("and");
    reveal_strlit("or");
    reveal_strlit("xor");
    reveal_strlit("cmp");
    reveal_strlit("mov");
    reveal_strlit("lea");
    reveal_strlit("shl");
    reveal_strlit("neg");
    reveal_strlit("call");
    reveal_strlit("idiv");
    reveal_strlit("push");
    reveal_strlit("pop");
}

} // verus!

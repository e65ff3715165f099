use vstd::prelude::*;

use crate::abi;
use crate::analyze::registers::register;
use crate::analyze::registers::registers_of;
use crate::analyze::registers::remove_registers;
use crate::collections::map_views;
use crate::collections::meet;
use crate::collections::meet_all;
use crate::collections::KeyMap;
use crate::data::assembly;
use crate::data::operand;
use crate::data::operand::Immediate;
use crate::data::operand::Register;
use crate::data::operand::Temporary;

verus! {

/// Forward analysis mapping each temporary to the immediate it is known to hold.
pub struct ConstantPropagation;

pub type Data = KeyMap<Temporary, Immediate>;

pub open spec fn spec_fold_binary(binary: assembly::Binary, destination: Immediate, source: Immediate) -> Option<Immediate> {
    match (destination, source) {
        (Immediate::Integer(d), Immediate::Integer(s)) => match binary {
            assembly::Binary::Add => Some(Immediate::Integer(d.wrapping_add(s))),
            assembly::Binary::Sub => Some(Immediate::Integer(d.wrapping_sub(s))),
            assembly::Binary::Shl => if 0 <= s < 64 {
                Some(Immediate::Integer(d.wrapping_shl(s as u32)))
            } else {
                None
            },
            assembly::Binary::Mul => Some(Immediate::Integer(d.wrapping_mul(s))),
            assembly::Binary::And => Some(Immediate::Integer(d & s)),
            assembly::Binary::Or => Some(Immediate::Integer(d | s)),
            assembly::Binary::Xor => Some(Immediate::Integer(d ^ s)),
            assembly::Binary::Cmp | assembly::Binary::Mov | assembly::Binary::Lea => None,
        },
        _ => None,
    }
}

/// The high word of the 128-bit product of `d` and `s` (as `imul` leaves it in `rdx`).
pub open spec fn high_product(d: i64, s: i64) -> i64 {
    ((d as int * s as int) / 0x1_0000_0000_0000_0000int) as i64
}

/// Values of (`rax`, `rdx`) after `hul`, `idiv` or `imod` of `rax` by `source`.
pub open spec fn spec_fold_unary(unary: assembly::Unary, destination: Immediate, source: Immediate) -> Option<(Immediate, Immediate)> {
    match (destination, source) {
        (Immediate::Integer(d), Immediate::Integer(s)) => match unary {
            assembly::Unary::Hul => Some(
                (Immediate::Integer(d.wrapping_mul(s)), Immediate::Integer(high_product(d, s))),
            ),
            assembly::Unary::Div | assembly::Unary::Mod => match (d.checked_div(s), d.checked_rem(s)) {
                (Some(q), Some(r)) => Some((Immediate::Integer(q), Immediate::Integer(r))),
                _ => None,
            },
            _ => None,
        },
        _ => None,
    }
}

proof fn lemma_high_product(d: i64, s: i64, p: i128)
    requires
        p as int == d as int * s as int,
    ensures
        (p >> 64u32) as int == (d as int * s as int) / 0x1_0000_0000_0000_0000int,
{
    let q: i128 = p >> 64u32;
    assert(q * 0x1_0000_0000_0000_0000i128 <= p && p - q * 0x1_0000_0000_0000_0000i128 < 0x1_0000_0000_0000_0000i128) by (bit_vector)
        requires
            q == p >> 64u32,
    ;
    vstd::arithmetic::div_mod::lemma_fundamental_div_mod_converse(
        p as int,
        0x1_0000_0000_0000_0000int,
        q as int,
        p as int - q as int * 0x1_0000_0000_0000_0000int,
    );
}

/// The high word of the full product of `d` and `s`.
pub fn multiply_high(d: i64, s: i64) -> (high: i64)
    ensures
        high == high_product(d, s),
{
    assert(-0x4000_0000_0000_0000_0000_0000_0000_0000 <= d as int * s as int <= 0x4000_0000_0000_0000_0000_0000_0000_0000) by (nonlinear_arith)
        requires
            -0x8000_0000_0000_0000 <= d < 0x8000_0000_0000_0000,
            -0x8000_0000_0000_0000 <= s < 0x8000_0000_0000_0000,
    ;
    let product: i128 = (d as i128) * (s as i128);
    proof {
        lemma_high_product(d, s, product);
    }
    let high: i128 = product >> 64u32;
    assert(-0x8000_0000_0000_0000 <= high < 0x8000_0000_0000_0000);
    high as i64
}

/// Fold a two-operand arithmetic instruction over known integer operands.
pub fn fold_binary(binary: &assembly::Binary, destination: &Immediate, source: &Immediate) -> (folded: Option<Immediate>)
    ensures
        folded == spec_fold_binary(*binary, *destination, *source),
{
    let (d, s) = match (destination, source) {
        (Immediate::Integer(d), Immediate::Integer(s)) => (*d, *s),
        _ => return None,
    };
    let integer = match binary {
        assembly::Binary::Add => d.wrapping_add(s),
        assembly::Binary::Sub => d.wrapping_sub(s),
        assembly::Binary::Shl => {
            if s < 0 || s >= 64 {
                return None;
            }
            d.wrapping_shl(s as u32)
        },
        assembly::Binary::Mul => d.wrapping_mul(s),
        assembly::Binary::And => d & s,
        assembly::Binary::Or => d | s,
        assembly::Binary::Xor => d ^ s,
        assembly::Binary::Cmp | assembly::Binary::Mov | assembly::Binary::Lea => return None,
    };
    Some(Immediate::Integer(integer))
}

/// Fold a one-operand multiply or divide of `rax` by a known integer source.
pub fn fold_unary(unary: &assembly::Unary, destination: &Immediate, source: &Immediate) -> (folded: Option<(Immediate, Immediate)>)
    ensures
        folded == spec_fold_unary(*unary, *destination, *source),
{
    let (d, s) = match (destination, source) {
        (Immediate::Integer(d), Immediate::Integer(s)) => (*d, *s),
        _ => return None,
    };
    match unary {
        assembly::Unary::Hul => Some((Immediate::Integer(d.wrapping_mul(s)), Immediate::Integer(multiply_high(d, s)))),
        assembly::Unary::Div | assembly::Unary::Mod => match (d.checked_div(s), d.checked_rem(s)) {
            (Some(q), Some(r)) => Some((Immediate::Integer(q), Immediate::Integer(r))),
            _ => None,
        },
        _ => None,
    }
}

/// Registers whose values are unknown after a call returning `returned` values.
pub open spec fn spec_call_clobbered(returned: nat) -> Set<Temporary> {
    registers_of(abi::spec_caller_saved()).union(registers_of(abi::spec_return().take(if returned < 2 { returned as int } else { 2 })))
}

pub open spec fn lookup(data: Map<Temporary, Immediate>, temporary: Temporary) -> Option<Immediate> {
    if data.contains_key(temporary@) { Some(data[temporary@]) } else { None }
}

/// Bind `temporary` to `value` if known, else forget it.
pub open spec fn assign(data: Map<Temporary, Immediate>, temporary: Temporary, value: Option<Immediate>) -> Map<Temporary, Immediate> {
    match value {
        Some(value) => data.insert(temporary@, value),
        None => data.remove(temporary@),
    }
}

pub open spec fn fold_known(binary: assembly::Binary, destination: Option<Immediate>, source: Option<Immediate>) -> Option<Immediate> {
    match (destination, source) {
        (Some(d), Some(s)) => spec_fold_binary(binary, d, s),
        _ => None,
    }
}

/// What is known of each temporary after `statement`, given `data` before it.
pub open spec fn spec_transfer(statement: assembly::Statement<Temporary>, data: Map<Temporary, Immediate>) -> Map<Temporary, Immediate> {
    match statement {
        assembly::Statement::Binary(assembly::Binary::Mov, operands) => match operands {
            operand::Binary::RI { destination, source } => data.insert(destination@, source),
            operand::Binary::RR { destination, source } => assign(data, destination, lookup(data, source)),
            operand::Binary::RM { destination, .. } => data.remove(destination@),
            _ => data,
        },
        assembly::Statement::Binary(assembly::Binary::Lea, operands) => match operands.spec_destination() {
            operand::Unary::R(temporary) => data.remove(temporary@),
            _ => data,
        },
        assembly::Statement::Binary(assembly::Binary::Cmp, _) => data,
        assembly::Statement::Binary(binary, operands) => match operands {
            operand::Binary::RI { destination, source } => assign(
                data,
                destination,
                fold_known(binary, lookup(data, destination), Some(source)),
            ),
            operand::Binary::RM { destination, .. } => data.remove(destination@),
            operand::Binary::RR { destination, source } => assign(
                data,
                destination,
                fold_known(binary, lookup(data, destination), lookup(data, source)),
            ),
            _ => data,
        },
        assembly::Statement::Unary(unary, operand) => match unary {
            assembly::Unary::Hul | assembly::Unary::Div | assembly::Unary::Mod => {
                let source = match operand {
                    operand::Unary::I(immediate) => Some(immediate),
                    operand::Unary::R(temporary) => lookup(data, temporary),
                    operand::Unary::M(_) => None,
                };
                let folded = match (lookup(data, Temporary::Register(Register::Rax)), source) {
                    (Some(d), Some(s)) => spec_fold_unary(unary, d, s),
                    _ => None,
                };
                match folded {
                    Some((rax, rdx)) => data.insert(register(Register::Rax), rax).insert(register(Register::Rdx), rdx),
                    None => data.remove(register(Register::Rax)).remove(register(Register::Rdx)),
                }
            },
            assembly::Unary::Neg => match operand {
                operand::Unary::R(temporary) => match lookup(data, temporary) {
                    Some(Immediate::Integer(integer)) => data.insert(temporary@, Immediate::Integer(0i64.wrapping_sub(integer))),
                    _ => data.remove(temporary@),
                },
                _ => data,
            },
            assembly::Unary::Call { returned, .. } => data.remove_keys(spec_call_clobbered(returned as nat)),
            assembly::Unary::Pop => match operand {
                operand::Unary::R(temporary) => data.remove(temporary@),
                _ => data,
            },
            assembly::Unary::Push => data,
        },
        assembly::Statement::Nullary(assembly::Nullary::Cqo) => data.insert(register(Register::Rdx), Immediate::Integer(0)),
        _ => data,
    }
}

fn assign_known(output: &mut Data, temporary: Temporary, value: Option<Immediate>)
    requires
        old(output).wf(),
    ensures
        final(output).wf(),
        final(output)@ == assign(old(output)@, temporary, value),
{
    match value {
        Some(value) => output.insert(temporary, value),
        None => {
            output.remove(&temporary);
        },
    }
}

fn lookup_known(data: &Data, temporary: &Temporary) -> (value: Option<Immediate>)
    requires
        data.wf(),
    ensures
        value == lookup(data@, *temporary),
{
    match data.get(temporary) {
        Some(value) => Some(*value),
        None => None,
    }
}

impl ConstantPropagation {
    pub fn new() -> (analysis: Self) {
        ConstantPropagation
    }

    /// Nothing is known at the start of a block.
    pub fn default(&self) -> (data: Data)
        ensures
            data.wf(),
            data@ == Map::<Temporary, Immediate>::empty(),
    {
        KeyMap::new()
    }

    pub fn transfer(&self, statement: &assembly::Statement<Temporary>, output: &mut Data)
        requires
            old(output).wf(),
        ensures
            final(output).wf(),
            final(output)@ == spec_transfer(*statement, old(output)@),
    {
        match statement {
            assembly::Statement::Binary(assembly::Binary::Mov, operands) => match operands {
                operand::Binary::RI { destination, source } => output.insert(*destination, *source),
                operand::Binary::RR { destination, source } => {
                    let value = lookup_known(output, source);
                    assign_known(output, *destination, value);
                },
                operand::Binary::RM { destination, .. } => {
                    output.remove(destination);
                },
                _ => {},
            },
            assembly::Statement::Binary(assembly::Binary::Lea, operands) => match operands.destination() {
                operand::Unary::R(temporary) => {
                    output.remove(&temporary);
                },
                _ => {},
            },
            assembly::Statement::Binary(assembly::Binary::Cmp, _) => {},
            assembly::Statement::Binary(binary, operands) => match operands {
                operand::Binary::RI { destination, source } => {
                    let folded = match lookup_known(output, destination) {
                        Some(known) => fold_binary(binary, &known, source),
                        None => None,
                    };
                    assign_known(output, *destination, folded);
                },
                operand::Binary::RM { destination, .. } => {
                    output.remove(destination);
                },
                operand::Binary::RR { destination, source } => {
                    let folded = match (lookup_known(output, destination), lookup_known(output, source)) {
                        (Some(d), Some(s)) => fold_binary(binary, &d, &s),
                        _ => None,
                    };
                    assign_known(output, *destination, folded);
                },
                _ => {},
            },
            assembly::Statement::Unary(unary, operand) => match unary {
                assembly::Unary::Hul | assembly::Unary::Div | assembly::Unary::Mod => {
                    let source = match operand {
                        operand::Unary::I(immediate) => Some(*immediate),
                        operand::Unary::R(temporary) => lookup_known(output, temporary),
                        operand::Unary::M(_) => None,
                    };
                    let rax = Temporary::Register(Register::Rax);
                    let rdx = Temporary::Register(Register::Rdx);
                    let folded = match (lookup_known(output, &rax), source) {
                        (Some(d), Some(s)) => fold_unary(unary, &d, &s),
                        _ => None,
                    };
                    match folded {
                        Some((a, d)) => {
                            output.insert(rax, a);
                            output.insert(rdx, d);
                        },
                        None => {
                            output.remove(&rax);
                            output.remove(&rdx);
                        },
                    }
                },
                assembly::Unary::Neg => match operand {
                    operand::Unary::R(temporary) => match lookup_known(output, temporary) {
                        Some(Immediate::Integer(integer)) => output.insert(
                            *temporary,
                            Immediate::Integer(0i64.wrapping_sub(integer)),
                        ),
                        _ => {
                            output.remove(temporary);
                        },
                    },
                    _ => {},
                },
                assembly::Unary::Call { returned, .. } => {
                    let ghost before = output@;
                    let caller = abi::caller_saved();
                    remove_registers(output, &caller, caller.len());
                    let results = abi::return_registers();
                    let count = if *returned < results.len() { *returned } else { results.len() };
                    remove_registers(output, &results, count);
                    assert(caller@.take(caller@.len() as int) =~= caller@);
                    assert(results@.take(count as int) =~= abi::spec_return().take(if *returned < 2 { *returned as int } else { 2 }));
                    assert(output@ =~= before.remove_keys(spec_call_clobbered(*returned as nat)));
                },
                assembly::Unary::Pop => match operand {
                    operand::Unary::R(temporary) => {
                        output.remove(temporary);
                    },
                    _ => {},
                },
                assembly::Unary::Push => {},
            },
            assembly::Statement::Nullary(assembly::Nullary::Cqo) => output.insert(
                Temporary::Register(Register::Rdx),
                Immediate::Integer(0),
            ),
            _ => {},
        }
    }

    /// Meet of the predecessors' outputs: only facts on which all agree survive,
    /// and nothing survives a missing (not yet computed) predecessor.
    pub fn merge(&self, outputs: &Vec<Option<&Data>>, input: &mut Data)
        requires
            forall|i: int| 0 <= i < outputs@.len() ==> (#[trigger] outputs@[i] matches Some(data) ==> data.wf()),
        ensures
            final(input).wf(),
            final(input)@ == meet_all(map_views(outputs@)),
    {
        meet(outputs, input);
    }
}

/// After `mov destination, immediate`, `destination` is known to hold the
/// immediate, and what is known of every other temporary is unchanged.
pub proof fn lemma_move_immediate(data: Map<Temporary, Immediate>, destination: Temporary, immediate: Immediate, other: Temporary)
    requires
        other@ != destination@,
    ensures
        lookup(
            spec_transfer(
                assembly::Statement::Binary(assembly::Binary::Mov, operand::Binary::RI { destination, source: immediate }),
                data,
            ),
            destination,
        ) == Some(immediate),
        lookup(
            spec_transfer(
                assembly::Statement::Binary(assembly::Binary::Mov, operand::Binary::RI { destination, source: immediate }),
                data,
            ),
            other,
        ) == lookup(data, other),
{
}

} // verus!

use vstd::prelude::*;

use crate::data::ast;

verus! {

#[derive(Copy, Clone, Debug, PartialEq, Eq, Structural, Hash)]
pub enum Linkage {
    /// Locally scoped symbol: not global, may be inlined or discarded, not merged.
    Local,
    /// Globally unique symbol: global, may be inlined, not discarded or merged.
    Global,
    /// Used for template instantiations and utility functions like `_xi_memdup`:
    /// global, and may be inlined, discarded or merged.
    LinkOnceOdr,
}

#[derive(Copy, Clone, Debug, PartialEq, Eq, Structural, Hash)]
pub enum Binary {
    Add,
    Sub,
    Mul,
    Hul,
    Div,
    Mod,
    Xor,
    And,
    Or,
}

impl Binary {
    pub open spec fn spec_from_ast(binary: ast::Binary) -> Binary {
        match binary {
            ast::Binary::Mul => Binary::Mul,
            ast::Binary::Hul => Binary::Hul,
            ast::Binary::Div => Binary::Div,
            ast::Binary::Mod => Binary::Mod,
            ast::Binary::Add => Binary::Add,
            ast::Binary::Sub => Binary::Sub,
            ast::Binary::And => Binary::And,
            _ => Binary::Or,
        }
    }

    /// The IR operator of an arithmetic or logical source operator.
    pub fn from_ast(binary: ast::Binary) -> (ir: Self)
        requires
            binary.is_arithmetic_or_logical(),
        ensures
            ir == Binary::spec_from_ast(binary),
    {
        match binary {
            ast::Binary::Mul => Binary::Mul,
            ast::Binary::Hul => Binary::Hul,
            ast::Binary::Div => Binary::Div,
            ast::Binary::Mod => Binary::Mod,
            ast::Binary::Add => Binary::Add,
            ast::Binary::Sub => Binary::Sub,
            ast::Binary::And => Binary::And,
            _ => Binary::Or,
        }
    }
}

#[derive(Copy, Clone, Debug, PartialEq, Eq, Structural, Hash)]
pub enum Condition {
    Lt,
    Le,
    Ge,
    Gt,
    Ne,
    Eq,
    /// Unsigned above or equal: used for optimizing `0 <= signed < max`
    /// into `unsigned < max`, relying on integer underflow.
    Ae,
}

impl Condition {
    pub open spec fn spec_from_ast(binary: ast::Binary) -> Condition {
        match binary {
            ast::Binary::Lt => Condition::Lt,
            ast::Binary::Le => Condition::Le,
            ast::Binary::Ge => Condition::Ge,
            ast::Binary::Gt => Condition::Gt,
            ast::Binary::Ne => Condition::Ne,
            _ => Condition::Eq,
        }
    }

    /// The IR condition of a comparison operator.
    pub fn from_ast(binary: ast::Binary) -> (condition: Self)
        requires
            binary.is_comparison(),
        ensures
            condition == Condition::spec_from_ast(binary),
    {
        match binary {
            ast::Binary::Lt => Condition::Lt,
            ast::Binary::Le => Condition::Le,
            ast::Binary::Ge => Condition::Ge,
            ast::Binary::Gt => Condition::Gt,
            ast::Binary::Ne => Condition::Ne,
            _ => Condition::Eq,
        }
    }
}

/// A compilation unit: functions, initialized data and zeroed data.
#[derive(Clone, Debug)]
pub struct Unit<T> {
    pub name: crate::data::symbol::Symbol,
    pub functions: Vec<(crate::data::symbol::Symbol, T)>,
    pub data: Vec<(crate::data::operand::Label, Vec<crate::data::operand::Immediate>)>,
    pub bss: Vec<(crate::data::symbol::Symbol, (Linkage, usize))>,
}

impl<T> Unit<T> {
    /// Apply `apply` to every function, keeping names, data and bss.
    pub fn map<U, F: Fn(T) -> U>(self, apply: F) -> (mapped: Unit<U>)
        requires
            forall|function: T| call_requires(apply, (function,)),
        ensures
            mapped.name == self.name,
            mapped.data == self.data,
            mapped.bss == self.bss,
            mapped.functions@.len() == self.functions@.len(),
            forall|i: int|
                0 <= i < self.functions@.len() ==> (#[trigger] mapped.functions@[i]).0
                    == self.functions@[i].0 && call_ensures(
                    apply,
                    (self.functions@[i].1,),
                    mapped.functions@[i].1,
                ),
    {
        let Unit { name, functions, data, bss } = self;
        let ghost original = functions@;
        let mut functions = functions;
        let mut reversed: Vec<(crate::data::symbol::Symbol, U)> = Vec::new();
        while functions.len() > 0
            invariant
                forall|function: T| call_requires(apply, (function,)),
                functions@.len() + reversed@.len() == original.len(),
                functions@ == original.take(functions@.len() as int),
                forall|i: int|
                    0 <= i < reversed@.len() ==> (#[trigger] reversed@[i]).0 == original[original.len() - 1 - i].0
                        && call_ensures(apply, (original[original.len() - 1 - i].1,), reversed@[i].1),
            decreases functions@.len(),
        {
            let ghost before = functions@;
            let (symbol, function) = functions.pop().unwrap();
            assert(functions@ =~= original.take(functions@.len() as int));
            reversed.push((symbol, apply(function)));
        }
        let mut mapped: Vec<(crate::data::symbol::Symbol, U)> = Vec::new();
        while reversed.len() > 0
            invariant
                mapped@.len() + reversed@.len() == original.len(),
                forall|i: int|
                    0 <= i < reversed@.len() ==> (#[trigger] reversed@[i]).0 == original[original.len() - 1 - i].0
                        && call_ensures(apply, (original[original.len() - 1 - i].1,), reversed@[i].1),
                forall|i: int|
                    0 <= i < mapped@.len() ==> (#[trigger] mapped@[i]).0 == original[i].0
                        && call_ensures(apply, (original[i].1,), mapped@[i].1),
            decreases reversed@.len(),
        {
            let entry = reversed.pop().unwrap();
            mapped.push(entry);
        }
        Unit { name, functions: mapped, data, bss }
    }

    /// Apply `apply` to a reference to every function, keeping names, data and
    /// bss (copied).
    pub fn map_ref<U, F: Fn(&T) -> U>(&self, apply: F) -> (mapped: Unit<U>)
        requires
            forall|function: &T| call_requires(apply, (function,)),
        ensures
            mapped.name == self.name,
            mapped.data@.len() == self.data@.len(),
            forall|i: int|
                0 <= i < self.data@.len() ==> (#[trigger] mapped.data@[i]).0 == self.data@[i].0
                    && mapped.data@[i].1@ == self.data@[i].1@,
            mapped.bss@ == self.bss@,
            mapped.functions@.len() == self.functions@.len(),
            forall|i: int|
                0 <= i < self.functions@.len() ==> (#[trigger] mapped.functions@[i]).0
                    == self.functions@[i].0 && call_ensures(
                    apply,
                    (&self.functions@[i].1,),
                    mapped.functions@[i].1,
                ),
    {
        let mut functions: Vec<(crate::data::symbol::Symbol, U)> = Vec::new();
        let mut index: usize = 0;
        while index < self.functions.len()
            invariant
                forall|function: &T| call_requires(apply, (function,)),
                index <= self.functions@.len(),
                functions@.len() == index,
                forall|i: int|
                    0 <= i < index ==> (#[trigger] functions@[i]).0 == self.functions@[i].0 && call_ensures(
                        apply,
                        (&self.functions@[i].1,),
                        functions@[i].1,
                    ),
            decreases self.functions@.len() - index,
        {
            let (symbol, function) = &self.functions[index];
            functions.push((*symbol, apply(function)));
            index += 1;
        }
        let data = copy_data(&self.data);
        let bss = copy_bss(&self.bss);
        Unit { name: self.name, functions, data, bss }
    }
}

/// A copy of initialized data: the same labels with the same words.
pub fn copy_data(
    data: &Vec<(crate::data::operand::Label, Vec<crate::data::operand::Immediate>)>,
) -> (copy: Vec<(crate::data::operand::Label, Vec<crate::data::operand::Immediate>)>)
    ensures
        copy@.len() == data@.len(),
        forall|i: int| 0 <= i < data@.len() ==> (#[trigger] copy@[i]).0 == data@[i].0 && copy@[i].1@ == data@[i].1@,
{
    let mut copy: Vec<(crate::data::operand::Label, Vec<crate::data::operand::Immediate>)> = Vec::new();
    let mut index: usize = 0;
    while index < data.len()
        invariant
            index <= data@.len(),
            copy@.len() == index,
            forall|i: int| 0 <= i < index ==> (#[trigger] copy@[i]).0 == data@[i].0 && copy@[i].1@ == data@[i].1@,
        decreases data@.len() - index,
    {
        let (label, words) = &data[index];
        let mut copied: Vec<crate::data::operand::Immediate> = Vec::new();
        let mut word: usize = 0;
        while word < words.len()
            invariant
                word <= words@.len(),
                copied@ == words@.take(word as int),
            decreases words@.len() - word,
        {
            copied.push(words[word]);
            word += 1;
            proof {
                assert(copied@ =~= words@.take(word as int));
            }
        }
        proof {
            assert(words@.take(words@.len() as int) =~= words@);
        }
        copy.push((*label, copied));
        index += 1;
    }
    copy
}

/// A copy of zeroed data.
pub fn copy_bss(
    bss: &Vec<(crate::data::symbol::Symbol, (Linkage, usize))>,
) -> (copy: Vec<(crate::data::symbol::Symbol, (Linkage, usize))>)
    ensures
        copy@ == bss@,
{
    let mut copy: Vec<(crate::data::symbol::Symbol, (Linkage, usize))> = Vec::new();
    let mut index: usize = 0;
    while index < bss.len()
        invariant
            index <= bss@.len(),
            copy@ == bss@.take(index as int),
        decreases bss@.len() - index,
    {
        copy.push(bss[index]);
        index += 1;
        proof {
            assert(copy@ =~= bss@.take(index as int));
        }
    }
    proof {
        assert(bss@.take(bss@.len() as int) =~= bss@);
    }
    copy
}

} // verus!

pub mod abi;
pub mod machine;
pub mod tile;

use vstd::prelude::*;

use crate::abi::FramePointer;
use crate::assemble::tile::function_tileable;
use crate::assemble::tile::statements_weight;
use crate::assemble::tile::tiles;
use crate::data::assembly;
use crate::data::ir;
use crate::data::lir;
use crate::data::operand::Temporary;
use crate::data::symbol::Symbol;

verus! {

/// Fresh temporaries that tiling the functions may take.
pub open spec fn budget(functions: Seq<(Symbol, lir::Function<lir::Fallthrough>)>) -> nat
    decreases functions.len(),
{
    if functions.len() == 0 {
        0
    } else {
        budget(functions.drop_last()) + statements_weight(functions.last().1.statements@) + 8
    }
}

/// `tiled` is `function` tiled (see [`tiles`]), with fresh temporaries
/// numbered from some counter.
pub open spec fn tiled_from(
    frame_pointer: FramePointer,
    name: Symbol,
    function: lir::Function<lir::Fallthrough>,
    tiled: assembly::Function<Temporary>,
) -> bool {
    exists|first: int| tiles(frame_pointer, name, function, tiled, first)
}

/// Select instructions for every function of `unit`, keeping its data. Fresh
/// temporaries are named `name` and numbered across the unit from `counter`,
/// which advances past them.
#[verifier::rlimit(40)]
pub fn tile(
    unit: &ir::Unit<lir::Function<lir::Fallthrough>>,
    frame_pointer: FramePointer,
    name: Symbol,
    counter: &mut usize,
) -> (tiled: ir::Unit<assembly::Function<Temporary>>)
    requires
        forall|i: int| 0 <= i < unit.functions@.len() ==> function_tileable(#[trigger] unit.functions@[i].1),
        *old(counter) + budget(unit.functions@) + 8 <= usize::MAX,
    ensures
        tiled.name == unit.name,
        tiled.data@.len() == unit.data@.len(),
        forall|i: int|
            0 <= i < unit.data@.len() ==> (#[trigger] tiled.data@[i]).0 == unit.data@[i].0 && tiled.data@[i].1@
                == unit.data@[i].1@,
        tiled.bss@ == unit.bss@,
        tiled.functions@.len() == unit.functions@.len(),
        forall|i: int|
            0 <= i < unit.functions@.len() ==> (#[trigger] tiled.functions@[i]).0 == unit.functions@[i].0 && tiled_from(
                frame_pointer,
                name,
                unit.functions@[i].1,
                tiled.functions@[i].1,
            ),
        *old(counter) <= *final(counter),
{
    let ghost start = *counter;
    let mut functions: Vec<(Symbol, assembly::Function<Temporary>)> = Vec::new();
    let mut index: usize = 0;
    let ghost mut firsts: Seq<int> = Seq::empty();
    while index < unit.functions.len()
        invariant
            index <= unit.functions@.len(),
            forall|i: int| 0 <= i < unit.functions@.len() ==> function_tileable(#[trigger] unit.functions@[i].1),
            start + budget(unit.functions@) + 8 <= usize::MAX,
            start <= *counter <= start + budget(unit.functions@.take(index as int)),
            functions@.len() == index,
            firsts.len() == index,
            forall|i: int|
                0 <= i < index ==> (#[trigger] functions@[i]).0 == unit.functions@[i].0 && tiles(
                    frame_pointer,
                    name,
                    unit.functions@[i].1,
                    functions@[i].1,
                    firsts[i],
                ),
        decreases unit.functions@.len() - index,
    {
        proof {
            lemma_budget_prefix(unit.functions@, index as int);
        }
        let ghost first = *counter as int;
        let (symbol, function) = &unit.functions[index];
        let tiled = tile::tile(frame_pointer, function, name, counter);
        functions.push((*symbol, tiled));
        proof {
            firsts = firsts.push(first);
            assert(tiles(frame_pointer, name, unit.functions@[index as int].1, functions@[index as int].1, first));
        }
        index += 1;
    }
    let data = ir::copy_data(&unit.data);
    let bss = ir::copy_bss(&unit.bss);
    let tiled = ir::Unit { name: unit.name, functions, data, bss };
    assert forall|i: int| 0 <= i < unit.functions@.len() implies (#[trigger] tiled.functions@[i]).0 == unit.functions@[i].0
        && tiled_from(frame_pointer, name, unit.functions@[i].1, tiled.functions@[i].1) by {
        assert(i < index);
        assert(tiles(frame_pointer, name, unit.functions@[i].1, tiled.functions@[i].1, firsts[i]));
    }
    tiled
}

/// The budget of a prefix grows by the next function and stays below the whole.
proof fn lemma_budget_prefix(functions: Seq<(Symbol, lir::Function<lir::Fallthrough>)>, index: int)
    requires
        0 <= index < functions.len(),
    ensures
        budget(functions.take(index + 1)) == budget(functions.take(index)) + statements_weight(
            functions[index].1.statements@,
        ) + 8,
        budget(functions.take(index + 1)) <= budget(functions),
    decreases functions.len(),
{
    assert(functions.take(index + 1).drop_last() =~= functions.take(index));
    if index + 1 < functions.len() {
        lemma_budget_prefix(functions.drop_last(), index);
        assert(functions.drop_last().take(index + 1) =~= functions.take(index + 1));
        assert(functions.drop_last().take(index) =~= functions.take(index));
    } else {
        assert(functions.take(index + 1) =~= functions);
    }
}

} // verus!

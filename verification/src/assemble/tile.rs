use vstd::prelude::*;

use crate::abi::FramePointer;
use crate::abi;
use crate::assemble::machine::Machine;
use crate::assemble::machine::agrees;
use crate::assemble::machine::arithmetic;
use crate::assemble::machine::clean;
use crate::assemble::machine::computes;
use crate::assemble::machine::lemma_agrees_transitive;
use crate::assemble::machine::lemma_agrees_weaken;
use crate::assemble::machine::lemma_clean_monotone;
use crate::assemble::machine::lemma_evaluate_agrees;
use crate::assemble::machine::lemma_evaluate_set;
use crate::assemble::machine::lemma_overwrite;
use crate::assemble::machine::lemma_read_agrees;
use crate::assemble::machine::lemma_store_both;
use crate::assemble::machine::lemma_stable_monotone;
use crate::assemble::machine::lemma_address_agrees;
use crate::assemble::machine::lemma_run_append;
use crate::assemble::machine::lemma_run_push;
use crate::assemble::machine::lemma_set_agrees;
use crate::assemble::machine::lemma_set_both;
use crate::assemble::machine::lemma_set_same;
use crate::assemble::machine::lemma_set_view;
use crate::assemble::machine::lemma_sign_extension;
use crate::assemble::machine::lemma_wrap_congruent;
use crate::assemble::machine::lemma_wrap_inner;
use crate::assemble::machine::locates;
use crate::assemble::machine::reads;
use crate::assemble::machine::scratch;
use crate::assemble::machine::stable;
use crate::assemble::machine::sum;
use crate::assemble::machine::wrap;
use crate::data::assembly;
use crate::data::ir;
use crate::data::lir;
use crate::data::operand::Immediate;
use crate::data::operand::Memory;
use crate::data::operand::Register;
use crate::data::operand::Scale;
use crate::data::operand::Temporary;
use crate::data::operand::Unary;
use crate::data::operand;
use crate::data::symbol::Symbol;

verus! {

/// Number of nodes of an expression tree.
pub open spec fn size(expression: lir::Expression) -> nat
    decreases expression,
{
    match expression {
        lir::Expression::Immediate(_) | lir::Expression::Temporary(_) => 1,
        lir::Expression::Memory(address) => 1 + size(*address),
        lir::Expression::Binary(_, left, right) => 1 + size(*left) + size(*right),
    }
}

/// The two-operand form with register destination `destination` and operand `source`.
pub open spec fn into_register(destination: Temporary, source: Unary<Temporary>) -> operand::Binary<Temporary> {
    match source {
        Unary::I(source) => operand::Binary::RI { destination, source },
        Unary::R(source) => operand::Binary::RR { destination, source },
        Unary::M(source) => operand::Binary::RM { destination, source },
    }
}

/// Fresh temporaries that tiling an expression and one move of it may take.
pub open spec fn weight(expression: lir::Expression) -> nat {
    3 * size(expression) + 2
}

pub open spec fn weights(expressions: Seq<lir::Expression>) -> nat
    decreases expressions.len(),
{
    if expressions.len() == 0 {
        0
    } else {
        weights(expressions.drop_last()) + weight(expressions.last())
    }
}

/// Fresh temporaries that tiling a statement may take.
pub open spec fn statement_weight(statement: lir::Statement<lir::Fallthrough>) -> nat {
    match statement {
        lir::Statement::Return(values) => weights(values@),
        lir::Statement::CJump { left, right, .. } => weight(left) + weight(right),
        lir::Statement::Move { destination, source } => weight(destination) + weight(source),
        lir::Statement::Call(function, arguments, _) => 1 + weight(function) + weights(arguments@),
        _ => 0,
    }
}

pub open spec fn statements_weight(statements: Seq<lir::Statement<lir::Fallthrough>>) -> nat
    decreases statements.len(),
{
    if statements.len() == 0 {
        0
    } else {
        statements_weight(statements.drop_last()) + statement_weight(statements.last())
    }
}

/// A statement whose lists are short enough for stack offsets to fit a word,
/// and that returns at most two values unless the caller passed a return area.
pub open spec fn tileable(statement: lir::Statement<lir::Fallthrough>, return_area: bool) -> bool {
    match statement {
        lir::Statement::Return(values) => values@.len() <= i32::MAX && (values@.len() <= 2 || return_area),
        lir::Statement::Call(_, arguments, returned) => arguments@.len() <= i32::MAX && returned@.len() <= i32::MAX,
        _ => true,
    }
}

/// Callee-saved registers that the prologue saves: all but `rsp`, and but
/// `rbp` when it is kept as the frame pointer.
pub open spec fn kept(registers: Seq<Register>, frame_pointer: FramePointer) -> Seq<Register>
    decreases registers.len(),
{
    if registers.len() == 0 {
        Seq::empty()
    } else {
        let rest = kept(registers.drop_last(), frame_pointer);
        let register = registers.last();
        if register@ != Register::Rsp(true) && (register@ != Register::Rbp || frame_pointer == FramePointer::Omit) {
            rest.push(register)
        } else {
            rest
        }
    }
}

/// `mov temporary, register` for each register to save.
pub open spec fn saves(temporaries: Seq<Temporary>, registers: Seq<Register>) -> Seq<assembly::Statement<Temporary>> {
    Seq::new(
        registers.len(),
        |i: int|
            assembly::Statement::Binary(
                assembly::Binary::Mov,
                operand::Binary::RR { destination: temporaries[i], source: Temporary::Register(registers[i]) },
            ),
    )
}

/// `mov register, temporary` for each saved register.
pub open spec fn restores(temporaries: Seq<Temporary>, registers: Seq<Register>) -> Seq<assembly::Statement<Temporary>> {
    Seq::new(
        registers.len(),
        |i: int|
            assembly::Statement::Binary(
                assembly::Binary::Mov,
                operand::Binary::RR { destination: Temporary::Register(registers[i]), source: temporaries[i] },
            ),
    )
}

/// `push rbp; mov rbp, rsp` when the frame pointer is kept.
pub open spec fn prologue(frame_pointer: FramePointer) -> Seq<assembly::Statement<Temporary>> {
    match frame_pointer {
        FramePointer::Keep => seq![
            assembly::Statement::Unary(assembly::Unary::Push, Unary::R(Temporary::Register(Register::Rbp))),
            assembly::Statement::Binary(
                assembly::Binary::Mov,
                operand::Binary::RR {
                    destination: Temporary::Register(Register::Rbp),
                    source: Temporary::Register(Register::Rsp(true)),
                },
            ),
        ],
        FramePointer::Omit => Seq::empty(),
    }
}

/// `pop rbp` when the frame pointer is kept, then `ret`.
pub open spec fn epilogue(frame_pointer: FramePointer, returned: usize) -> Seq<assembly::Statement<Temporary>> {
    let ret = assembly::Statement::Nullary(assembly::Nullary::Ret(returned));
    match frame_pointer {
        FramePointer::Keep => seq![
            assembly::Statement::Unary(assembly::Unary::Pop, Unary::R(Temporary::Register(Register::Rbp))),
            ret,
        ],
        FramePointer::Omit => seq![ret],
    }
}

/// The temporaries that hold the saved registers: fresh, numbered from `first`.
pub open spec fn save_temporaries(name: Symbol, first: int, count: nat) -> Seq<Temporary> {
    Seq::new(count, |i: int| Temporary::Fresh(name, (first + i) as usize))
}

/// `statements` open with the enter label, the prologue and the moves that save
/// the callee-saved registers into `temporaries`, and close with the moves that
/// restore them and the epilogue.
pub open spec fn framed(
    statements: Seq<assembly::Statement<Temporary>>,
    frame_pointer: FramePointer,
    enter: operand::Label,
    returned: usize,
    temporaries: Seq<Temporary>,
) -> bool {
    let registers = kept(abi::spec_callee_saved(), frame_pointer);
    let head = seq![assembly::Statement::Label(enter)] + prologue(frame_pointer) + saves(temporaries, registers);
    let tail = restores(temporaries, registers) + epilogue(frame_pointer, returned);
    &&& head.len() + tail.len() <= statements.len()
    &&& statements.take(head.len() as int) == head
    &&& statements.skip(statements.len() - tail.len()) == tail
}

/// No call takes more arguments than any call of a tileable function.
proof fn lemma_callee_arguments_bounded(statements: Seq<lir::Statement<lir::Fallthrough>>, return_area: bool)
    requires
        forall|i: int| 0 <= i < statements.len() ==> tileable(#[trigger] statements[i], return_area),
    ensures
        match lir::spec_callee_arguments(statements) {
            Some(count) => count <= i32::MAX,
            None => true,
        },
    decreases statements.len(),
{
    if statements.len() > 0 {
        assert(tileable(statements[statements.len() - 1], return_area));
        lemma_callee_arguments_bounded(statements.drop_last(), return_area);
        assert forall|i: int| 0 <= i < statements.drop_last().len() implies tileable(
            #[trigger] statements.drop_last()[i],
            return_area,
        ) by {
            assert(statements.drop_last()[i] == statements[i]);
        }
    }
}

/// `leaf` is the destination of the enclosing move, if there is one, up to the
/// views of temporaries.
pub open spec fn same_leaf(destination: Option<&lir::Expression>, leaf: lir::Expression) -> bool {
    match destination {
        Some(destination) => leaf@ == destination@,
        None => false,
    }
}

/// Subtraction from zero, which is tiled as negation.
pub open spec fn negation(binary: ir::Binary, left: lir::Expression) -> bool {
    binary == ir::Binary::Sub && left == lir::Expression::Immediate(Immediate::Integer(0))
}

/// The leaf of `left binary right` whose operand the instructions for the tree
/// update: the leftmost leaf, reached through the operand of each negation.
pub open spec fn spine_leaf(binary: ir::Binary, left: lir::Expression, right: lir::Expression) -> lir::Expression
    decreases 1 + size(left) + size(right),
{
    let next = if negation(binary, left) { right } else { left };
    match next {
        lir::Expression::Binary(inner, inner_left, inner_right) => spine_leaf(inner, *inner_left, *inner_right),
        _ => next,
    }
}

/// Some right operand on the way to the updated leaf reads `temporary`: it is
/// evaluated after the leaf's operand was updated.
pub open spec fn spine_reads(
    binary: ir::Binary,
    left: lir::Expression,
    right: lir::Expression,
    temporary: Temporary,
) -> bool
    decreases 1 + size(left) + size(right),
{
    if negation(binary, left) {
        match right {
            lir::Expression::Binary(inner, inner_left, inner_right) => spine_reads(
                inner,
                *inner_left,
                *inner_right,
                temporary,
            ),
            _ => false,
        }
    } else {
        reads(right, temporary) || match left {
            lir::Expression::Binary(inner, inner_left, inner_right) => spine_reads(
                inner,
                *inner_left,
                *inner_right,
                temporary,
            ),
            _ => false,
        }
    }
}

/// Tiling `temporary = source` updates `temporary` in place and reads it after
/// the update: the one shape of move that does not get the value of `source`.
pub open spec fn clobbers(source: lir::Expression, temporary: Temporary) -> bool {
    match source {
        lir::Expression::Binary(binary, left, right) => spine_leaf(binary, *left, *right)@
            == lir::Expression::Temporary(temporary)@ && spine_reads(binary, *left, *right, temporary),
        _ => false,
    }
}

/// No statement of `statements` is a `ret`.
pub open spec fn ret_free(statements: Seq<assembly::Statement<Temporary>>) -> bool {
    forall|i: int|
        0 <= i < statements.len() ==> !(#[trigger] statements[i] matches assembly::Statement::Nullary(
            assembly::Nullary::Ret(_),
        ))
}

/// The moves of the arguments from where the caller put them into their
/// temporaries, after the move of the return area's address if there is one.
pub open spec fn argument_moves(area: Option<Temporary>, arguments: Seq<Temporary>) -> Seq<assembly::Statement<Temporary>> {
    let offset: int = if area is Some { 1 } else { 0 };
    let first = match area {
        Some(temporary) => seq![
            assembly::Statement::Binary(assembly::Binary::Mov, into_register(temporary, abi::spec_read_argument(0))),
        ],
        None => Seq::empty(),
    };
    first + Seq::new(
        arguments.len(),
        |i: int|
            assembly::Statement::Binary(
                assembly::Binary::Mov,
                into_register(arguments[i], abi::spec_read_argument(i + offset)),
            ),
    )
}

/// The two-operand form of `destination` and `source` when neither needs to
/// move through a temporary first.
pub open spec fn operands_of(destination: Unary<Temporary>, source: Unary<Temporary>) -> operand::Binary<Temporary> {
    match (destination, source) {
        (Unary::M(memory), Unary::I(immediate)) => operand::Binary::MI { destination: memory, source: immediate },
        (Unary::M(memory), Unary::R(temporary)) => operand::Binary::MR { destination: memory, source: temporary },
        (Unary::R(temporary), source) => into_register(temporary, source),
        _ => into_register(Temporary::Register(Register::Rax), source),
    }
}

/// The moves of temporaries `values` to where a function returns them.
pub open spec fn return_moves(area: Option<Temporary>, values: Seq<lir::Expression>) -> Seq<assembly::Statement<Temporary>> {
    Seq::new(
        values.len(),
        |i: int|
            assembly::Statement::Binary(
                assembly::Binary::Mov,
                operands_of(abi::spec_write_return(area, i), Unary::R(values[i]->Temporary_0)),
            ),
    )
}

/// How the instructions `segment` that tiling gave for `statement` relate to
/// it, with the return area `area`, fresh temporaries numbered from `counter`
/// and `callee` the most arguments any callee takes: labels and jumps are kept;
/// a conditional jump ends in a `cmp` whose operands hold the values of its two
/// sides and the jump on the selected condition; a move into a temporary gives
/// it the value of its source (unless it [`clobbers`] it); a store writes the
/// value of its source at its address (unless the source is an operation on
/// the stored word, updated in place); a return of temporaries moves them to
/// the return locations; a call of temporaries moves them to where the callee
/// reads them, and ends in the call and the moves of its results. None holds a
/// `ret`.
#[verifier::opaque]
pub open spec fn statement_tiled(
    segment: Seq<assembly::Statement<Temporary>>,
    statement: lir::Statement<lir::Fallthrough>,
    area: Option<Temporary>,
    counter: int,
    callee: int,
) -> bool {
    &&& ret_free(segment)
    &&& match statement {
        lir::Statement::Label(label) => segment == seq![assembly::Statement::<Temporary>::Label(label)],
        lir::Statement::Jump(label) => segment == seq![assembly::Statement::<Temporary>::Jmp(label)],
        lir::Statement::CJump { condition, left, right, if_true, .. } => segment.len() > 1 && segment.last()
            == assembly::Statement::<Temporary>::Jcc(assembly::Condition::spec_from_ir(condition), if_true)
            && segment[segment.len() - 2] is Binary && segment[segment.len() - 2]->Binary_0 == assembly::Binary::Cmp && (clean(
            left,
            counter,
        ) && clean(right, counter) ==> forall|machine: Machine| #![trigger machine.run(segment.take(segment.len() - 2))]
            machine.run(segment.take(segment.len() - 2)).read(segment[segment.len() - 2]->Binary_1.spec_destination())
                == machine.evaluate(left) && machine.run(segment.take(segment.len() - 2)).read(
                segment[segment.len() - 2]->Binary_1.spec_source(),
            ) == machine.evaluate(right)),
        lir::Statement::Move { destination: lir::Expression::Memory(address), source } => clean(*address, counter) && clean(
            source,
            counter,
        ) && !in_place(lir::Expression::Memory(address), source) ==> forall|machine: Machine|
            #![trigger machine.run(segment)]
            agrees(machine.store(machine.evaluate(*address), machine.evaluate(source)), machine.run(segment), counter),
        lir::Statement::Move { destination: lir::Expression::Temporary(temporary), source } => clean(source, counter)
            && !scratch(temporary, counter) && !clobbers(source, temporary) ==> forall|machine: Machine|
            #![trigger machine.run(segment)]
            agrees(machine.set(temporary, machine.evaluate(source)), machine.run(segment), counter),
        lir::Statement::Return(values) => (forall|i: int| 0 <= i < values@.len() ==> #[trigger] values@[i] is Temporary)
            ==> segment == return_moves(area, values@),
        lir::Statement::Call(_, arguments, returned) => (exists|i: int|
            0 <= i < segment.len() && #[trigger] segment[i] == assembly::Statement::Unary(
                assembly::Unary::Call {
                    arguments: (arguments@.len() + if returned@.len() > 2 { 1int } else { 0int }) as usize,
                    returned: returned@.len() as usize,
                },
                segment[i]->Unary_1,
            ) && segment.skip(i + 1) == result_moves(callee, returned@)) && ((forall|j: int|
            0 <= j < arguments@.len() ==> #[trigger] arguments@[j] is Temporary) ==> call_setup(
            callee,
            arguments@,
            returned@.len(),
        ).len() <= segment.len() && segment.take(call_setup(callee, arguments@, returned@.len()).len() as int) == call_setup(
            callee,
            arguments@,
            returned@.len(),
        )),
        _ => true,
    }
}

/// The moves of a callee's results from where it returns them into `returned`.
pub open spec fn result_moves(callee: int, returned: Seq<Temporary>) -> Seq<assembly::Statement<Temporary>> {
    Seq::new(
        returned.len(),
        |i: int|
            assembly::Statement::Binary(
                assembly::Binary::Mov,
                into_register(returned[i], abi::spec_read_return(callee, i)),
            ),
    )
}

/// What a call does before it computes its target, when its arguments are
/// temporaries: pass the address of the area for results beyond the second,
/// then move each argument to where the callee reads it.
pub open spec fn call_setup(callee: int, arguments: Seq<lir::Expression>, returned: nat) -> Seq<assembly::Statement<Temporary>> {
    let offset: int = if returned > 2 { 1 } else { 0 };
    let area = if returned > 2 {
        seq![
            assembly::Statement::Binary(
                assembly::Binary::Lea,
                operands_of(abi::spec_write_argument(0), abi::spec_read_return(callee, 2)),
            ),
        ]
    } else {
        Seq::empty()
    };
    area + Seq::new(
        arguments.len(),
        |i: int|
            assembly::Statement::Binary(
                assembly::Binary::Mov,
                operands_of(abi::spec_write_argument(i + offset), Unary::R(arguments[i]->Temporary_0)),
            ),
    )
}

/// The number of arguments of the callee that takes the most, or zero.
pub open spec fn callee_of(function: lir::Function<lir::Fallthrough>) -> int {
    match lir::spec_callee_arguments(function.statements@) {
        Some(count) => count as int,
        None => 0,
    }
}

/// Each statement of `statements` after the first has, in order, its segment
/// among `segments`, tiled with fresh temporaries numbered from its counter
/// among `counters`, none below `first`.
pub open spec fn segments_tile(
    segments: Seq<Seq<assembly::Statement<Temporary>>>,
    counters: Seq<int>,
    statements: Seq<lir::Statement<lir::Fallthrough>>,
    area: Option<Temporary>,
    first: int,
    callee: int,
) -> bool {
    &&& segments.len() + 1 == statements.len()
    &&& counters.len() == segments.len()
    &&& forall|j: int|
        0 <= j < segments.len() ==> first <= counters[j] && statement_tiled(
            #[trigger] segments[j],
            statements[j + 1],
            area,
            counters[j],
            callee,
        )
}

/// The enter label, the prologue and the moves that save the kept callee-saved
/// registers into `temporaries`.
pub open spec fn opening(
    frame_pointer: FramePointer,
    enter: operand::Label,
    temporaries: Seq<Temporary>,
) -> Seq<assembly::Statement<Temporary>> {
    seq![assembly::Statement::Label(enter)] + prologue(frame_pointer) + saves(
        temporaries,
        kept(abi::spec_callee_saved(), frame_pointer),
    )
}

/// The moves that restore the kept callee-saved registers from `temporaries`,
/// and the epilogue.
pub open spec fn closing(
    frame_pointer: FramePointer,
    returned: usize,
    temporaries: Seq<Temporary>,
) -> Seq<assembly::Statement<Temporary>> {
    restores(temporaries, kept(abi::spec_callee_saved(), frame_pointer)) + epilogue(frame_pointer, returned)
}

proof fn lemma_ret_free_join(first: Seq<assembly::Statement<Temporary>>, second: Seq<assembly::Statement<Temporary>>)
    requires
        ret_free(first),
        ret_free(second),
    ensures
        ret_free(first + second),
{
    let both = first + second;
    assert forall|i: int| 0 <= i < both.len() implies !(#[trigger] both[i] matches assembly::Statement::Nullary(
        assembly::Nullary::Ret(_),
    )) by {
        if i < first.len() {
            assert(both[i] == first[i]);
        } else {
            assert(both[i] == second[i - first.len()]);
        }
    }
}

/// The frame holds no `ret` but the last statement of the epilogue.
proof fn lemma_frame_ret_free(frame_pointer: FramePointer, enter: operand::Label, temporaries: Seq<Temporary>)
    ensures
        ret_free(opening(frame_pointer, enter, temporaries)),
        ret_free(restores(temporaries, kept(abi::spec_callee_saved(), frame_pointer))),
        ret_free(prologue(frame_pointer)),
{
    let registers = kept(abi::spec_callee_saved(), frame_pointer);
    let saved = saves(temporaries, registers);
    let restored = restores(temporaries, registers);
    assert forall|i: int| 0 <= i < saved.len() implies !(#[trigger] saved[i] matches assembly::Statement::Nullary(
        assembly::Nullary::Ret(_),
    )) by {}
    assert forall|i: int| 0 <= i < restored.len() implies !(#[trigger] restored[i] matches assembly::Statement::Nullary(
        assembly::Nullary::Ret(_),
    )) by {}
    let label = seq![assembly::Statement::<Temporary>::Label(enter)];
    assert forall|i: int| 0 <= i < label.len() implies !(#[trigger] label[i] matches assembly::Statement::Nullary(
        assembly::Nullary::Ret(_),
    )) by {}
    let opened = prologue(frame_pointer);
    assert forall|i: int| 0 <= i < opened.len() implies !(#[trigger] opened[i] matches assembly::Statement::Nullary(
        assembly::Nullary::Ret(_),
    )) by {}
    lemma_ret_free_join(label, opened);
    lemma_ret_free_join(label + opened, saved);
}

/// One more statement tiled.
proof fn lemma_segments_step(
    segments: Seq<Seq<assembly::Statement<Temporary>>>,
    counters: Seq<int>,
    statements: Seq<lir::Statement<lir::Fallthrough>>,
    index: int,
    segment: Seq<assembly::Statement<Temporary>>,
    counter: int,
    area: Option<Temporary>,
    first: int,
    callee: int,
)
    requires
        1 <= index < statements.len(),
        segments_tile(segments, counters, statements.take(index), area, first, callee),
        statement_tiled(segment, statements[index], area, counter, callee),
        first <= counter,
    ensures
        segments_tile(segments.push(segment), counters.push(counter), statements.take(index + 1), area, first, callee),
        joined(segments.push(segment)) == joined(segments) + segment,
{
    let longer = statements.take(index + 1);
    let shorter = statements.take(index);
    let more = segments.push(segment);
    let counted = counters.push(counter);
    assert(more.drop_last() =~= segments);
    assert forall|j: int| #![trigger more[j]] #![trigger counted[j]] 0 <= j < more.len() implies first <= counted[j]
        && statement_tiled(more[j], longer[j + 1], area, counted[j], callee) by {
        if j + 1 < index {
            assert(longer[j + 1] == shorter[j + 1]);
            assert(more[j] == segments[j]);
            assert(counted[j] == counters[j]);
        } else {
            assert(longer[j + 1] == statements[index]);
            assert(more[j] == segment);
            assert(counted[j] == counter);
        }
    }
    assert(longer.len() == index + 1);
    assert(shorter.len() == index);
}

/// A function tiled as the pieces say is framed, has its body tiled, and holds
/// no `ret` but its last statement.
proof fn lemma_tiled_body(
    frame_pointer: FramePointer,
    name: Symbol,
    function: lir::Function<lir::Fallthrough>,
    statements: Seq<assembly::Statement<Temporary>>,
    first: int,
    segments: Seq<Seq<assembly::Statement<Temporary>>>,
    counters: Seq<int>,
    added: Seq<assembly::Statement<Temporary>>,
)
    requires
        statements == opening(frame_pointer, function.enter, saved_in(frame_pointer, name, first, function.returned))
            + added + closing(frame_pointer, function.returned, saved_in(frame_pointer, name, first, function.returned)),
        added == argument_moves(return_area(name, first, function.returned), function.arguments@) + joined(segments),
        segments_tile(
            segments,
            counters,
            function.statements@,
            return_area(name, first, function.returned),
            first,
            callee_of(function),
        ),
        ret_free(added),
    ensures
        body_tiled(frame_pointer, name, function, statements, first),
        ret_free(statements.drop_last()),
{
    let temporaries = saved_in(frame_pointer, name, first, function.returned);
    let head = opening(frame_pointer, function.enter, temporaries);
    let restored = restores(temporaries, kept(abi::spec_callee_saved(), frame_pointer));
    lemma_frame_ret_free(frame_pointer, function.enter, temporaries);
    lemma_ret_free_join(head, added);
    lemma_ret_free_join(head + added, restored);
    if frame_pointer == FramePointer::Keep {
        let pop = seq![
            assembly::Statement::<Temporary>::Unary(assembly::Unary::Pop, Unary::R(Temporary::Register(Register::Rbp))),
        ];
        assert forall|i: int| 0 <= i < pop.len() implies !(#[trigger] pop[i] matches assembly::Statement::Nullary(
            assembly::Nullary::Ret(_),
        )) by {}
        lemma_ret_free_join(head + added + restored, pop);
        assert(statements.drop_last() =~= head + added + restored + pop);
    } else {
        assert(statements.drop_last() =~= head + added + restored);
    }
    assert(statements =~= head + argument_moves(return_area(name, first, function.returned), function.arguments@)
        + joined(segments) + closing(frame_pointer, function.returned, temporaries));
}

/// The segments one after the other.
pub open spec fn joined(segments: Seq<Seq<assembly::Statement<Temporary>>>) -> Seq<assembly::Statement<Temporary>>
    decreases segments.len(),
{
    if segments.len() == 0 {
        Seq::empty()
    } else {
        joined(segments.drop_last()) + segments.last()
    }
}

/// The addressing mode that holds `address` with no instruction before it, for
/// the forms that have one: an offset, a base, a base plus or minus an offset,
/// and a base plus an index.
pub open spec fn direct_address(address: lir::Expression) -> Option<Memory<Temporary>> {
    match address {
        lir::Expression::Immediate(offset) => Some(Memory::O { offset }),
        lir::Expression::Temporary(base) => Some(Memory::B { base }),
        lir::Expression::Binary(binary, left, right) => if binary == ir::Binary::Add {
            match (*left, *right) {
                (lir::Expression::Temporary(base), lir::Expression::Immediate(offset)) => Some(Memory::BO { base, offset }),
                (lir::Expression::Immediate(offset), lir::Expression::Temporary(base)) => Some(Memory::BO { base, offset }),
                (lir::Expression::Temporary(base), lir::Expression::Temporary(index)) => Some(Memory::BI { base, index }),
                _ => None,
            }
        } else if binary == ir::Binary::Sub {
            match (*left, *right) {
                (lir::Expression::Temporary(base), lir::Expression::Immediate(Immediate::Integer(offset))) => Some(
                    Memory::BO {
                        base,
                        offset: Immediate::Integer(if offset == i64::MIN { i64::MIN } else { (-offset) as i64 }),
                    },
                ),
                _ => None,
            }
        } else {
            None
        },
        _ => None,
    }
}

/// `source` is an operation on `destination` that tiling updates in place.
pub open spec fn in_place(destination: lir::Expression, source: lir::Expression) -> bool {
    match source {
        lir::Expression::Binary(binary, left, right) => same_leaf(Some(&destination), spine_leaf(binary, *left, *right)),
        _ => false,
    }
}

/// Whether a binary expression tree updated its destination in place.
enum Mutate {
    Yes,
    No,
}

/// Instruction selection state: the instructions so far, where the caller
/// wants return values beyond the second, the most arguments any callee takes,
/// and the counter that numbers fresh temporaries.
struct Tiler {
    statements: Vec<assembly::Statement<Temporary>>,
    caller_returned: Option<Temporary>,
    callee_arguments: usize,
    counter: usize,
    name: Symbol,
}

/// Code run in two parts.
proof fn lemma_parts(machine: Machine, start: Tiler, middle: Tiler, end: Tiler)
    requires
        middle.extends(start),
        end.extends(middle),
    ensures
        end.extends(start),
        machine.run(end.added(start)) == machine.run(middle.added(start)).run(end.added(middle)),
{
    Tiler::lemma_extends_transitive(start, middle, end);
    lemma_run_append(machine, middle.added(start), end.added(middle));
}

/// Code followed by one more instruction.
proof fn lemma_then(
    machine: Machine,
    start: Tiler,
    middle: Tiler,
    end: Tiler,
    statement: assembly::Statement<Temporary>,
)
    requires
        middle.extends(start),
        end.extends(middle),
        end.added(middle) == seq![statement],
    ensures
        end.extends(start),
        machine.run(end.added(start)) == machine.run(middle.added(start)).step(statement),
{
    Tiler::lemma_extends_transitive(start, middle, end);
    assert(end.added(start) =~= middle.added(start).push(statement));
    lemma_run_push(machine, middle.added(start), statement);
}

/// Code that added nothing.
proof fn lemma_nothing(machine: Machine, start: Tiler, end: Tiler)
    requires
        end.extends(start),
        end.statements@.len() == start.statements@.len(),
    ensures
        machine.run(end.added(start)) == machine,
{
    assert(end.added(start) =~= Seq::<assembly::Statement<Temporary>>::empty());
}

/// The weight of a prefix grows by the next element and stays below the whole.
proof fn lemma_weights_prefix(expressions: Seq<lir::Expression>, index: int)
    requires
        0 <= index < expressions.len(),
    ensures
        weights(expressions.take(index + 1)) == weights(expressions.take(index)) + weight(expressions[index]),
        weights(expressions.take(index + 1)) <= weights(expressions),
    decreases expressions.len(),
{
    assert(expressions.take(index + 1).drop_last() =~= expressions.take(index));
    if index + 1 < expressions.len() {
        lemma_weights_prefix(expressions.drop_last(), index);
        assert(expressions.drop_last().take(index + 1) =~= expressions.take(index + 1));
        assert(expressions.drop_last().take(index) =~= expressions.take(index));
    } else {
        assert(expressions.take(index + 1) =~= expressions);
    }
}

proof fn lemma_statements_weight_prefix(statements: Seq<lir::Statement<lir::Fallthrough>>, index: int)
    requires
        0 <= index < statements.len(),
    ensures
        statements_weight(statements.take(index + 1)) == statements_weight(statements.take(index))
            + statement_weight(statements[index]),
        statements_weight(statements.take(index + 1)) <= statements_weight(statements),
    decreases statements.len(),
{
    assert(statements.take(index + 1).drop_last() =~= statements.take(index));
    if index + 1 < statements.len() {
        lemma_statements_weight_prefix(statements.drop_last(), index);
        assert(statements.drop_last().take(index + 1) =~= statements.take(index + 1));
        assert(statements.drop_last().take(index) =~= statements.take(index));
    } else {
        assert(statements.take(index + 1) =~= statements);
    }
}

/// `index * 8` and `8 * index` multiply the index by eight.
proof fn lemma_times_eight(machine: Machine, left: lir::Expression, right: lir::Expression, index: Temporary)
    requires
        (left == lir::Expression::Temporary(index) && right == lir::Expression::Immediate(Immediate::Integer(8))) || (
        left == lir::Expression::Immediate(Immediate::Integer(8)) && right == lir::Expression::Temporary(index)),
    ensures
        arithmetic(ir::Binary::Mul, machine.evaluate(left), machine.evaluate(right)) == wrap(
            machine.temporary(index) * 8,
        ),
{
}

/// `base + (offset + index * 8)` is the address `[base + index * 8 + offset]`.
proof fn lemma_scaled_offset(machine: Machine, base: Temporary, offset: Immediate, tree: lir::Expression, index: i64)
    requires
        machine.evaluate(tree) == wrap(index * 8),
    ensures
        machine.evaluate(sum(lir::Expression::Temporary(base), sum(lir::Expression::Immediate(offset), tree)))
            == wrap(machine.temporary(base) + index * 8 + machine.immediate(offset)),
{
    reveal_with_fuel(Machine::evaluate, 3);
    let b = machine.temporary(base);
    let o = machine.immediate(offset);
    lemma_wrap_inner(o as int, index * 8);
    lemma_wrap_inner(b as int, o + wrap(index * 8));
    lemma_wrap_inner(b + o, index * 8);
}

/// A two-register addressing mode reads nothing scratch when neither register is.
proof fn lemma_stable_pair(memory: Memory<Temporary>, first: Temporary, second: Temporary, lower: int, counter: int)
    requires
        Unary::M(memory).operands() == seq![first, second],
        lower <= counter,
        !scratch(first, lower),
        !scratch(second, counter),
    ensures
        stable(Unary::M(memory), counter),
{
    assert forall|i: int| 0 <= i < Unary::M(memory).operands().len() implies !scratch(
        #[trigger] Unary::M(memory).operands()[i],
        counter,
    ) by {
        if i == 0 {
            assert(Unary::M(memory).operands()[i] == first);
        } else {
            assert(Unary::M(memory).operands()[i] == second);
        }
    }
}

/// `mov` into a register.
proof fn lemma_move(machine: Machine, destination: Temporary, source: Unary<Temporary>)
    ensures
        machine.step(assembly::Statement::Binary(assembly::Binary::Mov, into_register(destination, source)))
            == machine.set(destination, machine.read(source)),
{
}

/// A two-operand arithmetic instruction on a register computes the IR operator.
proof fn lemma_operator(machine: Machine, binary: ir::Binary, destination: Temporary, source: Unary<Temporary>)
    requires
        assembly::Binary::has_instruction(binary),
    ensures
        machine.step(
            assembly::Statement::Binary(assembly::Binary::spec_from_ir(binary), into_register(destination, source)),
        ) == machine.set(destination, arithmetic(binary, machine.temporary(destination), machine.read(source))),
{
}

/// Whether `expression` is the integer zero.
fn is_zero(expression: &lir::Expression) -> (zero: bool)
    ensures
        zero == (*expression == lir::Expression::Immediate(Immediate::Integer(0))),
{
    match expression {
        lir::Expression::Immediate(Immediate::Integer(0)) => true,
        _ => false,
    }
}

impl Tiler {
    /// `self` is `before` with instructions appended and the counter advanced.
    spec fn extends(self, before: Tiler) -> bool {
        &&& before.statements@.len() <= self.statements@.len()
        &&& self.statements@.take(before.statements@.len() as int) == before.statements@
        &&& before.counter <= self.counter
        &&& self.caller_returned == before.caller_returned
        &&& self.callee_arguments == before.callee_arguments
        &&& self.name == before.name
        &&& ret_free(self.added(before))
    }

    /// The instructions appended since `before`.
    spec fn added(self, before: Tiler) -> Seq<assembly::Statement<Temporary>> {
        self.statements@.skip(before.statements@.len() as int)
    }

    proof fn lemma_extends_transitive(first: Tiler, second: Tiler, third: Tiler)
        requires
            second.extends(first),
            third.extends(second),
        ensures
            third.extends(first),
            third.added(first) == second.added(first) + third.added(second),
    {
        assert(third.statements@.take(first.statements@.len() as int) =~= first.statements@) by {
            assert(third.statements@.take(second.statements@.len() as int).take(
                first.statements@.len() as int,
            ) =~= third.statements@.take(first.statements@.len() as int));
        }
        assert(third.added(first) =~= second.added(first) + third.added(second)) by {
            assert forall|i: int| 0 <= i < third.added(first).len() implies third.added(first)[i] == (
            second.added(first) + third.added(second))[i] by {
                let k = first.statements@.len() + i;
                if k < second.statements@.len() {
                    assert(third.statements@.take(second.statements@.len() as int)[k] == second.statements@[k]);
                }
            }
        }
        let joined = second.added(first) + third.added(second);
        assert forall|i: int| 0 <= i < joined.len() implies !(#[trigger] joined[i] matches assembly::Statement::Nullary(
            assembly::Nullary::Ret(_),
        )) by {
            if i < second.added(first).len() {
                assert(joined[i] == second.added(first)[i]);
            } else {
                assert(joined[i] == third.added(second)[i - second.added(first).len()]);
            }
        }
    }

    proof fn lemma_extends_reflexive(tiler: Tiler)
        ensures
            tiler.extends(tiler),
            tiler.added(tiler) == Seq::<assembly::Statement<Temporary>>::empty(),
    {
        assert(tiler.statements@.take(tiler.statements@.len() as int) =~= tiler.statements@);
        assert(tiler.added(tiler) =~= Seq::<assembly::Statement<Temporary>>::empty());
    }

    fn push(&mut self, statement: assembly::Statement<Temporary>)
        requires
            !(statement matches assembly::Statement::Nullary(assembly::Nullary::Ret(_))),
        ensures
            final(self).extends(*old(self)),
            final(self).statements@ == old(self).statements@.push(statement),
            final(self).counter == old(self).counter,
            final(self).added(*old(self)) == seq![statement],
    {
        self.statements.push(statement);
        assert(self.statements@.take(old(self).statements@.len() as int) =~= old(self).statements@);
        assert(self.added(*old(self)) =~= seq![statement]);
    }

    /// A temporary numbered by the counter, which then advances.
    fn fresh(&mut self) -> (fresh: Temporary)
        requires
            old(self).counter < usize::MAX,
        ensures
            final(self).extends(*old(self)),
            final(self).statements@ == old(self).statements@,
            final(self).counter == old(self).counter + 1,
            fresh == Temporary::Fresh(old(self).name, old(self).counter as usize),
            scratch(fresh, old(self).counter as int),
            !scratch(fresh, final(self).counter as int),
    {
        let name = self.name;
        let fresh = Temporary::fresh(name, &mut self.counter);
        assert(self.statements@.take(old(self).statements@.len() as int) =~= old(self).statements@);
        fresh
    }

    /// Move `operand` into a temporary unless it is one already.
    fn shuttle(&mut self, operand: Unary<Temporary>) -> (shuttled: Temporary)
        requires
            old(self).counter < usize::MAX,
        ensures
            final(self).extends(*old(self)),
            final(self).counter <= old(self).counter + 1,
            operand is R ==> shuttled == operand->R_0 && final(self).statements@ == old(self).statements@
                && final(self).counter == old(self).counter,
            !(operand is R) ==> scratch(shuttled, old(self).counter as int) && final(self).added(*old(self)) == seq![
                assembly::Statement::Binary(assembly::Binary::Mov, into_register(shuttled, operand)),
            ],
            stable(operand, old(self).counter as int) ==> stable(Unary::R(shuttled), final(self).counter as int),
            forall|machine: Machine| #![trigger machine.run(final(self).added(*old(self)))]
                agrees(machine, machine.run(final(self).added(*old(self))), old(self).counter as int)
                    && machine.run(final(self).added(*old(self))).temporary(shuttled) == machine.read(operand),
    {
        match operand {
            Unary::R(temporary) => {
                proof {
                    Tiler::lemma_extends_reflexive(*self);
                    assert(operand.operands()[0] == temporary);
                }
                temporary
            },
            Unary::I(source) => {
                let destination = self.fresh();
                let ghost middle = *self;
                self.push(assembly::Statement::Binary(assembly::Binary::Mov, operand::Binary::RI { destination, source }));
                proof {
                    Tiler::lemma_extends_transitive(*old(self), middle, *self);
                    assert(middle.added(*old(self)) =~= Seq::<assembly::Statement<Temporary>>::empty());
                    assert(self.added(*old(self)) =~= self.added(middle));
                    assert(Unary::R(destination).operands()[0] == destination);
                    assert forall|machine: Machine| #![trigger machine.run(self.added(*old(self)))]
                        agrees(machine, machine.run(self.added(*old(self))), old(self).counter as int)
                            && machine.run(self.added(*old(self))).temporary(destination) == machine.read(operand) by {
                        lemma_run_push(machine, Seq::empty(), self.added(*old(self))[0]);
                        assert(Seq::<assembly::Statement<Temporary>>::empty().push(self.added(*old(self))[0])
                            =~= self.added(*old(self)));
                    }
                }
                destination
            },
            Unary::M(source) => {
                let destination = self.fresh();
                let ghost middle = *self;
                self.push(assembly::Statement::Binary(assembly::Binary::Mov, operand::Binary::RM { destination, source }));
                proof {
                    Tiler::lemma_extends_transitive(*old(self), middle, *self);
                    assert(middle.added(*old(self)) =~= Seq::<assembly::Statement<Temporary>>::empty());
                    assert(self.added(*old(self)) =~= self.added(middle));
                    assert(Unary::R(destination).operands()[0] == destination);
                    assert forall|machine: Machine| #![trigger machine.run(self.added(*old(self)))]
                        agrees(machine, machine.run(self.added(*old(self))), old(self).counter as int)
                            && machine.run(self.added(*old(self))).temporary(destination) == machine.read(operand) by {
                        lemma_run_push(machine, Seq::empty(), self.added(*old(self))[0]);
                        assert(Seq::<assembly::Statement<Temporary>>::empty().push(self.added(*old(self))[0])
                            =~= self.added(*old(self)));
                    }
                }
                destination
            },
        }
    }

    /// Emit `binary` on the two operands, moving an operand into a temporary
    /// where x86 has no such form: an immediate destination, or memory on both sides.
    fn tile_binary(&mut self, binary: assembly::Binary, destination: Unary<Temporary>, source: Unary<Temporary>)
        requires
            old(self).counter < usize::MAX,
        ensures
            final(self).extends(*old(self)),
            final(self).counter <= old(self).counter + 1,
            destination is R ==> final(self).counter == old(self).counter && final(self).added(*old(self)) == seq![
                assembly::Statement::Binary(binary, into_register(destination->R_0, source)),
            ],
            destination is M && !(source is M) ==> final(self).counter == old(self).counter && final(self).added(
                *old(self),
            ) == seq![assembly::Statement::Binary(binary, operands_of(destination, source))],
            final(self).added(*old(self)).len() > 0,
            final(self).added(*old(self)).last() matches assembly::Statement::Binary(found, _) && found == binary,
            stable(destination, old(self).counter as int) && stable(source, old(self).counter as int) ==> forall|
                machine: Machine,
            |
                #![trigger machine.run(final(self).added(*old(self)).drop_last())]
                {
                    let before = machine.run(final(self).added(*old(self)).drop_last());
                    let operands = final(self).added(*old(self)).last()->Binary_1;
                    &&& agrees(machine, before, old(self).counter as int)
                    &&& before.read(operands.spec_destination()) == machine.read(destination)
                    &&& before.read(operands.spec_source()) == machine.read(source)
                    &&& (destination is M ==> operands.spec_destination() == destination)
                },
    {
        let ghost start = *self;
        proof {
            Tiler::lemma_extends_reflexive(start);
        }
        let operands = match destination {
            Unary::R(destination) => match source {
                Unary::I(source) => operand::Binary::RI { destination, source },
                Unary::R(source) => operand::Binary::RR { destination, source },
                Unary::M(source) => operand::Binary::RM { destination, source },
            },
            Unary::I(_) => {
                let shuttled = self.shuttle(destination);
                match source {
                    Unary::I(source) => operand::Binary::RI { destination: shuttled, source },
                    Unary::R(source) => operand::Binary::RR { destination: shuttled, source },
                    Unary::M(source) => operand::Binary::RM { destination: shuttled, source },
                }
            },
            Unary::M(destination) => match source {
                Unary::I(source) => operand::Binary::MI { destination, source },
                Unary::R(source) => operand::Binary::MR { destination, source },
                Unary::M(_) => {
                    let shuttled = self.shuttle(source);
                    operand::Binary::MR { destination, source: shuttled }
                },
            },
        };
        let ghost middle = *self;
        self.push(assembly::Statement::Binary(binary, operands));
        proof {
            Tiler::lemma_extends_transitive(start, middle, *self);
            if destination is R {
                assert(middle == start);
                assert(self.added(start) =~= self.added(middle));
            }
            assert(self.added(start).drop_last() =~= middle.added(start));
            assert(self.added(start).last() == assembly::Statement::Binary(binary, operands));
            if stable(destination, start.counter as int) && stable(source, start.counter as int) {
                assert forall|machine: Machine| #![trigger machine.run(self.added(start).drop_last())] {
                    let before = machine.run(self.added(start).drop_last());
                    &&& agrees(machine, before, start.counter as int)
                    &&& before.read(operands.spec_destination()) == machine.read(destination)
                    &&& before.read(operands.spec_source()) == machine.read(source)
                    &&& (destination is M ==> operands.spec_destination() == destination)
                } by {
                    let before = machine.run(middle.added(start));
                    if middle.statements@.len() == start.statements@.len() {
                        assert(middle.added(start) =~= Seq::<assembly::Statement<Temporary>>::empty());
                        assert(before == machine);
                    } else {
                        assert(before == machine.run(middle.added(start)));
                        lemma_read_agrees(source, machine, before, start.counter as int);
                        lemma_read_agrees(destination, machine, before, start.counter as int);
                    }
                }
            }
        }
    }

    fn tile_unary(&mut self, unary: assembly::Unary, destination: Unary<Temporary>) -> (tiled: Unary<Temporary>)
        ensures
            final(self).extends(*old(self)),
            final(self).counter == old(self).counter,
            final(self).added(*old(self)) == seq![assembly::Statement::Unary(unary, destination)],
            tiled == destination,
    {
        self.push(assembly::Statement::Unary(unary, destination));
        destination
    }

    /// Tile `expression` into an operand that holds its value.
    fn tile_expression(&mut self, expression: &lir::Expression) -> (tiled: Unary<Temporary>)
        requires
            old(self).counter + 3 * size(*expression) + 2 <= usize::MAX,
        ensures
            final(self).extends(*old(self)),
            final(self).counter <= old(self).counter + 3 * size(*expression),
            clean(*expression, old(self).counter as int) ==> stable(tiled, final(self).counter as int) && computes(
                final(self).added(*old(self)),
                tiled,
                *expression,
                old(self).counter as int,
            ),
            *expression matches lir::Expression::Temporary(temporary) ==> tiled == Unary::R(temporary)
                && final(self).statements@ == old(self).statements@,
            *expression matches lir::Expression::Memory(address) ==> tiled is M && (clean(*address, old(self).counter as int)
                ==> stable(tiled, final(self).counter as int) && locates(
                final(self).added(*old(self)),
                tiled->M_0,
                *address,
                old(self).counter as int,
            )),
        decreases size(*expression), 1nat,
    {
        let ghost start = *self;
        proof {
            Tiler::lemma_extends_reflexive(start);
        }
        match expression {
            lir::Expression::Immediate(immediate) => {
                if immediate.is_64_bit() {
                    // Only `mov r64, imm64` takes a 64-bit immediate.
                    let shuttled = self.shuttle(Unary::I(*immediate));
                    proof {
                        assert(Unary::<Temporary>::I(*immediate).operands() =~= Seq::<Temporary>::empty());
                    }
                    Unary::R(shuttled)
                } else {
                    proof {
                        assert forall|machine: Machine| #![trigger machine.run(self.added(start))] agrees(
                            machine,
                            machine.run(self.added(start)),
                            start.counter as int,
                        ) && machine.run(self.added(start)).read(Unary::I(*immediate)) == machine.evaluate(
                            *expression,
                        ) by {
                            lemma_nothing(machine, start, *self);
                        }
                        assert(Unary::<Temporary>::I(*immediate).operands() =~= Seq::<Temporary>::empty());
                    }
                    Unary::I(*immediate)
                }
            },
            lir::Expression::Temporary(temporary) => {
                proof {
                    assert forall|machine: Machine| #![trigger machine.run(self.added(start))] agrees(
                        machine,
                        machine.run(self.added(start)),
                        start.counter as int,
                    ) && machine.run(self.added(start)).read(Unary::R(*temporary)) == machine.evaluate(*expression) by {
                        lemma_nothing(machine, start, *self);
                    }
                    assert(Unary::R(*temporary).operands()[0] == *temporary);
                }
                Unary::R(*temporary)
            },
            lir::Expression::Memory(address) => {
                let memory = self.tile_memory(address);
                Unary::M(memory)
            },
            lir::Expression::Binary(binary, left, right) => {
                let (_, tiled) = self.tile_binary_expression(*binary, left, right, None);
                tiled
            },
        }
    }

    /// Tile `expression` into a temporary.
    fn shuttle_expression(&mut self, expression: &lir::Expression) -> (shuttled: Temporary)
        requires
            old(self).counter + 3 * size(*expression) + 2 <= usize::MAX,
        ensures
            final(self).extends(*old(self)),
            final(self).counter <= old(self).counter + 3 * size(*expression) + 1,
            clean(*expression, old(self).counter as int) ==> stable(Unary::R(shuttled), final(self).counter as int)
                && computes(final(self).added(*old(self)), Unary::R(shuttled), *expression, old(self).counter as int),
        decreases size(*expression), 2nat,
    {
        let ghost start = *self;
        let tiled = self.tile_expression(expression);
        let ghost middle = *self;
        let shuttled = self.shuttle(tiled);
        proof {
            Tiler::lemma_extends_transitive(start, middle, *self);
            if clean(*expression, start.counter as int) {
                assert forall|machine: Machine| #![trigger machine.run(self.added(start))] agrees(
                    machine,
                    machine.run(self.added(start)),
                    start.counter as int,
                ) && machine.run(self.added(start)).read(Unary::R(shuttled)) == machine.evaluate(*expression) by {
                    lemma_parts(machine, start, middle, *self);
                    let first = machine.run(middle.added(start));
                    let second = first.run(self.added(middle));
                    lemma_agrees_transitive(machine, first, second, start.counter as int, start.counter as int, middle.counter as int);
                }
            }
        }
        shuttled
    }

    /// Tile the address `address` and load the word there into a temporary.
    fn shuttle_memory(&mut self, address: &lir::Expression) -> (shuttled: Temporary)
        requires
            old(self).counter + 3 * size(*address) + 2 <= usize::MAX,
        ensures
            final(self).extends(*old(self)),
            final(self).counter <= old(self).counter + 3 * size(*address) + 2,
            clean(*address, old(self).counter as int) ==> stable(Unary::R(shuttled), final(self).counter as int)
                && forall|machine: Machine| #![trigger machine.run(final(self).added(*old(self)))] agrees(
                machine,
                machine.run(final(self).added(*old(self))),
                old(self).counter as int,
            ) && machine.run(final(self).added(*old(self))).temporary(shuttled) == (machine.memory)(
                machine.evaluate(*address),
            ),
        decreases size(*address), 4nat,
    {
        let ghost start = *self;
        let memory = self.tile_memory(address);
        let ghost middle = *self;
        let shuttled = self.shuttle(Unary::M(memory));
        proof {
            Tiler::lemma_extends_transitive(start, middle, *self);
            if clean(*address, start.counter as int) {
                assert forall|machine: Machine| #![trigger machine.run(self.added(start))] agrees(
                    machine,
                    machine.run(self.added(start)),
                    start.counter as int,
                ) && machine.run(self.added(start)).temporary(shuttled) == (machine.memory)(machine.evaluate(*address)) by {
                    lemma_parts(machine, start, middle, *self);
                    let first = machine.run(middle.added(start));
                    let second = first.run(self.added(middle));
                    lemma_agrees_transitive(machine, first, second, start.counter as int, start.counter as int, middle.counter as int);
                }
            }
        }
        shuttled
    }

    /// Tile an address into an x86 addressing mode, folding a base register, an
    /// index scaled by eight and an offset into the operand where the tree has
    /// that shape, and computing the rest into temporaries.
    #[verifier::spinoff_prover]
    fn tile_memory(&mut self, address: &lir::Expression) -> (memory: Memory<Temporary>)
        requires
            old(self).counter + 3 * size(*address) + 2 <= usize::MAX,
        ensures
            final(self).extends(*old(self)),
            final(self).counter <= old(self).counter + 3 * size(*address) + 1,
            clean(*address, old(self).counter as int) ==> stable(Unary::M(memory), final(self).counter as int)
                && locates(final(self).added(*old(self)), memory, *address, old(self).counter as int),
            direct_address(*address) matches Some(direct) ==> memory == direct && *final(self) == *old(self),
        decreases size(*address), 3nat,
    {
        let ghost start = *self;
        let ghost counter = start.counter as int;
        let ghost clean_premise = clean(*address, counter);
        proof {
            Tiler::lemma_extends_reflexive(start);
            reveal_with_fuel(Machine::evaluate, 2);
            reveal_with_fuel(clean, 2);
        }
        match address {
            lir::Expression::Immediate(offset) => {
                let memory = Memory::O { offset: *offset };
                proof {
                    assert forall|machine: Machine| #![trigger machine.run(self.added(start))] agrees(
                        machine,
                        machine.run(self.added(start)),
                        counter,
                    ) && machine.run(self.added(start)).address(memory) == machine.evaluate(*address) by {
                        lemma_nothing(machine, start, *self);
                    }
                    assert(Unary::M(memory).operands() =~= Seq::<Temporary>::empty());
                }
                memory
            },
            lir::Expression::Temporary(base) => {
                let memory = Memory::B { base: *base };
                proof {
                    assert forall|machine: Machine| #![trigger machine.run(self.added(start))] agrees(
                        machine,
                        machine.run(self.added(start)),
                        counter,
                    ) && machine.run(self.added(start)).address(memory) == machine.evaluate(*address) by {
                        lemma_nothing(machine, start, *self);
                    }
                    assert(Unary::M(memory).operands() =~= seq![*base]);
                }
                memory
            },
            lir::Expression::Memory(inner) => {
                let base = self.shuttle_memory(inner);
                let memory = Memory::B { base };
                proof {
                    assert(Unary::M(memory).operands() =~= seq![base]);
                    assert(Unary::R(base).operands()[0] == base);
                }
                memory
            },
            lir::Expression::Binary(binary, left, right) => {
                let binary = *binary;
                let left: &lir::Expression = left;
                let right: &lir::Expression = right;
                if binary == ir::Binary::Add {
                    // [base + ...] and [... + offset]
                    match (left, right) {
                        (lir::Expression::Temporary(base), lir::Expression::Binary(..)) => {
                            let memory = self.tile_base_plus(*base, right);
                            return memory;
                        },
                        (lir::Expression::Binary(..), lir::Expression::Temporary(base)) => {
                            let memory = self.tile_base_plus(*base, left);
                            proof {
                                assert forall|machine: Machine| #![trigger machine.run(self.added(start))]
                                    clean(*address, counter) ==> machine.evaluate(sum(lir::Expression::Temporary(*base), *left))
                                        == machine.evaluate(*address) by {}
                            }
                            return memory;
                        },
                        (lir::Expression::Immediate(offset), lir::Expression::Binary(..)) => {
                            let memory = self.tile_offset_plus(*offset, right);
                            return memory;
                        },
                        (lir::Expression::Binary(..), lir::Expression::Immediate(offset)) => {
                            let memory = self.tile_offset_plus(*offset, left);
                            proof {
                                assert forall|machine: Machine| #![trigger machine.run(self.added(start))]
                                    clean(*address, counter) ==> machine.evaluate(sum(lir::Expression::Immediate(*offset), *left))
                                        == machine.evaluate(*address) by {}
                            }
                            return memory;
                        },
                        // [base + offset]
                        (lir::Expression::Temporary(base), lir::Expression::Immediate(offset))
                        | (lir::Expression::Immediate(offset), lir::Expression::Temporary(base)) => {
                            let memory = Memory::BO { base: *base, offset: *offset };
                            proof {
                                assert forall|machine: Machine| #![trigger machine.run(self.added(start))] agrees(
                                    machine,
                                    machine.run(self.added(start)),
                                    counter,
                                ) && machine.run(self.added(start)).address(memory) == machine.evaluate(*address) by {
                                    lemma_nothing(machine, start, *self);
                                }
                                assert(Unary::M(memory).operands() =~= seq![*base]);
                            }
                            return memory;
                        },
                        // [base + index]
                        (lir::Expression::Temporary(base), lir::Expression::Temporary(index)) => {
                            let memory = Memory::BI { base: *base, index: *index };
                            proof {
                                assert forall|machine: Machine| #![trigger machine.run(self.added(start))] agrees(
                                    machine,
                                    machine.run(self.added(start)),
                                    counter,
                                ) && machine.run(self.added(start)).address(memory) == machine.evaluate(*address) by {
                                    lemma_nothing(machine, start, *self);
                                }
                                assert(Unary::M(memory).operands() =~= seq![*base, *index]);
                                if clean_premise {
                                    lemma_stable_pair(memory, *base, *index, counter, self.counter as int);
                                }
                            }
                            return memory;
                        },
                        _ => {},
                    }
                    // [_base_ + offset] and [base + _index_]
                    match (left, right) {
                        (lir::Expression::Immediate(offset), _) => {
                            let base = self.shuttle_expression(right);
                            let memory = Memory::BO { base, offset: *offset };
                            proof {
                                assert(Unary::M(memory).operands() =~= seq![base]);
                                assert(Unary::R(base).operands()[0] == base);
                            }
                            return memory;
                        },
                        (_, lir::Expression::Immediate(offset)) => {
                            let base = self.shuttle_expression(left);
                            let memory = Memory::BO { base, offset: *offset };
                            proof {
                                assert(Unary::M(memory).operands() =~= seq![base]);
                                assert(Unary::R(base).operands()[0] == base);
                            }
                            return memory;
                        },
                        (lir::Expression::Temporary(base), _) => {
                            let index = self.shuttle_expression(right);
                            let memory = Memory::BI { base: *base, index };
                            proof {
                                assert(Unary::M(memory).operands() =~= seq![*base, index]);
                                assert(Unary::R(index).operands()[0] == index);
                                if clean_premise {
                                    lemma_stable_pair(memory, *base, index, counter, self.counter as int);
                                }
                            }
                            return memory;
                        },
                        (_, lir::Expression::Temporary(base)) => {
                            let index = self.shuttle_expression(left);
                            let memory = Memory::BI { base: *base, index };
                            proof {
                                assert(Unary::M(memory).operands() =~= seq![*base, index]);
                                assert(Unary::R(index).operands()[0] == index);
                                if clean_premise {
                                    lemma_stable_pair(memory, *base, index, counter, self.counter as int);
                                }
                            }
                            return memory;
                        },
                        _ => {},
                    }
                } else if binary == ir::Binary::Sub {
                    // [base + -offset]
                    match (left, right) {
                        (lir::Expression::Temporary(base), lir::Expression::Immediate(Immediate::Integer(offset))) => {
                            let negated = if *offset == i64::MIN {
                                i64::MIN
                            } else {
                                -*offset
                            };
                            let memory = Memory::BO { base: *base, offset: Immediate::Integer(negated) };
                            proof {
                                assert forall|machine: Machine| #![trigger machine.run(self.added(start))] agrees(
                                    machine,
                                    machine.run(self.added(start)),
                                    counter,
                                ) && machine.run(self.added(start)).address(memory) == machine.evaluate(*address) by {
                                    lemma_nothing(machine, start, *self);
                                    let value = machine.temporary(*base);
                                    lemma_wrap_congruent(value + negated, value - *offset);
                                }
                                assert(Unary::M(memory).operands() =~= seq![*base]);
                            }
                            return memory;
                        },
                        _ => {},
                    }
                }
                // [_base_]
                let base = self.shuttle_expression(address);
                let memory = Memory::B { base };
                proof {
                    assert(Unary::M(memory).operands() =~= seq![base]);
                    assert(Unary::R(base).operands()[0] == base);
                }
                memory
            },
        }
    }

    /// Tile `base + tree` into an addressing mode with base register `base`.
    #[verifier::spinoff_prover]
    fn tile_base_plus(&mut self, base: Temporary, tree: &lir::Expression) -> (memory: Memory<Temporary>)
        requires
            old(self).counter + 3 * size(*tree) + 2 <= usize::MAX,
        ensures
            final(self).extends(*old(self)),
            final(self).counter <= old(self).counter + 3 * size(*tree) + 1,
            clean(*tree, old(self).counter as int) && !scratch(base, old(self).counter as int) ==> stable(
                Unary::M(memory),
                final(self).counter as int,
            ) && locates(
                final(self).added(*old(self)),
                memory,
                sum(lir::Expression::Temporary(base), *tree),
                old(self).counter as int,
            ),
        decreases size(*tree), 3nat,
    {
        let ghost start = *self;
        let ghost counter = start.counter as int;
        let ghost clean_premise = clean(*tree, counter) && !scratch(base, counter);
        let ghost target = sum(lir::Expression::Temporary(base), *tree);
        proof {
            Tiler::lemma_extends_reflexive(start);
            reveal_with_fuel(Machine::evaluate, 3);
            reveal_with_fuel(clean, 2);
        }
        match tree {
            lir::Expression::Binary(binary, left, right) => {
                let binary = *binary;
                let left: &lir::Expression = left;
                let right: &lir::Expression = right;
                if binary == ir::Binary::Add {
                    match (left, right) {
                        // [base + index * 8 + offset]
                        (lir::Expression::Immediate(offset), lir::Expression::Binary(..)) => {
                            let memory = self.tile_scaled(base, *offset, right);
                            return memory;
                        },
                        (lir::Expression::Binary(..), lir::Expression::Immediate(offset)) => {
                            let memory = self.tile_scaled(base, *offset, left);
                            proof {
                                assert forall|machine: Machine| #![trigger machine.run(self.added(start))]
                                    machine.evaluate(sum(lir::Expression::Temporary(base), sum(lir::Expression::Immediate(*offset), *left)))
                                        == machine.evaluate(target) by {}
                            }
                            return memory;
                        },
                        // [base + index + offset]
                        (lir::Expression::Temporary(index), lir::Expression::Immediate(offset))
                        | (lir::Expression::Immediate(offset), lir::Expression::Temporary(index)) => {
                            let memory = Memory::BIO { base, index: *index, offset: *offset };
                            proof {
                                assert forall|machine: Machine| #![trigger machine.run(self.added(start))] agrees(
                                    machine,
                                    machine.run(self.added(start)),
                                    counter,
                                ) && machine.run(self.added(start)).address(memory) == machine.evaluate(target) by {
                                    lemma_nothing(machine, start, *self);
                                    lemma_wrap_inner(machine.temporary(base) as int, machine.temporary(*index) + machine.immediate(*offset));
                                }
                                assert(Unary::M(memory).operands() =~= seq![base, *index]);
                                if clean_premise {
                                    lemma_stable_pair(memory, base, *index, counter, self.counter as int);
                                }
                            }
                            return memory;
                        },
                        _ => {},
                    }
                    match (left, right) {
                        // [base + _index_ + offset]
                        (_, lir::Expression::Immediate(offset)) => {
                            let index = self.shuttle_expression(left);
                            let memory = Memory::BIO { base, index, offset: *offset };
                            proof {
                                if clean(*tree, counter) && !scratch(base, counter) {
                                    assert forall|machine: Machine| #![trigger machine.run(self.added(start))]
                                        machine.run(self.added(start)).address(memory) == machine.evaluate(target) by {
                                        let after = machine.run(self.added(start));
                                        assert(after.temporary(base) == machine.temporary(base));
                                        lemma_wrap_inner(machine.temporary(base) as int, after.temporary(index) + machine.immediate(*offset));
                                    }
                                }
                                assert(Unary::M(memory).operands() =~= seq![base, index]);
                                assert(Unary::R(index).operands()[0] == index);
                                if clean_premise {
                                    lemma_stable_pair(memory, base, index, counter, self.counter as int);
                                }
                            }
                            return memory;
                        },
                        (lir::Expression::Immediate(offset), _) => {
                            let index = self.shuttle_expression(right);
                            let memory = Memory::BIO { base, index, offset: *offset };
                            proof {
                                if clean(*tree, counter) && !scratch(base, counter) {
                                    assert forall|machine: Machine| #![trigger machine.run(self.added(start))]
                                        machine.run(self.added(start)).address(memory) == machine.evaluate(target) by {
                                        let after = machine.run(self.added(start));
                                        assert(after.temporary(base) == machine.temporary(base));
                                        lemma_wrap_inner(machine.temporary(base) as int, after.temporary(index) + machine.immediate(*offset));
                                    }
                                }
                                assert(Unary::M(memory).operands() =~= seq![base, index]);
                                assert(Unary::R(index).operands()[0] == index);
                                if clean_premise {
                                    lemma_stable_pair(memory, base, index, counter, self.counter as int);
                                }
                            }
                            return memory;
                        },
                        _ => {},
                    }
                } else if binary == ir::Binary::Mul {
                    match (left, right) {
                        // [base + index * 8]
                        (lir::Expression::Temporary(index), lir::Expression::Immediate(Immediate::Integer(8)))
                        | (lir::Expression::Immediate(Immediate::Integer(8)), lir::Expression::Temporary(index)) => {
                            let memory = Memory::BIS { base, index: *index, scale: Scale::_8 };
                            proof {
                                assert forall|machine: Machine| #![trigger machine.run(self.added(start))] agrees(
                                    machine,
                                    machine.run(self.added(start)),
                                    counter,
                                ) && machine.run(self.added(start)).address(memory) == machine.evaluate(target) by {
                                    lemma_nothing(machine, start, *self);
                                    lemma_wrap_inner(machine.temporary(base) as int, machine.temporary(*index) * 8);
                                }
                                assert(Unary::M(memory).operands() =~= seq![base, *index]);
                                if clean_premise {
                                    lemma_stable_pair(memory, base, *index, counter, self.counter as int);
                                }
                            }
                            return memory;
                        },
                        // [base + _index_ * 8]
                        (_, lir::Expression::Immediate(Immediate::Integer(8))) => {
                            let index = self.shuttle_expression(left);
                            let memory = Memory::BIS { base, index, scale: Scale::_8 };
                            proof {
                                if clean(*tree, counter) && !scratch(base, counter) {
                                    assert forall|machine: Machine| #![trigger machine.run(self.added(start))]
                                        machine.run(self.added(start)).address(memory) == machine.evaluate(target) by {
                                        let after = machine.run(self.added(start));
                                        assert(after.temporary(base) == machine.temporary(base));
                                        lemma_wrap_inner(machine.temporary(base) as int, after.temporary(index) * 8);
                                    }
                                }
                                assert(Unary::M(memory).operands() =~= seq![base, index]);
                                assert(Unary::R(index).operands()[0] == index);
                                if clean_premise {
                                    lemma_stable_pair(memory, base, index, counter, self.counter as int);
                                }
                            }
                            return memory;
                        },
                        (lir::Expression::Immediate(Immediate::Integer(8)), _) => {
                            let index = self.shuttle_expression(right);
                            let memory = Memory::BIS { base, index, scale: Scale::_8 };
                            proof {
                                if clean(*tree, counter) && !scratch(base, counter) {
                                    assert forall|machine: Machine| #![trigger machine.run(self.added(start))]
                                        machine.run(self.added(start)).address(memory) == machine.evaluate(target) by {
                                        let after = machine.run(self.added(start));
                                        assert(after.temporary(base) == machine.temporary(base));
                                        lemma_wrap_inner(machine.temporary(base) as int, after.temporary(index) * 8);
                                    }
                                }
                                assert(Unary::M(memory).operands() =~= seq![base, index]);
                                assert(Unary::R(index).operands()[0] == index);
                                if clean_premise {
                                    lemma_stable_pair(memory, base, index, counter, self.counter as int);
                                }
                            }
                            return memory;
                        },
                        _ => {},
                    }
                }
            },
            _ => {},
        }
        // [base + _index_]
        let index = self.shuttle_expression(tree);
        let memory = Memory::BI { base, index };
        proof {
            if clean(*tree, counter) && !scratch(base, counter) {
                assert forall|machine: Machine| #![trigger machine.run(self.added(start))]
                    machine.run(self.added(start)).address(memory) == machine.evaluate(target) by {
                    let after = machine.run(self.added(start));
                    assert(after.temporary(base) == machine.temporary(base));
                }
            }
            assert(Unary::M(memory).operands() =~= seq![base, index]);
            assert(Unary::R(index).operands()[0] == index);
                                if clean_premise {
                                    lemma_stable_pair(memory, base, index, counter, self.counter as int);
                                }
                            }
        memory
    }

    /// Tile `base + (offset + tree)` into an addressing mode.
    #[verifier::spinoff_prover]
    fn tile_scaled(&mut self, base: Temporary, offset: Immediate, tree: &lir::Expression) -> (memory: Memory<Temporary>)
        requires
            old(self).counter + 3 * size(*tree) + 2 <= usize::MAX,
        ensures
            final(self).extends(*old(self)),
            final(self).counter <= old(self).counter + 3 * size(*tree) + 1,
            clean(*tree, old(self).counter as int) && !scratch(base, old(self).counter as int) ==> stable(
                Unary::M(memory),
                final(self).counter as int,
            ) && locates(
                final(self).added(*old(self)),
                memory,
                sum(lir::Expression::Temporary(base), sum(lir::Expression::Immediate(offset), *tree)),
                old(self).counter as int,
            ),
        decreases size(*tree), 3nat,
    {
        let ghost start = *self;
        let ghost counter = start.counter as int;
        let ghost clean_premise = clean(*tree, counter) && !scratch(base, counter);
        let ghost target = sum(lir::Expression::Temporary(base), sum(lir::Expression::Immediate(offset), *tree));
        proof {
            Tiler::lemma_extends_reflexive(start);
            reveal_with_fuel(Machine::evaluate, 2);
            reveal_with_fuel(clean, 2);
        }
        match tree {
            lir::Expression::Binary(ir::Binary::Mul, left, right) => {
                let left: &lir::Expression = left;
                let right: &lir::Expression = right;
                match (left, right) {
                    // [base + index * 8 + offset]
                    (lir::Expression::Temporary(index), lir::Expression::Immediate(Immediate::Integer(8)))
                    | (lir::Expression::Immediate(Immediate::Integer(8)), lir::Expression::Temporary(index)) => {
                        let memory = Memory::BISO { base, index: *index, scale: Scale::_8, offset };
                        proof {
                            assert forall|machine: Machine| #![trigger machine.run(self.added(start))] agrees(
                                machine,
                                machine.run(self.added(start)),
                                counter,
                            ) && machine.run(self.added(start)).address(memory) == machine.evaluate(target) by {
                                lemma_nothing(machine, start, *self);
                                lemma_times_eight(machine, *left, *right, *index);
                                assert(machine.evaluate(*tree) == wrap(machine.temporary(*index) * 8));
                                lemma_scaled_offset(machine, base, offset, *tree, machine.temporary(*index));
                            }
                            assert(Unary::M(memory).operands() =~= seq![base, *index]);
                            if clean_premise {
                                lemma_stable_pair(memory, base, *index, counter, self.counter as int);
                            }
                        }
                        return memory;
                    },
                    // [base + _index_ * 8 + offset]
                    (_, lir::Expression::Immediate(Immediate::Integer(8))) => {
                        let index = self.shuttle_expression(left);
                        let memory = Memory::BISO { base, index, scale: Scale::_8, offset };
                        proof {
                            if clean(*tree, counter) && !scratch(base, counter) {
                                assert forall|machine: Machine| #![trigger machine.run(self.added(start))]
                                    machine.run(self.added(start)).address(memory) == machine.evaluate(target) by {
                                    let after = machine.run(self.added(start));
                                    assert(after.temporary(base) == machine.temporary(base));
                                    lemma_scaled_offset(machine, base, offset, *tree, after.temporary(index));
                                }
                            }
                            assert(Unary::M(memory).operands() =~= seq![base, index]);
                            assert(Unary::R(index).operands()[0] == index);
                                if clean_premise {
                                    lemma_stable_pair(memory, base, index, counter, self.counter as int);
                                }
                            }
                        return memory;
                    },
                    (lir::Expression::Immediate(Immediate::Integer(8)), _) => {
                        let index = self.shuttle_expression(right);
                        let memory = Memory::BISO { base, index, scale: Scale::_8, offset };
                        proof {
                            if clean(*tree, counter) && !scratch(base, counter) {
                                assert forall|machine: Machine| #![trigger machine.run(self.added(start))]
                                    machine.run(self.added(start)).address(memory) == machine.evaluate(target) by {
                                    let after = machine.run(self.added(start));
                                    assert(after.temporary(base) == machine.temporary(base));
                                    lemma_scaled_offset(machine, base, offset, *tree, after.temporary(index));
                                }
                            }
                            assert(Unary::M(memory).operands() =~= seq![base, index]);
                            assert(Unary::R(index).operands()[0] == index);
                                if clean_premise {
                                    lemma_stable_pair(memory, base, index, counter, self.counter as int);
                                }
                            }
                        return memory;
                    },
                    _ => {},
                }
            },
            _ => {},
        }
        // [base + _index_ + offset]
        let index = self.shuttle_expression(tree);
        let memory = Memory::BIO { base, index, offset };
        proof {
            if clean(*tree, counter) && !scratch(base, counter) {
                assert forall|machine: Machine| #![trigger machine.run(self.added(start))]
                    machine.run(self.added(start)).address(memory) == machine.evaluate(target) by {
                    let after = machine.run(self.added(start));
                    assert(after.temporary(base) == machine.temporary(base));
                    assert(machine.evaluate(sum(lir::Expression::Immediate(offset), *tree)) == wrap(
                        machine.immediate(offset) + machine.evaluate(*tree),
                    ));
                    lemma_wrap_inner(machine.temporary(base) as int, machine.immediate(offset) + after.temporary(index));
                }
            }
            assert(Unary::M(memory).operands() =~= seq![base, index]);
            assert(Unary::R(index).operands()[0] == index);
                                if clean_premise {
                                    lemma_stable_pair(memory, base, index, counter, self.counter as int);
                                }
                            }
        memory
    }

    /// Tile `offset + tree` into an addressing mode with displacement `offset`.
    #[verifier::rlimit(60)]
    #[verifier::spinoff_prover]
    fn tile_offset_plus(&mut self, offset: Immediate, tree: &lir::Expression) -> (memory: Memory<Temporary>)
        requires
            old(self).counter + 3 * size(*tree) + 2 <= usize::MAX,
        ensures
            final(self).extends(*old(self)),
            final(self).counter <= old(self).counter + 3 * size(*tree) + 1,
            clean(*tree, old(self).counter as int) ==> stable(Unary::M(memory), final(self).counter as int) && locates(
                final(self).added(*old(self)),
                memory,
                sum(lir::Expression::Immediate(offset), *tree),
                old(self).counter as int,
            ),
        decreases size(*tree), 3nat,
    {
        let ghost start = *self;
        let ghost counter = start.counter as int;
        let ghost target = sum(lir::Expression::Immediate(offset), *tree);
        proof {
            Tiler::lemma_extends_reflexive(start);
            reveal_with_fuel(Machine::evaluate, 3);
            reveal_with_fuel(clean, 3);
        }
        match tree {
            lir::Expression::Binary(binary, left, right) => {
                let binary = *binary;
                let left: &lir::Expression = left;
                let right: &lir::Expression = right;
                if binary == ir::Binary::Add {
                    match (left, right) {
                        // [base + ... + offset]
                        (lir::Expression::Temporary(base), lir::Expression::Binary(..)) => {
                            let memory = self.tile_scaled(*base, offset, right);
                            proof {
                                assert forall|machine: Machine| #![trigger machine.run(self.added(start))]
                                    machine.evaluate(sum(lir::Expression::Temporary(*base), sum(lir::Expression::Immediate(offset), *right)))
                                        == machine.evaluate(target) by {
                                    let b = machine.temporary(*base);
                                    let o = machine.immediate(offset);
                                    let e = machine.evaluate(*right);
                                    lemma_wrap_inner(b as int, o + e);
                                    lemma_wrap_inner(o as int, b + e);
                                }
                            }
                            return memory;
                        },
                        (lir::Expression::Binary(..), lir::Expression::Temporary(base)) => {
                            let memory = self.tile_scaled(*base, offset, left);
                            proof {
                                assert forall|machine: Machine| #![trigger machine.run(self.added(start))]
                                    machine.evaluate(sum(lir::Expression::Temporary(*base), sum(lir::Expression::Immediate(offset), *left)))
                                        == machine.evaluate(target) by {
                                    let b = machine.temporary(*base);
                                    let o = machine.immediate(offset);
                                    let e = machine.evaluate(*left);
                                    lemma_wrap_inner(b as int, o + e);
                                    lemma_wrap_inner(o as int, e + b);
                                }
                            }
                            return memory;
                        },
                        _ => {},
                    }
                } else if binary == ir::Binary::Mul {
                    match (left, right) {
                        // [index * 8 + offset]
                        (lir::Expression::Temporary(index), lir::Expression::Immediate(Immediate::Integer(8)))
                        | (lir::Expression::Immediate(Immediate::Integer(8)), lir::Expression::Temporary(index)) => {
                            let memory = Memory::ISO { index: *index, scale: Scale::_8, offset };
                            proof {
                                assert forall|machine: Machine| #![trigger machine.run(self.added(start))] agrees(
                                    machine,
                                    machine.run(self.added(start)),
                                    counter,
                                ) && machine.run(self.added(start)).address(memory) == machine.evaluate(target) by {
                                    lemma_nothing(machine, start, *self);
                                    let t = machine.temporary(*index);
                                    assert(machine.evaluate(*tree) == wrap(t * 8));
                                    assert(machine.evaluate(target) == wrap(machine.immediate(offset) + wrap(t * 8)));
                                    lemma_wrap_inner(machine.immediate(offset) as int, t * 8);
                                }
                                assert(Unary::M(memory).operands() =~= seq![*index]);
                            }
                            return memory;
                        },
                        // [_index_ * 8 + offset]
                        (_, lir::Expression::Immediate(Immediate::Integer(8))) => {
                            let index = self.shuttle_expression(left);
                            let memory = Memory::ISO { index, scale: Scale::_8, offset };
                            proof {
                                if clean(*tree, counter) {
                                    assert forall|machine: Machine| #![trigger machine.run(self.added(start))]
                                        machine.run(self.added(start)).address(memory) == machine.evaluate(target) by {
                                        let after = machine.run(self.added(start));
                                        lemma_wrap_inner(machine.immediate(offset) as int, after.temporary(index) * 8);
                                    }
                                }
                                assert(Unary::M(memory).operands() =~= seq![index]);
                                assert(Unary::R(index).operands()[0] == index);
                            }
                            return memory;
                        },
                        (lir::Expression::Immediate(Immediate::Integer(8)), _) => {
                            let index = self.shuttle_expression(right);
                            let memory = Memory::ISO { index, scale: Scale::_8, offset };
                            proof {
                                if clean(*tree, counter) {
                                    assert forall|machine: Machine| #![trigger machine.run(self.added(start))]
                                        machine.run(self.added(start)).address(memory) == machine.evaluate(target) by {
                                        let after = machine.run(self.added(start));
                                        lemma_wrap_inner(machine.immediate(offset) as int, after.temporary(index) * 8);
                                    }
                                }
                                assert(Unary::M(memory).operands() =~= seq![index]);
                                assert(Unary::R(index).operands()[0] == index);
                            }
                            return memory;
                        },
                        _ => {},
                    }
                }
            },
            _ => {},
        }
        // [_base_ + offset]
        let base = self.shuttle_expression(tree);
        let memory = Memory::BO { base, offset };
        proof {
            assert(Unary::M(memory).operands() =~= seq![base]);
            assert(Unary::R(base).operands()[0] == base);
        }
        memory
    }

    /// Tile a leaf of a binary expression tree into the operand that the tree's
    /// instructions update: the destination of the move itself when the leaf is
    /// that destination, else a fresh temporary loaded with the leaf.
    fn tile_leaf(&mut self, expression: &lir::Expression, destination: Option<&lir::Expression>) -> (tiled: (
        Mutate,
        Unary<Temporary>,
    ))
        requires
            old(self).counter + 3 * size(*expression) + 3 <= usize::MAX,
        ensures
            final(self).extends(*old(self)),
            final(self).counter <= old(self).counter + 3 * size(*expression) + 1,
            !same_leaf(destination, *expression) && clean(*expression, old(self).counter as int) ==> {
                &&& tiled.0 is No
                &&& tiled.1 is R
                &&& scratch(tiled.1->R_0, old(self).counter as int)
                &&& stable(tiled.1, final(self).counter as int)
                &&& computes(final(self).added(*old(self)), tiled.1, *expression, old(self).counter as int)
            },
            same_leaf(destination, *expression) ==> {
                &&& tiled.0 is Yes
                &&& clean(*expression, old(self).counter as int) ==> stable(tiled.1, final(self).counter as int)
                    && computes(final(self).added(*old(self)), tiled.1, *expression, old(self).counter as int)
                &&& *expression matches lir::Expression::Temporary(temporary) ==> tiled.1 == Unary::R(temporary)
            },
        decreases size(*expression), 2nat,
    {
        let ghost start = *self;
        let same = match destination {
            Some(destination) => expression.equals(destination),
            None => false,
        };
        if same {
            let tiled = self.tile_expression(expression);
            return (Mutate::Yes, tiled);
        }
        let fresh = self.fresh();
        let ghost named = *self;
        let source = self.tile_expression(expression);
        let ghost tiled = *self;
        self.tile_binary(assembly::Binary::Mov, Unary::R(fresh), source);
        proof {
            Tiler::lemma_extends_transitive(start, named, tiled);
            Tiler::lemma_extends_transitive(start, tiled, *self);
            if !same_leaf(destination, *expression) && clean(*expression, start.counter as int) {
                lemma_clean_monotone(*expression, start.counter as int, named.counter as int);
                let mov = assembly::Statement::Binary(assembly::Binary::Mov, into_register(fresh, source));
                assert forall|machine: Machine| #![trigger machine.run(self.added(start))] agrees(
                    machine,
                    machine.run(self.added(start)),
                    start.counter as int,
                ) && machine.run(self.added(start)).read(Unary::R(fresh)) == machine.evaluate(*expression) by {
                    lemma_then(machine, start, tiled, *self, mov);
                    lemma_parts(machine, start, named, tiled);
                    lemma_nothing(machine, start, named);
                    let before = machine.run(tiled.added(named));
                    assert(machine.run(tiled.added(start)) == before);
                    lemma_move(before, fresh, source);
                    lemma_set_agrees(before, fresh, before.read(source), start.counter as int);
                    lemma_agrees_transitive(
                        machine,
                        before,
                        before.set(fresh, before.read(source)),
                        start.counter as int,
                        named.counter as int,
                        start.counter as int,
                    );
                }
                assert(Unary::R(fresh).operands() =~= seq![fresh]);
            }
        }
        (Mutate::No, Unary::R(fresh))
    }

    /// Tile `left binary right`, updating one operand in place: the destination
    /// of the enclosing move where the leftmost leaf is that destination, else a
    /// fresh temporary.
    #[verifier::spinoff_prover]
    fn tile_binary_expression(
        &mut self,
        binary: ir::Binary,
        left: &lir::Expression,
        right: &lir::Expression,
        destination: Option<&lir::Expression>,
    ) -> (tiled: (Mutate, Unary<Temporary>))
        requires
            old(self).counter + 3 * (1 + size(*left) + size(*right)) + 2 <= usize::MAX,
        ensures
            final(self).extends(*old(self)),
            final(self).counter <= old(self).counter + 3 * (1 + size(*left) + size(*right)),
            !same_leaf(destination, spine_leaf(binary, *left, *right)) && clean(*left, old(self).counter as int)
                && clean(*right, old(self).counter as int) ==> {
                &&& tiled.0 is No
                &&& tiled.1 is R
                &&& scratch(tiled.1->R_0, old(self).counter as int)
                &&& stable(tiled.1, final(self).counter as int)
                &&& forall|machine: Machine| #![trigger machine.run(final(self).added(*old(self)))] agrees(
                    machine,
                    machine.run(final(self).added(*old(self))),
                    old(self).counter as int,
                ) && machine.run(final(self).added(*old(self))).read(tiled.1) == arithmetic(
                    binary,
                    machine.evaluate(*left),
                    machine.evaluate(*right),
                )
            },
            destination matches Some(target) ==> (*target matches lir::Expression::Temporary(temporary) ==> (same_leaf(
                destination,
                spine_leaf(binary, *left, *right),
            ) && !spine_reads(binary, *left, *right, temporary) && !scratch(temporary, old(self).counter as int)
                && clean(*left, old(self).counter as int) && clean(*right, old(self).counter as int) ==> {
                &&& tiled.0 is Yes
                &&& tiled.1 is R
                &&& tiled.1->R_0@ == temporary@
                &&& forall|machine: Machine| #![trigger machine.run(final(self).added(*old(self)))] agrees(
                    machine.set(temporary, arithmetic(binary, machine.evaluate(*left), machine.evaluate(*right))),
                    machine.run(final(self).added(*old(self))),
                    old(self).counter as int,
                ) && machine.run(final(self).added(*old(self))).temporary(temporary) == arithmetic(
                    binary,
                    machine.evaluate(*left),
                    machine.evaluate(*right),
                )
            })),
        decreases 1 + size(*left) + size(*right), 0nat,
    {
        let ghost start = *self;
        let ghost counter = start.counter as int;
        // Subtraction from zero is negation.
        if binary == ir::Binary::Sub && is_zero(left) {
            let (mutate, operand) = match right {
                lir::Expression::Binary(inner, inner_left, inner_right) => self.tile_binary_expression(
                    *inner,
                    inner_left,
                    inner_right,
                    destination,
                ),
                _ => self.tile_leaf(right, destination),
            };
            let ghost middle = *self;
            self.tile_unary(assembly::Unary::Neg, operand);
            proof {
                Tiler::lemma_extends_transitive(start, middle, *self);
                if !same_leaf(destination, spine_leaf(binary, *left, *right)) && clean(*left, counter) && clean(*right, counter) {
                    let negate = assembly::Statement::Unary(assembly::Unary::Neg, operand);
                    assert forall|machine: Machine| #![trigger machine.run(self.added(start))] agrees(
                        machine,
                        machine.run(self.added(start)),
                        counter,
                    ) && machine.run(self.added(start)).read(operand) == arithmetic(
                        binary,
                        machine.evaluate(*left),
                        machine.evaluate(*right),
                    ) by {
                        lemma_then(machine, start, middle, *self, negate);
                        let before = machine.run(middle.added(start));
                        assert(before.read(operand) == machine.evaluate(*right));
                        lemma_set_agrees(before, operand->R_0, wrap(-before.read(operand)), counter);
                        lemma_agrees_transitive(
                            machine,
                            before,
                            before.step(negate),
                            counter,
                            counter,
                            counter,
                        );
                    }
                }
                if let Some(target) = destination {
                    if let lir::Expression::Temporary(temporary) = *target {
                        if same_leaf(destination, spine_leaf(binary, *left, *right)) && !spine_reads(
                            binary,
                            *left,
                            *right,
                            temporary,
                        ) && !scratch(temporary, counter) && clean(*left, counter) && clean(*right, counter) {
                            let negate = assembly::Statement::Unary(assembly::Unary::Neg, operand);
                            let updated = operand->R_0;
                            assert forall|machine: Machine| #![trigger machine.run(self.added(start))] agrees(
                                machine.set(temporary, arithmetic(binary, machine.evaluate(*left), machine.evaluate(*right))),
                                machine.run(self.added(start)),
                                counter,
                            ) && machine.run(self.added(start)).temporary(temporary) == arithmetic(
                                binary,
                                machine.evaluate(*left),
                                machine.evaluate(*right),
                            ) by {
                                lemma_then(machine, start, middle, *self, negate);
                                let before = machine.run(middle.added(start));
                                let operand_value = machine.evaluate(*right);
                                if !(*right is Binary) {
                                    assert(*right matches lir::Expression::Temporary(_));
                                    lemma_set_same(machine, before, temporary, counter);
                                }
                                assert(agrees(machine.set(temporary, operand_value), before, counter));
                                assert(before.temporary(temporary) == operand_value);
                                let value = arithmetic(binary, machine.evaluate(*left), operand_value);
                                assert(value == wrap(-before.read(operand)));
                                lemma_overwrite(machine, before, temporary, operand_value, value, counter);
                                lemma_set_view(before, temporary, updated, value);
                            }
                        }
                    }
                }
            }
            return (mutate, operand);
        }
        let (mutate, operand) = match left {
            lir::Expression::Binary(inner, inner_left, inner_right) => self.tile_binary_expression(
                *inner,
                inner_left,
                inner_right,
                destination,
            ),
            _ => self.tile_leaf(left, destination),
        };
        let ghost middle = *self;
        self.tile_operator(binary, operand, right, Ghost(counter));
        proof {
            Tiler::lemma_extends_transitive(start, middle, *self);
            if !same_leaf(destination, spine_leaf(binary, *left, *right)) && clean(*left, counter) && clean(*right, counter) {
                assert forall|machine: Machine| #![trigger machine.run(self.added(start))] agrees(
                    machine,
                    machine.run(self.added(start)),
                    counter,
                ) && machine.run(self.added(start)).read(operand) == arithmetic(
                    binary,
                    machine.evaluate(*left),
                    machine.evaluate(*right),
                ) by {
                    lemma_parts(machine, start, middle, *self);
                    let before = machine.run(middle.added(start));
                    let after = before.run(self.added(middle));
                    assert(before.read(operand) == machine.evaluate(*left));
                    lemma_evaluate_agrees(*right, machine, before, counter);
                    lemma_agrees_transitive(machine, before, after, counter, counter, counter);
                }
                assert(stable(operand, self.counter as int)) by {
                    assert(operand.operands()[0] == operand->R_0);
                    assert(!scratch(operand->R_0, middle.counter as int));
                }
            }
            if let Some(target) = destination {
                if let lir::Expression::Temporary(temporary) = *target {
                    if same_leaf(destination, spine_leaf(binary, *left, *right)) && !spine_reads(
                        binary,
                        *left,
                        *right,
                        temporary,
                    ) && !scratch(temporary, counter) && clean(*left, counter) && clean(*right, counter) {
                        let updated = operand->R_0;
                        assert(operand.operands()[0] == updated);
                        assert(stable(operand, middle.counter as int));
                        assert forall|machine: Machine| #![trigger machine.run(self.added(start))] agrees(
                            machine.set(temporary, arithmetic(binary, machine.evaluate(*left), machine.evaluate(*right))),
                            machine.run(self.added(start)),
                            counter,
                        ) && machine.run(self.added(start)).temporary(temporary) == arithmetic(
                            binary,
                            machine.evaluate(*left),
                            machine.evaluate(*right),
                        ) by {
                            lemma_parts(machine, start, middle, *self);
                            let before = machine.run(middle.added(start));
                            let after = before.run(self.added(middle));
                            let leftmost = machine.evaluate(*left);
                            if !(*left is Binary) {
                                assert(*left matches lir::Expression::Temporary(_));
                                lemma_set_same(machine, before, temporary, counter);
                            }
                            assert(agrees(machine.set(temporary, leftmost), before, counter));
                            assert(before.temporary(updated) == leftmost);
                            lemma_evaluate_agrees(*right, machine.set(temporary, leftmost), before, counter);
                            lemma_evaluate_set(*right, machine, temporary, leftmost);
                            let value = arithmetic(binary, leftmost, machine.evaluate(*right));
                            lemma_overwrite(machine, before, temporary, leftmost, value, counter);
                            lemma_set_view(before, temporary, updated, value);
                            lemma_agrees_transitive(
                                machine.set(temporary, value),
                                before.set(updated, value),
                                after,
                                counter,
                                counter,
                                counter,
                            );
                        }
                    }
                }
            }
        }
        (mutate, operand)
    }

    /// Emit `destination = destination binary right`, for `destination` already
    /// holding the left operand.
    #[verifier::spinoff_prover]
    fn tile_operator(
        &mut self,
        binary: ir::Binary,
        destination: Unary<Temporary>,
        right: &lir::Expression,
        Ghost(base): Ghost<int>,
    )
        requires
            old(self).counter + 3 * size(*right) + 2 <= usize::MAX,
        ensures
            final(self).extends(*old(self)),
            final(self).counter <= old(self).counter + 3 * size(*right) + 2,
            destination is R && base <= old(self).counter && stable(destination, old(self).counter as int) && clean(
                *right,
                base,
            ) ==> forall|machine: Machine| #![trigger machine.run(final(self).added(*old(self)))]
                agrees(
                    machine.set(
                        destination->R_0,
                        arithmetic(binary, machine.temporary(destination->R_0), machine.evaluate(*right)),
                    ),
                    machine.run(final(self).added(*old(self))),
                    base,
                ) && machine.run(final(self).added(*old(self))).temporary(destination->R_0) == arithmetic(
                    binary,
                    machine.temporary(destination->R_0),
                    machine.evaluate(*right),
                ),
        decreases size(*right), 2nat,
    {
        let ghost start = *self;
        let ghost counter = start.counter as int;
        let ghost semantic = destination is R && base <= counter && stable(destination, counter) && clean(*right, base);
        proof {
            if semantic {
                lemma_clean_monotone(*right, base, counter);
                assert(destination.operands()[0] == destination->R_0);
            }
        }
        match binary {
            ir::Binary::Hul | ir::Binary::Div | ir::Binary::Mod => {
                let (cqo, unary, register) = match binary {
                    ir::Binary::Hul => (false, assembly::Unary::Hul, Register::Rdx),
                    ir::Binary::Div => (true, assembly::Unary::Div, Register::Rax),
                    _ => (true, assembly::Unary::Mod, Register::Rdx),
                };
                // Tile the source before moving the destination into `rax`, which
                // tiling could clobber, as it could `rdx`.
                let tiled_source = self.tile_expression(right);
                let ghost tiled = *self;
                let source = self.shuttle(tiled_source);
                let ghost shuttled = *self;
                let rax = Unary::R(Temporary::Register(Register::Rax));
                self.tile_binary(assembly::Binary::Mov, rax, destination);
                let ghost loaded = *self;
                if cqo {
                    self.push(assembly::Statement::Nullary(assembly::Nullary::Cqo));
                }
                let ghost extended = *self;
                self.tile_unary(unary, Unary::R(source));
                let ghost divided = *self;
                let result = Unary::R(Temporary::Register(register));
                self.tile_binary(assembly::Binary::Mov, destination, result);
                proof {
                    Tiler::lemma_extends_transitive(start, tiled, shuttled);
                    Tiler::lemma_extends_transitive(start, shuttled, loaded);
                    if cqo {
                        Tiler::lemma_extends_transitive(start, loaded, extended);
                    } else {
                        assert(extended == loaded);
                    }
                    Tiler::lemma_extends_transitive(start, extended, divided);
                    Tiler::lemma_extends_transitive(start, divided, *self);
                    if semantic {
                        let temporary = destination->R_0;
                        let load = assembly::Statement::Binary(assembly::Binary::Mov, into_register(Temporary::Register(Register::Rax), destination));
                        let extend = assembly::Statement::Nullary(assembly::Nullary::Cqo);
                        let divide = assembly::Statement::Unary(unary, Unary::R(source));
                        let store = assembly::Statement::Binary(assembly::Binary::Mov, into_register(temporary, result));
                        assert(Unary::R(source).operands()[0] == source);
                        assert forall|machine: Machine| #![trigger machine.run(self.added(start))] agrees(
                            machine.set(
                                temporary,
                                arithmetic(binary, machine.temporary(temporary), machine.evaluate(*right)),
                            ),
                            machine.run(self.added(start)),
                            base,
                        ) && machine.run(self.added(start)).temporary(temporary) == arithmetic(
                            binary,
                            machine.temporary(temporary),
                            machine.evaluate(*right),
                        ) by {
                            let value = machine.temporary(temporary);
                            lemma_parts(machine, start, tiled, shuttled);
                            let first = machine.run(tiled.added(start));
                            let second = first.run(shuttled.added(tiled));
                            lemma_agrees_transitive(machine, first, second, base, counter, tiled.counter as int);
                            assert(second.temporary(temporary) == value);
                            assert(second.temporary(source) == machine.evaluate(*right));
                            lemma_then(machine, start, shuttled, loaded, load);
                            lemma_move(second, Temporary::Register(Register::Rax), destination);
                            let third = second.step(load);
                            lemma_set_agrees(second, Temporary::Register(Register::Rax), value, base);
                            lemma_agrees_transitive(machine, second, third, base, base, base);
                            let fourth = if cqo { third.step(extend) } else { third };
                            if cqo {
                                lemma_then(machine, start, loaded, extended, extend);
                                lemma_set_agrees(third, Temporary::Register(Register::Rdx), if value < 0 { -1i64 } else { 0i64 }, base);
                                lemma_sign_extension(value);
                            }
                            lemma_agrees_transitive(machine, third, fourth, base, base, base);
                            lemma_then(machine, start, extended, divided, divide);
                            let fifth = fourth.step(divide);
                            assert(fourth.temporary(source) == machine.evaluate(*right));
                            lemma_then(machine, start, divided, *self, store);
                            lemma_move(fifth, temporary, result);
                            let sixth = fifth.step(store);
                            assert(agrees(fourth, fifth, base)) by {
                                let rax = Temporary::Register(Register::Rax);
                                let rdx = Temporary::Register(Register::Rdx);
                                assert forall|other: Temporary| !scratch(other, base) implies #[trigger] fifth.temporary(other)
                                    == fourth.temporary(other) by {
                                    assert(other@ != rax@ && other@ != rdx@);
                                }
                            }
                            lemma_agrees_transitive(machine, fourth, fifth, base, base, base);
                            lemma_set_both(machine, fifth, temporary, fifth.temporary(Temporary::Register(register)), base);
                        }
                    }
                }
            },
            _ => {
                let source = self.tile_expression(right);
                let ghost tiled = *self;
                let instruction = assembly::Binary::from_ir(binary);
                self.tile_binary(instruction, destination, source);
                proof {
                    Tiler::lemma_extends_transitive(start, tiled, *self);
                    if semantic {
                        let temporary = destination->R_0;
                        let operate = assembly::Statement::Binary(instruction, into_register(temporary, source));
                        assert forall|machine: Machine| #![trigger machine.run(self.added(start))] agrees(
                            machine.set(
                                temporary,
                                arithmetic(binary, machine.temporary(temporary), machine.evaluate(*right)),
                            ),
                            machine.run(self.added(start)),
                            base,
                        ) && machine.run(self.added(start)).temporary(temporary) == arithmetic(
                            binary,
                            machine.temporary(temporary),
                            machine.evaluate(*right),
                        ) by {
                            lemma_then(machine, start, tiled, *self, operate);
                            let before = machine.run(tiled.added(start));
                            assert(before.temporary(temporary) == machine.temporary(temporary));
                            lemma_operator(before, binary, temporary, source);
                            let value = arithmetic(binary, before.temporary(temporary), before.read(source));
                            lemma_agrees_weaken(machine, before, base, counter);
                            lemma_set_both(machine, before, temporary, value, base);
                        }
                    }
                }
            },
        }
    }

    /// Move the arguments, and the return area where the caller passed one, from
    /// where the caller put them into their temporaries.
    fn tile_arguments(&mut self, arguments: &Vec<Temporary>)
        requires
            arguments@.len() <= i32::MAX,
            old(self).counter < usize::MAX,
        ensures
            final(self).extends(*old(self)),
            final(self).counter == old(self).counter,
            final(self).added(*old(self)) == argument_moves(old(self).caller_returned, arguments@),
    {
        let ghost start = *self;
        proof {
            Tiler::lemma_extends_reflexive(start);
        }
        let offset: usize = match self.caller_returned {
            None => 0,
            Some(temporary) => {
                let ghost before = *self;
                self.tile_binary(assembly::Binary::Mov, Unary::R(temporary), abi::read_argument(0));
                proof {
                    Tiler::lemma_extends_transitive(start, before, *self);
                }
                1
            },
        };
        proof {
            assert(argument_moves(start.caller_returned, arguments@.take(0)) =~= self.added(start));
        }
        let mut index: usize = 0;
        while index < arguments.len()
            invariant
                index <= arguments@.len(),
                arguments@.len() <= i32::MAX,
                offset <= 1,
                self.extends(start),
                self.counter == start.counter,
                start.counter < usize::MAX,
                offset == (if start.caller_returned is Some { 1int } else { 0int }),
                self.added(start) == argument_moves(start.caller_returned, arguments@.take(index as int)),
            decreases arguments@.len() - index,
        {
            let ghost before = *self;
            // The extra argument stays out of sight of the IR: it shifts the others here.
            let source = abi::read_argument(index + offset);
            let ghost statement = assembly::Statement::Binary(
                assembly::Binary::Mov,
                into_register(arguments@[index as int], source),
            );
            self.tile_binary(assembly::Binary::Mov, Unary::R(arguments[index]), source);
            proof {
                Tiler::lemma_extends_transitive(start, before, *self);
                assert(argument_moves(start.caller_returned, arguments@.take(index + 1)) =~= argument_moves(
                    start.caller_returned,
                    arguments@.take(index as int),
                ).push(statement));
            }
            index += 1;
        }
        proof {
            assert(arguments@.take(arguments@.len() as int) =~= arguments@);
        }
    }

    #[verifier::spinoff_prover]
    fn tile_statement(&mut self, statement: &lir::Statement<lir::Fallthrough>)
        requires
            old(self).counter + statement_weight(*statement) + 2 <= usize::MAX,
            tileable(*statement, old(self).caller_returned is Some),
            old(self).callee_arguments <= i32::MAX,
        ensures
            final(self).extends(*old(self)),
            final(self).counter <= old(self).counter + statement_weight(*statement),
            statement_tiled(
                final(self).added(*old(self)),
                *statement,
                old(self).caller_returned,
                old(self).counter as int,
                old(self).callee_arguments as int,
            ),
    {
        let ghost start = *self;
        proof {
            Tiler::lemma_extends_reflexive(start);
        }
        match statement {
            lir::Statement::Label(label) => {
                self.push(assembly::Statement::Label(*label));
                proof {
                    assert(statement_tiled(
                        self.added(start),
                        *statement,
                        start.caller_returned,
                        start.counter as int,
                        start.callee_arguments as int,
                    )) by {
                        reveal(statement_tiled);
                    }
                }
            },
            lir::Statement::Return(values) => {
                self.tile_return(values);
                proof {
                    assert(statement_tiled(
                        self.added(start),
                        *statement,
                        start.caller_returned,
                        start.counter as int,
                        start.callee_arguments as int,
                    )) by {
                        reveal(statement_tiled);
                    }
                }
            },
            lir::Statement::Jump(label) => {
                self.push(assembly::Statement::Jmp(*label));
                proof {
                    assert(statement_tiled(
                        self.added(start),
                        *statement,
                        start.caller_returned,
                        start.counter as int,
                        start.callee_arguments as int,
                    )) by {
                        reveal(statement_tiled);
                    }
                }
            },
            lir::Statement::CJump { condition, left, right, if_true, .. } => {
                self.tile_compare(left, right);
                let ghost compared = *self;
                self.push(assembly::Statement::Jcc(assembly::Condition::from_ir(*condition), *if_true));
                proof {
                    Tiler::lemma_extends_transitive(start, compared, *self);
                    let segment = self.added(start);
                    assert(segment.last() == self.added(compared)[0]);
                    assert(segment[segment.len() - 2] == compared.added(start).last());
                    assert(segment.take(segment.len() - 2) =~= compared.added(start).drop_last());
                    assert(statement_tiled(
                        self.added(start),
                        *statement,
                        start.caller_returned,
                        start.counter as int,
                        start.callee_arguments as int,
                    )) by {
                        reveal(statement_tiled);
                    }
                }
            },
            // Only `mov r64, imm64` takes a 64-bit immediate.
            lir::Statement::Move {
                destination: lir::Expression::Temporary(temporary),
                source: lir::Expression::Immediate(Immediate::Integer(integer)),
            } => {
                let load = assembly::Statement::Binary(
                    assembly::Binary::Mov,
                    operand::Binary::RI { destination: *temporary, source: Immediate::Integer(*integer) },
                );
                self.push(load);
                proof {
                    assert forall|machine: Machine| #![trigger machine.run(self.added(start))] agrees(
                        machine.set(*temporary, *integer),
                        machine.run(self.added(start)),
                        start.counter as int,
                    ) by {
                        lemma_then(machine, start, start, *self, load);
                        lemma_nothing(machine, start, start);
                    }
                    assert(statement_tiled(
                        self.added(start),
                        *statement,
                        start.caller_returned,
                        start.counter as int,
                        start.callee_arguments as int,
                    )) by {
                        reveal(statement_tiled);
                    }
                }
            },
            lir::Statement::Move { destination, source } => {
                self.tile_move(destination, source);
                proof {
                    assert(statement_tiled(
                        self.added(start),
                        *statement,
                        start.caller_returned,
                        start.counter as int,
                        start.callee_arguments as int,
                    )) by {
                        reveal(statement_tiled);
                    }
                }
            },
            lir::Statement::Call(function, arguments, returned) => {
                self.tile_call(function, arguments, returned);
                proof {
                    assert(statement_tiled(
                        self.added(start),
                        *statement,
                        start.caller_returned,
                        start.counter as int,
                        start.callee_arguments as int,
                    )) by {
                        reveal(statement_tiled);
                    }
                }
            },
        }
    }

    /// Compare the values of `left` and `right`: code that computes them, then
    /// a `cmp` whose operands hold them.
    fn tile_compare(&mut self, left: &lir::Expression, right: &lir::Expression)
        requires
            old(self).counter + weight(*left) + weight(*right) + 2 <= usize::MAX,
        ensures
            final(self).extends(*old(self)),
            final(self).counter <= old(self).counter + weight(*left) + weight(*right),
            final(self).added(*old(self)).len() > 0,
            final(self).added(*old(self)).last() matches assembly::Statement::Binary(found, _) && found
                == assembly::Binary::Cmp,
            clean(*left, old(self).counter as int) && clean(*right, old(self).counter as int) ==> forall|machine: Machine|
                #![trigger machine.run(final(self).added(*old(self)).drop_last())]
                machine.run(final(self).added(*old(self)).drop_last()).read(
                    final(self).added(*old(self)).last()->Binary_1.spec_destination(),
                ) == machine.evaluate(*left) && machine.run(final(self).added(*old(self)).drop_last()).read(
                    final(self).added(*old(self)).last()->Binary_1.spec_source(),
                ) == machine.evaluate(*right),
    {
        let ghost start = *self;
        let destination = self.tile_expression(left);
        let ghost first = *self;
        let source = self.tile_expression(right);
        let ghost second = *self;
        self.tile_binary(assembly::Binary::Cmp, destination, source);
        proof {
            Tiler::lemma_extends_transitive(start, first, second);
            Tiler::lemma_extends_transitive(start, second, *self);
            let counter = start.counter as int;
            if clean(*left, counter) && clean(*right, counter) {
                lemma_clean_monotone(*right, counter, first.counter as int);
                lemma_stable_monotone(destination, first.counter as int, second.counter as int);
                let last = self.added(second).drop_last();
                assert(self.added(start).drop_last() =~= first.added(start) + second.added(first) + last);
                assert(self.added(start).last() == self.added(second).last());
                assert forall|machine: Machine| #![trigger machine.run(self.added(start).drop_last())] machine.run(
                    self.added(start).drop_last(),
                ).read(self.added(start).last()->Binary_1.spec_destination()) == machine.evaluate(*left) && machine.run(
                    self.added(start).drop_last(),
                ).read(self.added(start).last()->Binary_1.spec_source()) == machine.evaluate(*right) by {
                    let computed = machine.run(first.added(start));
                    let both = computed.run(second.added(first));
                    lemma_run_append(machine, first.added(start), second.added(first));
                    lemma_run_append(machine, first.added(start) + second.added(first), last);
                    assert(machine.run(first.added(start) + second.added(first)).run(last) == both.run(last));
                    lemma_evaluate_agrees(*right, machine, computed, counter);
                    lemma_read_agrees(destination, computed, both, first.counter as int);
                }
            }
        }
    }

    /// Move the value of `source` into `destination`, a temporary or memory.
    #[verifier::spinoff_prover]
    fn tile_move(&mut self, destination: &lir::Expression, source: &lir::Expression)
        requires
            old(self).counter + weight(*destination) + weight(*source) + 2 <= usize::MAX,
        ensures
            final(self).extends(*old(self)),
            final(self).counter <= old(self).counter + weight(*destination) + weight(*source),
            *destination matches lir::Expression::Temporary(temporary) ==> (clean(*source, old(self).counter as int)
                && !scratch(temporary, old(self).counter as int) && !clobbers(*source, temporary) ==> forall|machine: Machine|
                #![trigger machine.run(final(self).added(*old(self)))]
                agrees(
                machine.set(temporary, machine.evaluate(*source)),
                machine.run(final(self).added(*old(self))),
                old(self).counter as int,
            )),
            *destination matches lir::Expression::Memory(address) ==> (clean(*address, old(self).counter as int) && clean(
                *source,
                old(self).counter as int,
            ) && !in_place(*destination, *source) ==> forall|machine: Machine|
                #![trigger machine.run(final(self).added(*old(self)))]
                agrees(
                machine.store(machine.evaluate(*address), machine.evaluate(*source)),
                machine.run(final(self).added(*old(self))),
                old(self).counter as int,
            )),
    {
        let ghost start = *self;
        proof {
            Tiler::lemma_extends_reflexive(start);
        }
        match source {
            lir::Expression::Binary(binary, left, right) => {
                let (mutate, tiled) = self.tile_binary_expression(*binary, left, right, Some(destination));
                let ghost first = *self;
                match mutate {
                    Mutate::Yes => {
                        proof {
                            Tiler::lemma_extends_reflexive(first);
                        }
                    },
                    Mutate::No => {
                        let target = self.tile_expression(destination);
                        let ghost second = *self;
                        self.tile_binary(assembly::Binary::Mov, target, tiled);
                        proof {
                            Tiler::lemma_extends_transitive(first, second, *self);
                            let counter = start.counter as int;
                            if let lir::Expression::Temporary(temporary) = *destination {
                                if clean(*source, counter) && !scratch(temporary, counter) && !clobbers(*source, temporary) {
                                    let store = assembly::Statement::Binary(
                                        assembly::Binary::Mov,
                                        into_register(temporary, tiled),
                                    );
                                    assert forall|machine: Machine| #![trigger machine.run(self.added(start))] agrees(
                                        machine.set(temporary, machine.evaluate(*source)),
                                        machine.run(self.added(start)),
                                        counter,
                                    ) by {
                                        lemma_parts(machine, start, first, second);
                                        lemma_then(machine, start, second, *self, store);
                                        let computed = machine.run(first.added(start));
                                        let targeted = computed.run(second.added(first));
                                        lemma_read_agrees(tiled, computed, targeted, first.counter as int);
                                        lemma_agrees_transitive(
                                            machine,
                                            computed,
                                            targeted,
                                            counter,
                                            counter,
                                            first.counter as int,
                                        );
                                        lemma_move(targeted, temporary, tiled);
                                        lemma_set_both(machine, targeted, temporary, machine.evaluate(*source), counter);
                                    }
                                }
                            }
                            if let lir::Expression::Memory(address) = destination {
                                if clean(**address, counter) && clean(*source, counter) && !in_place(*destination, *source) {
                                    let memory = target->M_0;
                                    let store = assembly::Statement::Binary(assembly::Binary::Mov, operands_of(target, tiled));
                                    lemma_clean_monotone(**address, counter, first.counter as int);
                                    assert forall|machine: Machine| #![trigger machine.run(self.added(start))] agrees(
                                        machine.store(machine.evaluate(**address), machine.evaluate(*source)),
                                        machine.run(self.added(start)),
                                        counter,
                                    ) by {
                                        lemma_parts(machine, start, first, second);
                                        lemma_then(machine, start, second, *self, store);
                                        let computed = machine.run(first.added(start));
                                        let targeted = computed.run(second.added(first));
                                        lemma_read_agrees(tiled, computed, targeted, first.counter as int);
                                        lemma_evaluate_agrees(**address, machine, computed, counter);
                                        lemma_agrees_transitive(
                                            machine,
                                            computed,
                                            targeted,
                                            counter,
                                            counter,
                                            first.counter as int,
                                        );
                                        lemma_store_both(
                                            machine,
                                            targeted,
                                            machine.evaluate(**address),
                                            machine.evaluate(*source),
                                            counter,
                                        );
                                    }
                                }
                            }
                        }
                    },
                }
                proof {
                    Tiler::lemma_extends_transitive(start, first, *self);
                }
            },
            _ => {
                let target = self.tile_expression(destination);
                let ghost first = *self;
                let tiled = self.tile_expression(source);
                let ghost second = *self;
                self.tile_binary(assembly::Binary::Mov, target, tiled);
                proof {
                    Tiler::lemma_extends_transitive(start, first, second);
                    Tiler::lemma_extends_transitive(start, second, *self);
                    let counter = start.counter as int;
                    if let lir::Expression::Temporary(temporary) = *destination {
                        if clean(*source, counter) && !scratch(temporary, counter) && !clobbers(*source, temporary) {
                            lemma_clean_monotone(*source, counter, first.counter as int);
                            let store = assembly::Statement::Binary(assembly::Binary::Mov, into_register(temporary, tiled));
                            assert forall|machine: Machine| #![trigger machine.run(self.added(start))] agrees(
                                machine.set(temporary, machine.evaluate(*source)),
                                machine.run(self.added(start)),
                                counter,
                            ) by {
                                lemma_parts(machine, start, first, second);
                                lemma_then(machine, start, second, *self, store);
                                let targeted = machine.run(first.added(start));
                                let computed = targeted.run(second.added(first));
                                lemma_evaluate_agrees(*source, machine, targeted, counter);
                                lemma_agrees_transitive(
                                    machine,
                                    targeted,
                                    computed,
                                    counter,
                                    counter,
                                    first.counter as int,
                                );
                                lemma_move(computed, temporary, tiled);
                                lemma_set_both(machine, computed, temporary, machine.evaluate(*source), counter);
                            }
                        }
                    }
                    if let lir::Expression::Memory(address) = destination {
                        if clean(**address, counter) && clean(*source, counter) {
                            let memory = target->M_0;
                            lemma_clean_monotone(*source, counter, first.counter as int);
                            lemma_stable_monotone(target, first.counter as int, second.counter as int);
                            let prefix = self.added(second).drop_last();
                            let last = self.added(second).last();
                            assert(self.added(second) =~= prefix.push(last));
                            assert forall|machine: Machine| #![trigger machine.run(self.added(start))] agrees(
                                machine.store(machine.evaluate(**address), machine.evaluate(*source)),
                                machine.run(self.added(start)),
                                counter,
                            ) by {
                                lemma_parts(machine, start, first, second);
                                lemma_parts(machine, start, second, *self);
                                let targeted = machine.run(first.added(start));
                                let computed = targeted.run(second.added(first));
                                lemma_run_append(machine, first.added(start), second.added(first));
                                let before = computed.run(prefix);
                                lemma_run_push(computed, prefix, last);
                                lemma_evaluate_agrees(*source, machine, targeted, counter);
                                lemma_agrees_transitive(machine, targeted, computed, counter, counter, first.counter as int);
                                lemma_address_agrees(memory, targeted, computed, first.counter as int);
                                lemma_address_agrees(memory, computed, before, second.counter as int);
                                lemma_agrees_transitive(machine, computed, before, counter, counter, second.counter as int);
                                lemma_store_both(
                                    machine,
                                    before,
                                    machine.evaluate(**address),
                                    machine.evaluate(*source),
                                    counter,
                                );
                            }
                        }
                    }
                }
            },
        }
    }

    /// Move each of `values` to where the function returns it; control then
    /// reaches the exit block, whose epilogue returns.
    fn tile_return(&mut self, values: &Vec<lir::Expression>)
        requires
            old(self).counter + weights(values@) + 2 <= usize::MAX,
            values@.len() <= i32::MAX,
            values@.len() <= 2 || old(self).caller_returned is Some,
        ensures
            final(self).extends(*old(self)),
            final(self).counter <= old(self).counter + weights(values@),
            (forall|i: int| 0 <= i < values@.len() ==> #[trigger] values@[i] is Temporary) ==> final(self).added(
                *old(self),
            ) == return_moves(old(self).caller_returned, values@),
    {
        let ghost start = *self;
        proof {
            Tiler::lemma_extends_reflexive(start);
        }
        let mut index: usize = 0;
        while index < values.len()
            invariant
                index <= values@.len(),
                values@.len() <= i32::MAX,
                values@.len() <= 2 || start.caller_returned is Some,
                self.extends(start),
                self.counter <= start.counter + weights(values@.take(index as int)),
                start.counter + weights(values@) + 2 <= usize::MAX,
                (forall|i: int| 0 <= i < values@.len() ==> #[trigger] values@[i] is Temporary) ==> self.added(start)
                    == return_moves(start.caller_returned, values@.take(index as int)),
            decreases values@.len() - index,
        {
            proof {
                lemma_weights_prefix(values@, index as int);
            }
            let ghost before = *self;
            let destination = abi::write_return(self.caller_returned, index);
            let source = self.tile_expression(&values[index]);
            let ghost middle = *self;
            self.tile_binary(assembly::Binary::Mov, destination, source);
            proof {
                Tiler::lemma_extends_transitive(start, before, middle);
                Tiler::lemma_extends_transitive(start, middle, *self);
                if forall|i: int| 0 <= i < values@.len() ==> #[trigger] values@[i] is Temporary {
                    assert(values@[index as int] is Temporary);
                    assert(middle.added(before) =~= Seq::<assembly::Statement<Temporary>>::empty());
                    assert(return_moves(start.caller_returned, values@.take(index + 1)) =~= return_moves(
                        start.caller_returned,
                        values@.take(index as int),
                    ).push(self.added(middle)[0]));
                    assert(self.added(start) =~= before.added(start) + self.added(middle));
                }
            }
            index += 1;
        }
        proof {
            assert(values@.take(values@.len() as int) =~= values@);
        }
        // Control reaches the exit block at the end of the function, where
        // the epilogue returns: no `ret` here.
    }

    /// Move the arguments to where the callee reads them, call `function`, and
    /// move the values it returns into `returned`.
    #[verifier::spinoff_prover]
    fn tile_call(&mut self, function: &lir::Expression, arguments: &Vec<lir::Expression>, returned: &Vec<Temporary>)
        requires
            old(self).counter + 1 + weight(*function) + weights(arguments@) + 2 <= usize::MAX,
            arguments@.len() <= i32::MAX,
            returned@.len() <= i32::MAX,
            old(self).callee_arguments <= i32::MAX,
        ensures
            final(self).extends(*old(self)),
            final(self).counter <= old(self).counter + 1 + weight(*function) + weights(arguments@),
            exists|i: int|
                0 <= i < final(self).added(*old(self)).len() && #[trigger] final(self).added(*old(self))[i]
                    == assembly::Statement::Unary(
                    assembly::Unary::Call {
                        arguments: (arguments@.len() + if returned@.len() > 2 { 1int } else { 0int }) as usize,
                        returned: returned@.len() as usize,
                    },
                    final(self).added(*old(self))[i]->Unary_1,
                ) && final(self).added(*old(self)).skip(i + 1) == result_moves(
                    old(self).callee_arguments as int,
                    returned@,
                ),
            (forall|j: int| 0 <= j < arguments@.len() ==> #[trigger] arguments@[j] is Temporary) ==> call_setup(
                old(self).callee_arguments as int,
                arguments@,
                returned@.len(),
            ).len() <= final(self).added(*old(self)).len() && final(self).added(*old(self)).take(
                call_setup(old(self).callee_arguments as int, arguments@, returned@.len()).len() as int,
            ) == call_setup(old(self).callee_arguments as int, arguments@, returned@.len()),
    {
        let ghost start = *self;
        let ghost callee = start.callee_arguments as int;
        let ghost temporaries = forall|j: int| 0 <= j < arguments@.len() ==> #[trigger] arguments@[j] is Temporary;
        proof {
            Tiler::lemma_extends_reflexive(start);
        }
        let offset: usize = if returned.len() > 2 {
            // The callee writes the values beyond the second to the area
            // whose address it gets as an extra first argument.
            let area = abi::read_return(self.callee_arguments, 2);
            self.tile_binary(assembly::Binary::Lea, abi::write_argument(0), area);
            1
        } else {
            0
        };
        let ghost after_area = *self;
        proof {
            Tiler::lemma_extends_transitive(start, start, after_area);
            if temporaries {
                assert(self.added(start) =~= call_setup(callee, arguments@.take(0), returned@.len()));
            }
        }
        let mut index: usize = 0;
        while index < arguments.len()
            invariant
                index <= arguments@.len(),
                arguments@.len() <= i32::MAX,
                offset <= 1,
                self.extends(start),
                self.counter <= start.counter + 1 + weights(arguments@.take(index as int)),
                start.counter + 1 + weight(*function) + weights(arguments@) + 2 <= usize::MAX,
                self.callee_arguments == start.callee_arguments,
                callee == start.callee_arguments as int,
                offset == (if returned@.len() > 2 { 1int } else { 0int }),
                temporaries == (forall|j: int| 0 <= j < arguments@.len() ==> #[trigger] arguments@[j] is Temporary),
                temporaries ==> self.added(start) == call_setup(callee, arguments@.take(index as int), returned@.len()),
            decreases arguments@.len() - index,
        {
            proof {
                lemma_weights_prefix(arguments@, index as int);
            }
            let ghost before = *self;
            let destination = abi::write_argument(index + offset);
            let source = self.tile_expression(&arguments[index]);
            let ghost middle = *self;
            self.tile_binary(assembly::Binary::Mov, destination, source);
            proof {
                Tiler::lemma_extends_transitive(start, before, middle);
                Tiler::lemma_extends_transitive(start, middle, *self);
                if temporaries {
                    assert(arguments@[index as int] is Temporary);
                    assert(middle.added(before) =~= Seq::<assembly::Statement<Temporary>>::empty());
                    assert(self.added(start) =~= before.added(start) + self.added(middle));
                    assert(call_setup(callee, arguments@.take(index + 1), returned@.len()) =~= call_setup(
                        callee,
                        arguments@.take(index as int),
                        returned@.len(),
                    ).push(self.added(middle)[0]));
                }
            }
            index += 1;
        }
        let ghost after_arguments = *self;
        proof {
            assert(arguments@.take(arguments@.len() as int) =~= arguments@);
            Tiler::lemma_extends_reflexive(after_arguments);
        }
        let ghost before_call = *self;
        let target = self.tile_expression(function);
        let ghost after_target = *self;
        let count = arguments.len() + offset;
        let call = assembly::Statement::Unary(
            assembly::Unary::Call { arguments: count, returned: returned.len() },
            target,
        );
        self.push(call);
        let ghost after_call = *self;
        let ghost at = (after_call.added(start).len() - 1) as int;
        proof {
            Tiler::lemma_extends_transitive(start, before_call, after_target);
            Tiler::lemma_extends_transitive(start, after_target, *self);
            Tiler::lemma_extends_transitive(after_arguments, after_target, *self);
            assert(self.added(start)[at] == call);
            Tiler::lemma_extends_reflexive(after_call);
            assert(self.added(start) =~= after_call.added(start) + self.added(after_call));
        }
        let mut index: usize = 0;
        while index < returned.len()
            invariant
                index <= returned@.len(),
                returned@.len() <= i32::MAX,
                self.callee_arguments <= i32::MAX,
                self.extends(start),
                self.extends(after_call),
                after_call.extends(start),
                0 <= at < after_call.added(start).len(),
                after_call.added(start)[at] == call,
                self.added(start) == after_call.added(start) + self.added(after_call),
                self.counter <= start.counter + 1 + weight(*function) + weights(arguments@),
                start.counter + 1 + weight(*function) + weights(arguments@) + 2 <= usize::MAX,
                self.callee_arguments as int == callee,
                self.added(after_call) == result_moves(callee, returned@.take(index as int)),
                after_call.extends(after_arguments),
                after_arguments.extends(start),
                self.extends(after_arguments),
                temporaries ==> after_arguments.added(start) == call_setup(callee, arguments@, returned@.len()),
            decreases returned@.len() - index,
        {
            let ghost before = *self;
            let source = abi::read_return(self.callee_arguments, index);
            self.tile_binary(assembly::Binary::Mov, Unary::R(returned[index]), source);
            proof {
                Tiler::lemma_extends_transitive(start, before, *self);
                Tiler::lemma_extends_transitive(after_call, before, *self);
                Tiler::lemma_extends_transitive(start, after_call, *self);
                Tiler::lemma_extends_transitive(after_arguments, before, *self);
                assert(result_moves(callee, returned@.take(index + 1)) =~= result_moves(
                    callee,
                    returned@.take(index as int),
                ).push(self.added(before)[0]));
            }
            index += 1;
        }
        proof {
            assert(self.added(start)[at] == call);
            assert(returned@.take(returned@.len() as int) =~= returned@);
            assert(self.added(start).skip(at + 1) =~= self.added(after_call));
            Tiler::lemma_extends_transitive(start, after_arguments, after_call);
            Tiler::lemma_extends_transitive(start, after_arguments, *self);
            if temporaries {
                assert(self.added(start).take(after_arguments.added(start).len() as int) =~= after_arguments.added(start));
            }
        }
    }
}

/// What tiling needs of a function: its first statement is its enter label,
/// and its lists are short enough (see [`tileable`]).
pub open spec fn function_tileable(function: lir::Function<lir::Fallthrough>) -> bool {
    &&& function.statements@.len() > 0
    &&& function.statements@[0] == lir::Statement::<lir::Fallthrough>::Label(function.enter)
    &&& function.arguments@.len() <= i32::MAX
    &&& forall|i: int|
        0 <= i < function.statements@.len() ==> tileable(#[trigger] function.statements@[i], function.returned > 2)
}

/// `tiled` keeps the name, arity, linkage and labels of `function`, and is
/// framed by the prologue and epilogue, saving the callee-saved registers in
/// fresh temporaries numbered from `first` (after the one for the return area,
/// if the function returns more than two values).
#[verifier::opaque]
pub open spec fn tiles(
    frame_pointer: FramePointer,
    name: Symbol,
    function: lir::Function<lir::Fallthrough>,
    tiled: assembly::Function<Temporary>,
    first: int,
) -> bool {
    &&& tiled.name == function.name
    &&& tiled.arguments == function.arguments@.len()
    &&& tiled.returned == function.returned
    &&& tiled.linkage == function.linkage
    &&& tiled.enter == function.enter
    &&& tiled.exit == function.exit
    &&& framed(
        tiled.statements@,
        frame_pointer,
        function.enter,
        function.returned,
        save_temporaries(
            name,
            first + if function.returned > 2 { 1int } else { 0int },
            kept(abi::spec_callee_saved(), frame_pointer).len(),
        ),
    )
    &&& body_tiled(frame_pointer, name, function, tiled.statements@, first)
    &&& ret_free(tiled.statements@.drop_last())
}

/// Between the frame, `statements` hold the moves of the arguments into their
/// temporaries and then the segments tiled from the statements of `function`
/// after its enter label, in order.
pub open spec fn body_tiled(
    frame_pointer: FramePointer,
    name: Symbol,
    function: lir::Function<lir::Fallthrough>,
    statements: Seq<assembly::Statement<Temporary>>,
    first: int,
) -> bool {
    exists|segments: Seq<Seq<assembly::Statement<Temporary>>>, counters: Seq<int>|
        #[trigger] segments_tile(
            segments,
            counters,
            function.statements@,
            return_area(name, first, function.returned),
            first,
            callee_of(function),
        )
            && statements == opening(frame_pointer, function.enter, saved_in(frame_pointer, name, first, function.returned))
            + argument_moves(return_area(name, first, function.returned), function.arguments@) + joined(segments)
            + closing(frame_pointer, function.returned, saved_in(frame_pointer, name, first, function.returned))
}

/// The temporary that holds the address of the return area, the first fresh
/// one, where a function returns more than two values.
pub open spec fn return_area(name: Symbol, first: int, returned: usize) -> Option<Temporary> {
    if returned > 2 {
        Some(Temporary::Fresh(name, first as usize))
    } else {
        None
    }
}

/// The fresh temporaries that hold the saved callee-saved registers, after the
/// one for the return area.
pub open spec fn saved_in(frame_pointer: FramePointer, name: Symbol, first: int, returned: usize) -> Seq<Temporary> {
    save_temporaries(
        name,
        first + if returned > 2 { 1int } else { 0int },
        kept(abi::spec_callee_saved(), frame_pointer).len(),
    )
}

/// Select x86 instructions for a lowered function whose first statement is its
/// enter label. The result opens with that label, the frame pointer prologue
/// when the frame pointer is kept, and moves that save the callee-saved
/// registers into fresh temporaries; it closes with the moves that restore
/// them, the epilogue and `ret`. Fresh temporaries are named `name` and
/// numbered from `counter`, which advances past them.
#[verifier::rlimit(60)]
#[verifier::spinoff_prover]
pub fn tile(
    frame_pointer: FramePointer,
    function: &lir::Function<lir::Fallthrough>,
    name: Symbol,
    counter: &mut usize,
) -> (tiled: assembly::Function<Temporary>)
    requires
        function_tileable(*function),
        *old(counter) + statements_weight(function.statements@) + 16 <= usize::MAX,
    ensures
        tiles(frame_pointer, name, *function, tiled, *old(counter) as int),
        *old(counter) <= *final(counter) <= *old(counter) + statements_weight(function.statements@) + 8,
{
    // Return values beyond the two return registers go to an area whose
    // address the caller passes.
    let ghost first = *counter as int;
    let caller_returned = if function.returned > 2 {
        Some(Temporary::fresh(name, counter))
    } else {
        None
    };
    let ghost save_first = *counter as int;
    proof {
        lemma_callee_arguments_bounded(function.statements@, function.returned > 2);
    }
    let callee_arguments = match function.callee_arguments() {
        Some(count) => count,
        None => 0,
    };
    let mut tiler = Tiler { statements: Vec::new(), caller_returned, callee_arguments, counter: *counter, name };
    proof {
        lemma_statements_weight_prefix(function.statements@, 0);
        assert(function.statements@.take(0) =~= Seq::<lir::Statement<lir::Fallthrough>>::empty());
    }
    // The enter label stays the first statement.
    let ghost empty = tiler;
    tiler.tile_statement(&function.statements[0]);
    proof {
        assert(tiler.added(empty) == seq![assembly::Statement::<Temporary>::Label(function.enter)]) by {
            reveal(statement_tiled);
        }
        assert(tiler.statements@ =~= seq![assembly::Statement::Label(function.enter)]);
    }
    if frame_pointer == FramePointer::Keep {
        tiler.push(assembly::Statement::Unary(assembly::Unary::Push, Unary::R(Temporary::Register(Register::Rbp))));
        tiler.push(
            assembly::Statement::Binary(
                assembly::Binary::Mov,
                operand::Binary::RR {
                    destination: Temporary::Register(Register::Rbp),
                    source: Temporary::Register(Register::rsp()),
                },
            ),
        );
    }
    let ghost opened = seq![assembly::Statement::Label(function.enter)] + prologue(frame_pointer);
    proof {
        assert(tiler.statements@ =~= opened);
    }
    let registers = abi::callee_saved();
    let mut saved: Vec<(Temporary, Register)> = Vec::new();
    let mut index: usize = 0;
    while index < registers.len()
        invariant
            index <= registers@.len(),
            registers@ == abi::spec_callee_saved(),
            saved@.len() <= index,
            saved@.len() == kept(registers@.take(index as int), frame_pointer).len(),
            forall|j: int| 0 <= j < saved@.len() ==> (#[trigger] saved@[j]).0 == Temporary::Fresh(name, (save_first + j) as usize)
                && saved@[j].1 == kept(registers@.take(index as int), frame_pointer)[j],
            tiler.statements@ == opened + saves(
                save_temporaries(name, save_first, saved@.len()),
                kept(registers@.take(index as int), frame_pointer),
            ),
            tiler.counter == save_first + saved@.len(),
            save_first + 7 + statements_weight(function.statements@) + 8 <= usize::MAX,
            tiler.caller_returned == caller_returned,
            tiler.callee_arguments == callee_arguments,
            tiler.name == name,
        decreases registers@.len() - index,
    {
        let register = registers[index];
        let ghost before = kept(registers@.take(index as int), frame_pointer);
        let ghost statements = tiler.statements@;
        proof {
            assert(registers@.take(index + 1).drop_last() =~= registers@.take(index as int));
        }
        if !register.same(&Register::rsp()) && (!register.same(&Register::Rbp) || frame_pointer == FramePointer::Omit) {
            let temporary = tiler.fresh();
            let statement = assembly::Statement::Binary(
                assembly::Binary::Mov,
                operand::Binary::RR { destination: temporary, source: Temporary::Register(register) },
            );
            tiler.push(statement);
            saved.push((temporary, register));
            proof {
                let after = kept(registers@.take(index + 1), frame_pointer);
                assert(after == before.push(register));
                assert(saves(save_temporaries(name, save_first, saved@.len()), after) =~= saves(
                    save_temporaries(name, save_first, (saved@.len() - 1) as nat),
                    before,
                ).push(statement));
            }
        } else {
            proof {
                assert(kept(registers@.take(index + 1), frame_pointer) == before);
            }
        }
        index += 1;
    }
    let ghost registers_kept = kept(abi::spec_callee_saved(), frame_pointer);
    let ghost temporaries = save_temporaries(name, save_first, registers_kept.len());
    let ghost head = opened + saves(temporaries, registers_kept);
    proof {
        assert(registers@.take(registers@.len() as int) =~= registers@);
        assert(tiler.statements@ == head);
    }
    let ghost saved_state = tiler;
    tiler.tile_arguments(&function.arguments);
    let ghost after_arguments = tiler;
    let ghost mut segments: Seq<Seq<assembly::Statement<Temporary>>> = Seq::empty();
    let ghost mut counters: Seq<int> = Seq::empty();
    proof {
        Tiler::lemma_extends_reflexive(after_arguments);
        assert(function.statements@.take(1).len() == 1);
    }
    let mut index: usize = 1;
    while index < function.statements.len()
        invariant
            1 <= index <= function.statements@.len(),
            tiler.extends(after_arguments),
            after_arguments.extends(saved_state),
            after_arguments.added(saved_state) == argument_moves(caller_returned, function.arguments@),
            tiler.added(after_arguments) == joined(segments),
            segments_tile(
                segments,
                counters,
                function.statements@.take(index as int),
                caller_returned,
                first,
                callee_arguments as int,
            ),
            callee_arguments as int == callee_of(*function),
            first <= saved_state.counter,
            forall|i: int|
                0 <= i < function.statements@.len() ==> tileable(#[trigger] function.statements@[i], function.returned > 2),
            tiler.extends(saved_state),
            tiler.caller_returned == caller_returned,
            caller_returned is Some == (function.returned > 2),
            tiler.callee_arguments == callee_arguments,
            callee_arguments <= i32::MAX,
            tiler.counter <= saved_state.counter + statements_weight(function.statements@.take(index as int)),
            saved_state.counter + statements_weight(function.statements@) + 8 <= usize::MAX,
        decreases function.statements@.len() - index,
    {
        proof {
            lemma_statements_weight_prefix(function.statements@, index as int);
        }
        let ghost before = tiler;
        tiler.tile_statement(&function.statements[index]);
        proof {
            Tiler::lemma_extends_transitive(saved_state, before, tiler);
            Tiler::lemma_extends_transitive(after_arguments, before, tiler);
            lemma_segments_step(
                segments,
                counters,
                function.statements@,
                index as int,
                tiler.added(before),
                before.counter as int,
                caller_returned,
                first,
                callee_arguments as int,
            );
            segments = segments.push(tiler.added(before));
            counters = counters.push(before.counter as int);
        }
        index += 1;
    }
    let ghost body = tiler.statements@;
    let ghost body_tiler = tiler;
    let ghost final_counter = tiler.counter;
    proof {
        assert(body.take(head.len() as int) == head);
        assert(final_counter >= saved_state.counter);
    }
    let mut index: usize = 0;
    while index < saved.len()
        invariant
            index <= saved@.len(),
            saved@.len() == registers_kept.len(),
            temporaries.len() == registers_kept.len(),
            forall|j: int| 0 <= j < saved@.len() ==> (#[trigger] saved@[j]).0 == temporaries[j] && saved@[j].1
                == registers_kept[j],
            tiler.statements@ == body + restores(temporaries.take(index as int), registers_kept.take(index as int)),
            tiler.counter == final_counter,
        decreases saved@.len() - index,
    {
        let (temporary, register) = saved[index];
        let statement = assembly::Statement::Binary(
            assembly::Binary::Mov,
            operand::Binary::RR { destination: Temporary::Register(register), source: temporary },
        );
        tiler.push(statement);
        proof {
            assert(restores(temporaries.take(index + 1), registers_kept.take(index + 1)) =~= restores(
                temporaries.take(index as int),
                registers_kept.take(index as int),
            ).push(statement));
        }
        index += 1;
    }
    proof {
        assert(temporaries.take(saved@.len() as int) =~= temporaries);
        assert(registers_kept.take(saved@.len() as int) =~= registers_kept);
    }
    if frame_pointer == FramePointer::Keep {
        tiler.push(assembly::Statement::Unary(assembly::Unary::Pop, Unary::R(Temporary::Register(Register::Rbp))));
    }
    tiler.statements.push(assembly::Statement::Nullary(assembly::Nullary::Ret(function.returned)));
    proof {
        let tail = restores(temporaries, registers_kept) + epilogue(frame_pointer, function.returned);
        assert(tiler.statements@ =~= body + tail);
        assert(tiler.statements@.take(head.len() as int) =~= head);
        assert(tiler.statements@.skip(tiler.statements@.len() - tail.len()) =~= tail);
    }
    proof {
        assert(function.statements@.take(function.statements@.len() as int) =~= function.statements@);
        assert(saved_state.counter <= save_first + 7);
        assert(caller_returned == return_area(name, first, function.returned));
        assert(temporaries == saved_in(frame_pointer, name, first, function.returned));
        let tail = closing(frame_pointer, function.returned, temporaries);
        Tiler::lemma_extends_transitive(saved_state, after_arguments, body_tiler);
        let added = body_tiler.added(saved_state);
        assert(body =~= head + added) by {
            assert(body.take(saved_state.statements@.len() as int) == saved_state.statements@);
        }
        assert(tiler.statements@ =~= opening(frame_pointer, function.enter, temporaries) + added + tail);
        assert(function.statements@.take(function.statements@.len() as int) =~= function.statements@);
        lemma_tiled_body(frame_pointer, name, *function, tiler.statements@, first, segments, counters, added);
    }
    *counter = tiler.counter;
    let tiled = assembly::Function {
        name: function.name,
        statements: tiler.statements,
        arguments: function.arguments.len(),
        returned: function.returned,
        linkage: function.linkage,
        enter: function.enter,
        exit: function.exit,
    };
    assert(tiles(frame_pointer, name, *function, tiled, first)) by {
        reveal(tiles);
    }
    tiled
}

} // verus!

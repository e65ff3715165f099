# xic

Parts of a compiler for the Xi and Xi++ languages, written in Verus: the
behaviour of each function is stated in its `requires` / `ensures` contract and
proved.

## Layout

- `src/data`: the program representations: source spans, interned symbols,
  tokens, the abstract syntax tree, types, the IR and lowered IR, operands and
  x86-64 assembly, and the Intel-syntax text of allocated assembly.
- `src/check`: the type checker: typing contexts, local environments, and the
  rules for expressions, statements and functions, with their error kinds and
  the text of their messages. The checked tree is stated node by node against
  the input: each node annotated with its type, `+` on arrays made `++`.
- `src/abi`: the System V calling convention (argument and return locations,
  stack frames), class layouts and virtual tables, and symbol name mangling.
- `src/analyze`: transfer functions and merges of the dataflow analyses (live
  variables, constant and copy propagation, conditional constant propagation,
  anticipated, available, earliest, postponable, latest and used expressions,
  live ranges). Conditional constant propagation folds only what the machine
  model computes for the same operator and operands.
- `src/assemble`: instruction selection from lowered IR to assembly over
  temporaries. `assemble::machine` models the straight-line behaviour of IR
  expressions and of the selected instructions; the tiler's contracts say that
  the instructions for an expression compute its value, that a move into a
  temporary gets the value of its source, that a store writes the value of its
  source at the address it evaluates, that a conditional jump compares the
  values of its operands, and that a tiled function is its frame
  around the argument moves and the instructions of each statement in order.
- `src/allocate`: register allocation: the trivial allocator that spills every
  temporary, linear scan over live ranges (temporaries live at once never share
  a register, and none gets a register clobbered while it is live), the
  rewriting of spilled operands through shuttle registers, and a checker that a
  given allocation is consistent.
- `src/collections.rs`: small verified maps and sets keyed by a key trait.
- `app/`: what stays outside the verified library: the rendering of type
  errors as ariadne diagnostics.

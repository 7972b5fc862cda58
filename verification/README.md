# minilang

A small expression language with machine-checked contracts (Verus).

- `text`: string equality, lexicographic order, concatenation, and the
  decimal reading and writing of `i32`.
- `arith`: `i32` powers and division rounding toward zero.
- `tokens`: the lexer, from text to tokens.
- `ast`: the syntax tree, its mathematical model, the `ToNode` conversions
  and the `Visitor` interface.
- `parser`: a Pratt parser from tokens to the syntax tree.
- `interpreter`: a tree-walking evaluator with lazily bound, dynamically
  scoped definitions.
- `wasm`: a compiler of integer arithmetic to WebAssembly text.
- `evali32`: an evaluator of arithmetic over trees of tokens.
- `tree`, `types`: a general tree, and the language's types.

Each executable function states what it computes over the model; where
evaluation or parsing would panic (an unknown name, overflow, a malformed
expression), the function's precondition leaves that input out. The proof
functions whose names begin with `law_` state properties that relate several
functions or hold of all inputs.

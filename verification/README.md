# zin_lib

Parts of the zin scripting language, written in Verus: every function in
`src/` carries a contract that Verus proves. The library holds the lexer's
hand-over to the grammar, a compiler for expressions, statements and
function and lambda definitions, the machine that runs compiled code one
instruction at a time, and the data structures these work on. It has no
grammar yet, and leaves the work on values (arithmetic on floats, objects)
to its caller.

## Layout

- `src/token.rs` — the lexer's tokens as the grammar reads them, with the
  line each one starts on.
- `src/compile.rs` — expressions and statements, and the code they compile
  to: constants interned in a pool, variables found in the scope chain
  (upvalues made for variables of outer scopes), `let` making locals,
  `if`, `while`, `for` and `try` turned into jumps and handlers; functions
  and lambdas compiled into a function table, with the code that captures
  the variables of outer scopes; `pub` declarations made members.
- `src/machine.rs` — one step of running compiled code: the stack, local,
  jump, `try` and return instructions run in the library; the others are
  handed to the caller as actions, with the operands they take; how an
  action ends a call.
- `src/ops.rs` — the instructions.
- `src/executor.rs` — value stacks, `try` handlers, local variables of the
  stack of frames, and the program counter.
- `src/function.rs` — constant pools of compiled functions.
- `src/refrence.rs` — scope tables: locals, upvalues and the chain of
  scopes being compiled.
- `src/stringify.rs` — unescaping of string literals, and the text of its
  failures.
- `src/error.rs` — the error type: its class name and its message.
- `src/number.rs` — unsigned numbers of four widths and their arithmetic.
- `src/signed.rs` — signed integers of four widths and their arithmetic.
- `src/obj.rs`, `src/value.rs`, `src/printing.rs` — string and vector
  objects: reading, writing and cutting at indices, ranges and value keys,
  the bytes a value adds to a byte vector, and how containers print.
- `src/access.rs` — access flags of object members.
- `src/json.rs` — writing JSON text from tokens, and reading a JSON
  document from the tokens of a text.
- `src/cli.rs` — reading the command line.
- `tests/` — tests of the library on concrete values.
- `app/` — what stays outside the library: signed and floating-point
  numbers, the lexer generated by `logos`, JSON values built from text, the
  loop that runs compiled functions on the machine (calls and integer
  work), and the command-line front end's input and output.

# lox

A bytecode virtual machine for the Lox language, written in Verus: the code is Rust, and
its behaviour is stated in `requires` / `ensures` contracts that Verus proves.

## Layout

- `src/` — the verified library.
  - `byte_code.rs` — instructions, their byte encoding and decoding, jump offsets.
  - `codemap.rs` — the line of each byte position of the source.
  - `lexer.rs` — the tokenizer, specified byte by byte.
  - `parser.rs` — the syntax tree and the Pratt parser that builds it.
  - `decimal.rs` — decimal digits of numbers in messages.
  - `interner.rs` — interned names and the table of interned heap strings.
  - `object.rs`, `value.rs` — heap objects and run-time values.
  - `gc.rs` — the heap and its mark-and-sweep collector.
  - `vm.rs` — compile-time scopes, the compiler, the machine's state, allocation,
    captured variables, errors and their reports.
  - `interpreter.rs` — running compiled code one instruction at a time.
  - `stats.rs` — performance counters.
- `tests/` — tests of the library, run against the compiled crate.
- `app/` — the `lox` command: reading the source file, the arithmetic and printing of
  floating-point numbers, and writing output and errors.

Numbers are carried as the bits of their double-precision value. The library never computes
with them: the command hands it the floating-point operations as a function, and writes the
digits of printed numbers itself.

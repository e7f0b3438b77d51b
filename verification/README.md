# pblang

A compiler for PBLang, a small imperative teaching language (`int`, `bool` and
`string` variables, `if`/`else`, `while`, `print`, `read`), written in Verus.

- `src/`: the compiler as a verified library.
  - `lexer`: the token grammar as a specification (`varre`) and a scanner proved
    to produce exactly its tokens and errors.
  - `parser`: the recursive-descent grammar, with error recovery, as a family of
    specifications (`p_*`) that the parser is proved to follow.
  - `semantic`, `symbol_table`: the scope and typing rules; the analysis reports
    no error exactly when the program is valid.
  - `codegen`, `llvm`: LLVM IR generation through `inkwell`. The requests made to
    LLVM for each construct are specified (`em_*`) and proved, each with the
    values it is given (every operand is the result of an earlier request, a
    variable's slot, a block or a function of the module) and the value it gives
    back; the `llvm` module holds the calls into `inkwell`, what each is trusted
    to do, and the log of requests, which only those calls can extend. The IR
    text and LLVM's verdict on the module are named as functions of that log
    (`texto_ir`, `falha_de_verificacao`).
  - `error`, `texto`, `ast`: errors and their printed form, decimal text, the AST.
- `app/`: the command-line driver (`pblang file.pb [--emit-tokens] [--emit-ast] [--emit-ir]`).
- `tests/`: tests of each phase.

The generated IR targets LLVM 14, whose pointers are typed: strings are handled
as `i8*`.

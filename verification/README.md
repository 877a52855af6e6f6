# sovereign

The front end, native code generator and tool logic of the Sovereign
programming language, written in Verus. The functions in `src/` carry
contracts that Verus proves, except the small trusted wrappers around calls
into std and inkwell (LLVM), marked `#[verifier::external_body]`, whose
contracts are taken on trust.

Layout:

- `src/` — the verified library:
  - `ast`, `token`, `lexer`, `parser`: the syntax tree, tokens, lexing and
    parsing, with the tree's mathematical view (`SpecExpr`, `SpecStmt`, ...);
  - `semantic`, `infer`, `safety`, `closures`, `generics`: name and type
    checks, type inference, the memory-safety checker, closure capture and
    monomorphization;
  - `driver`: lexing, parsing and analysis of a whole source;
  - `cache`, `sha256`: the incremental compilation cache and its SHA-256
    content hash;
  - `codegen`: lowering a program to an LLVM module and, through inkwell,
    to object code;
  - `cross_compile`, `lto`: target selection, LLVM target machines (through
    inkwell) and the linker and LTO command lines;
  - `blockchain`, `web`, `page_syntax`, `stdlib_c`, `http`, `testing`,
    `self_hosting`, `text`: EVM bytecode and contract checks, the web page
    generator and the page syntax reader, the C runtime text, HTTP helpers,
    the test runner and text utilities.
- `tests/` — tests of the library's public functions.
- `app/` — the command-line program: argument handling, files, processes.

`public proof fn law_*` items state the properties that hold across calls.

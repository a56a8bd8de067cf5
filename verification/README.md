# wispee

Wispee is a small compiled language for programming language-model agents:
`kernel`s, `skill`s, `spell`s, probabilistic `branch`es on classifier
confidence, a token heap of context segments, lore, memory and oracles.

This crate is its toolchain, verified with Verus:

- `src/` — the library, every function with a contract:
  - `lexer`, `parser`, `ast`: source text to tokens to items, each stage a
    function with an exact specification;
  - `resolve`: splicing `use`d modules into a program;
  - `semantic`: name resolution, constant evaluation and the checks of the
    language;
  - `codegen`, `opcodes`: the instruction set and code generation;
  - `wire`: the program file format, with its encoder and decoder proved
    inverse to each other;
  - `heap`: the token heap, a budgeted allocator of context segments;
  - `value`, `vm`: values and the stack machine, specified by an
    interpreter over the replies of the inference backend;
  - `backend`, `store`: the inference backend and persistent store traits,
    with a simulated backend and in-memory / write-through stores;
  - `fmt`: the pretty-printer; `project`: the project file's settings.
- `app/` — the command line (`build`, `run`, `check`, `fmt`), file access,
  the project file, the JSON store on disk and the HTTP backend.
- `tests/` — tests of the library on concrete programs.

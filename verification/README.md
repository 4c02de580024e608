# cabin

Data structures and algorithms of the Cabin compiler as a verified library, with the `cabin`
command-line tool around it. Lexing, the parsing of expressions, and their evaluation at
compile time are not part of the library; of the transpiler to C it holds the code of function
declarations, function calls, groups, eithers and built-in functions, given the C code of
their parts.

- `src/` is the library, checked by Verus:
  - `api/` — the scope arena with variable lookup and name suggestions (`scope`), the
    compiler's run state (`context`), project options and setting them in `cabin.toml`
    (`config_files`, through toml_edit), error reports.
  - `compile_time/` — detection of dependency cycles between variables (`type_tree`), the
    C code of built-in functions (`builtin`), and addressed virtual memory (`memory`).
  - `comptime/` — the virtual memory that hands out pointers.
  - `parser/` — token queues, bracketed lists of names, operator precedence, names and their
    C mangling, object fields, literal objects with the function, group, parameter and
    either declarations that they stand for, the parsing of eithers, and what a function call
    does at compile time.
  - `cli/` — colour themes and styles, and project versions.
  - `lexer`, `compiler` — spans, token kinds, and executable extensions.
- `tests/` exercises the library on concrete values.
- `app/` is the command-line tool: argument parsing, the file system, and the terminal.

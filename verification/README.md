# tscc

A compiler for a subset of TypeScript that produces native executables through
LLVM. The front end and the analyses that code generation relies on form a
library verified with Verus; the command-line program, file handling and LLVM
code generation sit around it.

## Layout

- `src/lexer/`: tokens and the scanner. `lexing.rs` states what scanning a
  text yields, character by character (tokens with their spans, lines and
  columns, template literals rewritten into concatenations, or the first
  error); the scanner is proved to produce exactly that.
- `src/parser/`: the syntax tree, deep copies proved to be the same tree, and
  a recursive-descent parser that consumes every token of a program it
  accepts. `grammar.rs` describes, as functions of the tokens, the trees of
  programs made of operator chains, assignments, declarations (destructuring
  ones included), blocks, `if` and `while`; the parser is proved to return
  those trees.
- `src/types/`: types, structural assignability (with its laws: reflexive,
  `unknown` on both sides, literal widening, unions), and the type checker.
  Its contracts state how a program's statements are checked in order, each
  in the scopes the earlier ones left (hoisted functions and imports first),
  what declarations bind and blocks keep to themselves, and the outcome of
  literals, names, assignments, operators, conditionals, member reads, calls
  of named functions (arity and argument types), `console` and `Math` calls,
  plain object literals, `satisfies`, declarations, returns, blocks, `if`,
  `while`, `for`, `switch`, `try`, labeled statements and function bodies,
  and the signatures exported functions carry; the other forms are stated in
  part.
- `src/codegen/analysis.rs`: which functions can run on machine integers, the
  names a closure captures, and how annotated variables are stored.
- `src/modules.rs`: the order in which the modules of a program are checked
  (dependencies first) and what each imports from the others.
- `src/diagnostics.rs`: diagnostics, their one-line and underlined rendering
  widths, and severity counts.
- `app/`: the `build` and `run` commands, reading files, reporting errors,
  loading imported modules, LLVM code generation (inkwell) and linking with the
  C runtime.
- `tests/`: tests of the library on concrete programs and values.

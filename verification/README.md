# bracket

A parser for handlebars-compatible templates, and the decisions its
renderer makes, written in Verus. It turns a token stream over a template
source into an abstract syntax tree whose nodes refer to byte spans of that
source, resolves variable paths against a stack of scopes, and decides how
blocks and partials are rendered; every function carries a contract that
Verus proves.

Layout:

- `src/lexer.rs`: tokens, and a lexer over a token stream that checks the
  tokens fit the source.
- `src/parser/`: the parser (`mod.rs`), calls and their arguments
  (`call.rs`), paths (`path.rs`), string literals (`string.rs`), wiki-style
  links (`link.rs`), text runs, comments, raw blocks and block scopes
  (`block.rs`), the syntax tree (`ast.rs`) and tree iteration (`iter.rs`).
- `src/render/`: scopes, variable lookup against the scope stack, what a
  node writes (trimmed and escaped as its tags ask), the choice of how a
  block or partial is rendered, the choice of a block's
  `else` clause, helper call contexts, literal values and JSON type
  assertions.
- `src/registry.rs`: compiling and linting named templates.
- `src/text.rs`, `src/trim.rs`, `src/error.rs`: source slices, whitespace
  trim hints and syntax errors.
- `tests/`: tests run against the compiled library.

# turnip_text

Lexing and interpreting of turnip-text documents: text with embedded Python code, scopes, raw
scopes and comments, read into paragraphs, block scopes and a tree of segments opened by headers.
The library is written in Verus, and its behaviour is stated in `requires`/`ensures` contracts and
proved.

## Layout

- `src/lexer.rs` splits a document into tokens; `src/span.rs` and `src/line_col.rs` hold the
  positions the tokens carry.
- `src/parser/` turns a stream of simple tokens into a tree of code, scopes, raw scopes and text.
- `src/doc_segment.rs` keeps segments ordered by the weight of their headers.
- `src/interpreter/` reads tokens into a document:
  - `state_machines/` holds the processors (paragraphs, scopes, code, comments, raw scopes), each
    with its step as a spec function, and the stacks of processors, proved to follow the state
    machine of `state_machines/stack_machine.rs`;
  - `driver.rs` reads the files that a document and its code emit, token by token, and stops where
    Python's work (evaluating code, building from a scope) is needed;
  - `document.rs` sorts the top level's blocks and headers into segments;
  - `diagnostic.rs` builds the messages for errors.
- `app/` is a command-line front end: it reads a file, runs the parser, and prints the document or
  the error (with `codespan-reporting`). It embeds no Python.
- `tests/` holds the tests.

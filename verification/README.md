# moonjuice

The lexer, parser and editor-support logic of MoonJuice, a small scripting
language in the family of Lua, written in Verus and proved against its
specifications.

- `src/lexer` turns text into tokens (`Lexer::tokenise`); `spec_tokenise`
  says which tokens, `lemma_tokens_from_laid_out` that they lie in order,
  and `lemma_tokens_are_pieces` that each is the text between its start and
  its end.
- `src/parser` turns tokens into a syntax tree (`Parser::parse`,
  `tokenise_and_parse`); `grammar.rs` is the grammar as spec functions, and
  the parser is proved to compute exactly `spec_parse`; `precedence.rs`
  proves that a run of integer and symbol operands joined by binary
  operators keeps its operands and operators in order and groups them by
  precedence and associativity, and `progress.rs` that an operand always
  takes a token when one is left.
- `src/lsp` holds what a language server needs: semantic tokens, diagnostics,
  and open documents.
- `src/common`, `src/peekable_stream.rs`, `src/chars.rs`, `src/text.rs` hold
  the shared types and helpers.
- `app/main.rs` is the language server itself: it speaks the editor protocol
  with `tower-lsp-server` and keeps one `Document` of the library per open file.

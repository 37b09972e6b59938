# helix-term

The logic of the terminal front end of the Helix editor, written in Verus.

- `src/ui`: text input, menus, dialogs, the agent panel, Markdown and diffs. Each
  widget says what is drawn where, and what a key does.
- `src/acp`: what agents send, and the dialogs in which they ask for permission.
- `src/mcp`: what tools ask of the editor: reading and editing files, symbols,
  language servers, the debugger, buffers.
- `src/application`: the events of the editor, of the terminal and of language servers,
  what is opened at the start and said at the end.
- `src/claude_ide.rs`, `src/editor.rs`: proposals shown as splits, selections that are
  reported, documents that are read again.
- `src/text.rs`, `src/unicode.rs`, `src/rope.rs`, `src/rounding.rs`, `src/json.rs`: what
  the rest is built on.

Executable functions have contracts. The exceptions are the four private functions of
`ui/markdown/events.rs` that turn a value of the Markdown parser into one of the
library's: nothing is stated of them beyond the contract of `parse_events`, which calls
them. Properties that span functions are public proof functions whose names start with
`law_`. Calls into other crates stand behind small functions marked `external_body` in
`unicode.rs`, `rope.rs`, `ui/markdown/events.rs` and `mcp/edit.rs`; what is taken from
`std` on trust is in `text.rs`, `ui/textarea.rs` and `mcp/buffers.rs`.

`app/` is the part around it: files, signals, the terminal, logging, and what needs
floating-point numbers.

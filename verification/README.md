# p4_lsp

A language server for P4 whose analyses are written in Verus and proved
against their specifications.

- `src/` is the verified library: the model of a P4 program (`ast`,
  `lexical`), hover texts (`hover`, `builtins`), completions (`completion`),
  go-to-definition (`definition`, `includes`), semantic tokens (`semantic`,
  `highlight`), diagnostics and documents (`diagnostics`, `server`), the order in
  which an open document and its includes are compiled (`standalone`), the
  project configuration (`config`), symbols and compiled roots (`project`,
  `unit`), the order in which a root's files are compiled (`compile`) and
  the project state (`state`). Calls into ropey, dashmap, url
  (through tower-lsp) and a few std functions stand behind small trusted
  wrappers whose contracts are documented where they are declared.
- `app/` is the server itself: the editor protocol over stdio (tower-lsp),
  the P4 compiler, reading files and `.p4lsp.json`, and the conversions
  between those and the library's types.
- `tests/` exercises the library on concrete inputs.

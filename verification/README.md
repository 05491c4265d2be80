# diff_lsp

A language server for unified diff/patch files and quilt series files,
whose editor features are written and proved in Verus.

- `src/` is the library. Each feature (diagnostics, code actions, code
  lenses, folding, symbols, highlights, hover, inlay hints, links, selection
  ranges, semantic tokens, completions, rename, reordering, go-to-definition,
  SCIP references) is a function from the parsed document to plain results,
  with a contract stating the result exactly over spec functions of the
  syntax tree. Parsing is patchkit's; its trees are walked once and rebuilt
  as a flat, verified tree (`syntax.rs`). What the file system knows (which
  files exist, what `.pc/applied-patches` says) comes in as arguments.
  Which quilt command a code action runs, and with which arguments, is
  decided in `quilt_invocation.rs`; how an editor's change applies to a
  document's text, in `content_changes.rs`.
- `tests/` runs the features on concrete documents.
- `app/` is the server itself (tower-lsp-server over stdio), the file-system
  reads, running quilt as a child process, and the `scip` subcommand.

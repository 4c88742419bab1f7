# nix_lsp

The completion logic of a Nix language server, verified with Verus.

- `src/mapping.rs`: the mappings from the variable a user typed (`pkgs`,
  `lib`, `inputs`, `inputs'`, `self`, `self'`) to the attribute path in the
  workspace flake, and how evaluated attribute names become completion
  entries (functions sort before other values).
- `src/completion.rs`: reading the attribute path back from the cursor,
  the table of mappings, and the request a completion makes of the flake.
- `src/ast.rs`: the syntax tree as ranges, and the nodes at a position.
- `src/flake_cache.rs`: the expression that loads the workspace flake.
- `app/`: the server around the library: the LSP framework, tree-sitter
  and rnix parsing, and evaluation through the Nix C API.

# gitlab_ci_ls

The verified core of a language server for GitLab CI files.

- `src/` is the library, checked by Verus:
  - `treesitter_queries` builds the tree-sitter queries (exact texts);
  - `text` and `keyed` hold the text operations and the insertion-ordered,
    one-entry-per-key map that the index is made of;
  - `handlers` holds the server's index (documents, root nodes per document,
    stages, variables, components) and how parse results enter it on
    indexing, opening and changing a document;
  - `definition`, `completion`, `hover`, `references` and `diagnostics`
    answer the editor's requests from the index, and choose, by what the
    cursor stands on, which lookup answers a request;
  - `laws` states what holds of every input: what indexing stores
    (documents, root nodes, stages and variables) is what a lookup gives
    back, completions and diagnostics list exactly what matches;
  - `query_laws` states the shape of the query texts: where the arguments
    go, which tests each query holds, and how the position query for root
    nodes relates to the query for all of them.
- `app/` is the unverified side: decoding LSP messages, reading the
  workspace, the YAML parser and the cursor-word helpers (as traits), and
  turning answers into LSP results.
- `tests/` runs the library on concrete values.

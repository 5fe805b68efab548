# ayml_lsp

A language server for AYML documents, built around a verified library.

`src/` is the library, verified with Verus:

- `text`: byte offsets and editor positions, and comment detection.
- `strings`: the string operations the rest needs, with their specifications.
- `json`: a JSON value type and its compact text.
- `schema`: walking a JSON Schema by path (`$ref`, `allOf`, `anyOf`, `oneOf`)
  and the hover text and type strings of a sub-schema.
- `document`: the document tree, instance paths, and hover ranges.
- `locate`: the path to the value a byte offset is about.
- `convert`: the JSON form of a document tree.
- `diagnostics`: diagnostics from schema validation errors.
- `validate`: validating a document against its schema with `jsonschema`.
- `store`: the open documents, keyed by URI.
- `server`: the server's decisions for each editor message, and the
  diagnostics and hover answers it sends.

`app/` is the program: the LSP message loop, parsing documents, fetching
schemas, and converting between the library's
types and those of the protocol and JSON crates.

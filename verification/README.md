# lsp_backend

A language server for TypedAnt.

`src/` is the library, verified with Verus. It decides everything that does not
need the compiler or the editor at hand:

- `utf16`: lengths in UTF-16 code units, in which the protocol counts.
- `text`: where a token stands in a document, and which identifier ends at a caret.
- `token_type`: the kinds of semantic tokens and their legend.
- `marks`, `ordering`, `encoding`, `semantic`: which tokens are highlighted, in
  which order, and how they are sent.
- `completion`: which names are offered.
- `path`: the files that documents are stored in.
- `analysis`: how a compilation goes on after each phase, and what is shown of it.
- `backend`: the open documents and the answers to requests.
- `protocol`, `syntax`: the values that go to the editor and come from the compiler.

`app/` is the program around it: it talks to the editor, runs the compiler's
phases and converts values. `tests/` runs the library.

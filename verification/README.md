# Baryon

The verified core of Baryon, a modal terminal text editor. Every function in
`src/` carries a `requires` / `ensures` contract over a mathematical model of
its data (`Seq`, `Map`, `int`), and Verus proves the code against it.

What is here is the editor's logic, with no terminal and no file system:

- `session`: an editing session over a byte document — cursor motions, insert,
  delete, undo / redo, yank / put with registers, search, substitute (also with
  confirmation), visual selections, inner-word objects, load and write requests.
- `undo`: the undo ledger, with laws for undo / redo and the dirty flag.
- `keys`, `prompt`, `commands`: key handling in normal, visual and command modes,
  and the parsing of ex commands.
- `ecs`, `projection`, `folding`, `fold_ranges`: the node registry of the sparse
  document tree, fold placeholders and the viewport projection.
- `lines`, `coords`, `layout`, `scroll`: line / column arithmetic with tabs,
  wrapped and unwrapped layout, scrolling.
- `semantic`: when to ask for semantic highlights and which answers to take, and
  the categories of semantic highlight tags.
- `highlight`, `pipeline`, `diagnostics`, `minimap`, `status`, `settings`,
  `search`, `resolver`, `words`, `word_object`, `edits`, `selection`,
  `startup`, `text`: the remaining pieces of rendering state and editing rules.

Outside crates: `ra_ap_syntax` parses Rust for highlighting and word objects (a text
with more tokens than the parser's recursion can safely take is not handed to it),
`regex-automata` runs search patterns, `memchr` counts newlines. Each call goes
through a small trusted item whose contract states what the crate documents.

`tests/` exercises the library on concrete values.

# block_editor

The engine of a block-based document editor, verified with Verus.

A document is a map of blocks by id: a root block, standard blocks
(paragraphs, headings, list items, layouts, pages) that hold inline blocks
and child blocks, and inline blocks that hold UTF-16 text and marks (bold,
italic, underline, strikethrough, colors).

What the user does (a key press, a format-bar command, a slash command, a
drag and drop, ...) is turned into steps by `steps_generator`, against the
current selection; `steps_actualisor` applies steps to the document and
works out the new selection and the blocks to redraw. Copied blocks are
kept as a tree on the clipboard; pasting gives them fresh ids and puts
them in at the caret.

Layout:

- `src/` is the verified library: blocks and their model (`blocks`), marks,
  steps, selections, the step generators and the step actualisers, with
  their contracts and the laws that hold of them (for instance that a mark
  reads back from its text form, that marking or splitting a block keeps
  its text, that ticking a to-do item twice changes nothing).
- `app/` holds the bindings that Verus does not see: the JSON form of
  blocks, selections and steps, and the JavaScript entry points of the
  editor and its server.
- `tests/` runs the library on concrete documents.

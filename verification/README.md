# mdiff

A terminal diff viewer whose logic is verified with Verus.

`mdiff` runs the diff command of the repository it is started in, reads what it
prints, and shows it side by side on terminals wider than 120 columns and in a
single column on others, in a pager where it does not fit the screen.

- `src/` is the library. Everything in it is proved: what each function returns
  is stated in its contract, over the models in `Seq`, `nat` and spec functions
  that stand next to it.
  - `text`, `width`: text as characters, and the columns that it takes
  - `unified_diff`, `snapshot`: reading a diff
  - `render`: lines of terminal text
  - `pager`: what is on the screen, and what keys and the mouse do
  - `backend`, `terminal_palette`, `rage`: commands, colors, diagnostics
- `app/` is the program around it: arguments, processes, files, the terminal.
- `tests/` runs the library.

The proofs rest on a few claims about code outside of this project: how wide
`unicode-width` says a character is, what `supports-color` reports, and what
`push`, `push_str` and `pop` do to a `String`. Each claim stands where it is
made, in `src/width.rs`, `src/terminal_palette.rs` and `src/text.rs`.

The laws of the library are proof functions: `render/laws.rs`,
`render/style_laws.rs`, `pager/laws.rs`, `pager/paint_laws.rs` and
`pager/pane_laws.rs`, and at the end of the other modules.

# git-wt

`git-wt` manages git worktrees in sibling directories named
`<repo>-<branch>`: listing them, switching between them, adding one for a
branch, comparing branches commit by commit (`commits`, `log`,
`merge --review`), diffing two worktrees and merging one into another.

The crate is a Verus library with a thin command line around it.

- `src/` is the verified library. Every decision the tool makes is a
  function here with a contract: the argument grammars of each verb, the
  target lists (`1,2`, `main,3`), the worktree listing git prints, the
  commit table (its rows, filters, marks, widths and cells), the diff
  reports, the Markdown report, `doctor`'s findings and the pickers'
  menus. Laws that hold across calls are stated as public proof
  functions beside the code they are about (`lemma_*`).
- Stanza draws the commit table; the library hands it a plan whose every
  cell is specified (`commits::table::commit_table`) through a handful of
  trusted wrappers in `src/commits/table.rs`.
- `app/` runs git, reads the terminal and the user's answers, and prints
  what the library returns. The `merged` columns of `list` are the one
  place it leaves blank: the library takes their texts as values, and the
  command line does not measure them.
- `tests/` exercises the library on concrete values.

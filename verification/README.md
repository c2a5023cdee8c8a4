# vdiff: a vertical diff viewer

`vdiff` diffs files **column by column** instead of line by line. The k-th
character of every line becomes one column; columns are compared, and the
result is transposed back, with the old and the new characters of each changed
column side by side:

```
    |-|+|
foo | | |
bar |b|q|az
quux| | |
```

The logic is a library written in [Verus](https://github.com/verus-lang/verus):
every function states in its contract what it returns, and Verus proves it.

## Layout

- `src/`: the library.
  - `text`, `width`, `columns`: characters, display widths, lines and columns.
  - `lcs`, `diff`, `render`: the diff of two column lists, the grid of two
    files, and its plain-text views.
  - `git`, `revs`, `changes`, `content`, `repo`, `fake_git`: what git is asked
    and what its replies mean.
  - `cli`, `report`: arguments and the printed report.
  - `rows`, `app`, `keys`, `screen`: the viewer, from its rows and its state to
    the characters that it draws.
  - `text_laws`, `lcs_laws`, `grid_laws`, `view_laws`, `git_laws`, `key_laws`:
    what holds across functions, as proofs.
- `app/`: the program around it: argument parsing, files, the `git` executable
  and the terminal.
- `tests/`: the library at work.

## What is not proved

- The width of a character or a text is what `unicode-width` says it is.
- Areas are split and framed the way `ratatui` does it.
- The standard library decodes UTF-8, strictly and lossily, appends a character
  to a string, and tells white space the way it is documented.
- The contract of `GitShell`, the trait through which git is asked, is proved of
  `FakeGit`. Nothing checks it of `RealGit` in `app/`, which runs the executable
  and promises nothing of its replies.

Each call outside the library sits in a small function or declaration whose doc
comment says what is taken for granted of it. `app/` as a whole is ordinary Rust.

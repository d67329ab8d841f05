# exoshell

A verified core for a small terminal shell and its helpers, written in Verus.

- `linebuf`: splitting arbitrary byte chunks into `b'\n'`-terminated lines
  (`ByteLineBuf`), with laws stating that no byte is lost, duplicated or
  reordered, and that chunk boundaries never change the lines.
- `linestream`: the decisions of a line stream over an upstream of chunks.
- `pane`: fixed-size panes that keep the first and the latest rows.
- `rows`, `text`: wrapping text into rows, shortening, trimming.
- `command`: command lines and `--`-separated argument lists.
- `run`, `runner`: the shell's runs, their logs, and how they render.
- `ui`, `glyphs`: the input line, the screen layout, and row glyphs.
- `paths`, `cleanup`, `iomux`: application paths, cleanup outcomes, and the
  output multiplexer's per-child state.

`app/` holds the input and output around the library: the file system,
child processes, async streams and queues, and the terminal. Its `main`
runs the shell, or the output multiplexer when invoked as `iomux`.

# mat

A terminal Markdown reader: it renders a document with 24-bit colors, framed
code blocks, GitHub alerts, box-drawn tables and OSC 8 links, and either
prints it or shows it in a full-screen pager with Vim-style keys and search.

The library under `src/` is written in Verus; every function carries a
contract that Verus proves.

- `text` — character-sequence helpers: line splitting and joining, decimal
  digits, integer parsing, white space.
- `terminal` — ANSI-aware measurement: stripping escape sequences, visible
  width, tokenizing and greedy word wrapping, blank-line collapsing.
- `layout` — the reading column and its centering, the file header and footer.
- `table` — GFM tables drawn with Unicode box characters.
- `syntax` — code highlighting through `syntect`.
- `parse` — the Markdown event stream read from `pulldown-cmark`.
- `render` — the renderer, a state machine over the event stream.
- `viewer` — the pager's state machine: keys, mouse, resize, search, and the
  screen it draws.
- `cli` — the command line.

Laws stated and proved beside the functions include: stripping is idempotent
and leaves no escape character; closed escape sequences compose; wrapped lines
fit the width unless they hold a single word, for text whose escape sequences
are complete, and a break closes the styles in force and the next line reopens
them; trimming drops the trailing blanks before trailing escape codes;
collapsing leaves no blank runs and keeps every line of content; the reading
column stays within 40..100 columns by default and centering keeps it on
screen; every line of a table is equally wide, cells wider than a narrowed
column being cut to it; the pager's scroll offset never passes the last
screenful, whatever event arrives; search hits are exactly the matching lines.

`app/` holds the program around the library: argument and file reading, the
terminal's raw mode and event loop, and output.

# ptyzzz

A terminal as a unix pipe: keystrokes in as JSONL, the screen out as rendered
HTML. The program owns one pty, feeds its output to a terminal emulator, and
prints what changed as frames: a keyframe (`screen`) carries the whole grid, a
`diff` only the rows that changed, were added or fell off the scrollback.

The rules of all this are a library verified with Verus; the program around it
does the I/O.

## Layout

    src/text.rs      numerals, trimming, search, ASCII case
    src/style.rs     cell attributes -> class names and inline styles
    src/links.rs     which uris become anchors; which lines are scanned for urls
    src/row.rs       escaping, the cursor overlay, one row of cells -> html
    src/cache.rs     the rendered rows, in row order
    src/emit.rs      frame production: damage, keyframe or diff, the cursor
    src/page.rs      what a client shows after following the frames
    src/keys.rs      key names, modifier bits, escape sequences
    src/command.rs   what one line of input asks for
    src/session.rs   the child process, the reader, the ways a session ends
    src/pacing.rs    when a frame may start, when a keyframe is due
    src/wire.rs      frames as JSON lines
    src/vt.rs        the ghostty engine: calls to make, replies to read

    app/main.rs      arguments, threads, stdio
    app/terminal.rs  the wezterm terminal as plain values
    app/protocol.rs  commands as JSON
    app/vt.rs        the foreign calls of the ghostty engine

## What is proved

- A row reads as the text of its cells less the default blanks at the end; it
  is its runs, each wrapped once; every cell keeps its column; no text can
  break out of the markup, and no link has a scheme other than http, https or
  mailto.
- A tick emits nothing exactly if nothing visible changed and no keyframe is
  owed; otherwise the frame is pinned down byte for byte.
- Through a whole session a client that follows the frames shows each row of
  the terminal as it looks now, as long as the emulator reports every row that
  looks different and the end of the screen does not move back; a keyframe
  heals any client.
- A hidden cursor never moves on the client, and disappears only after the
  grace.
- Productions start at least the coalesce time apart, and at once after idle.
- A frame is one line of JSON, and the line tells the frame.

What is trusted: the JSON objects of serde_json, and a few functions of the
standard library, each with its contract beside it.

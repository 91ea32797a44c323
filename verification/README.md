# rfm — verified core

The logic of the rfm terminal file manager, written in Verus with its
contracts proved: `src/` is the library, `app/` the filesystem, terminal and
process side around it, `tests/` its tests.

## src/

- `commands` — what a command of normal mode does to the manager's own
  state (tabs, split view, jump marks, clipboard, switches) and which panel
  and filesystem work it asks for.
- `directory` — directory panels: entries, display order, hidden files,
  marks, live search, cursor movement; marked paths across panels; the
  rows a listing draws (scroll, search matches, where a new or renamed
  entry goes).
- `nav_history` — the way back up and back down a Miller-columns stack.
- `highlight` — how a listing entry is laid out and where the search match
  is drawn.
- `input`, `mode`, `decision_flow`, `trash_view`, `console`, `dir_console`
  — key input and the modal modes (search, rename, create, decision flows,
  the trash view, the zoxide and `cd` consoles, and where the `cd`
  console draws its parts).
- `bulk_rename` — reviewing a list of names edited in a text editor and
  planning the renames.
- `undo` — the undo and redo stacks, undoing last change first and
  stopping at the first failure.
- `rate_limiter`, `panel_state` — throttling content requests and
  recognising stale answers; the column layout.
- `graphics`, `sixel` — choosing the terminal graphics protocol and the
  sixel encoder.
- `half_block` — the dependency-free image preview: the thumbnail (rebuilt
  only for a new size), the `▄` cells pairing two pixels each, and the
  info rows below.
- `raster_cache`, `thumb_cache` — preview cache names, stale siblings and
  the startup eviction order.
- `preview`, `pdf_guard` — bounds on what untrusted previews may cost
  (PDF streams, 7z headers, svgz inflation), which preview a MIME type
  gets, and small preview helpers.
- `tabs` — the tab bar and split view, routing loaded content to the tab
  that owns the panel, jump marks.
- `text`, `digits`, `util` — text and number helpers, collision-free
  destinations, command templates.

Where the library depends on the outside world (whether a path is a
directory, what a directory lists, whether a target exists), it takes the
answers through functions handed in, and its contracts hold for whatever
answers come back.

## app/

Key conversion from crossterm, a session that runs commands on a
directory panel and prints its listing, printing the half-block image
preview, the filesystem and process work that commands ask for, undo and redo applied to the filesystem and the trash,
copy/move/rename, the preview cache on disk, the optional PDF image tier (page 1 through
pdftoppm or mutool under a deadline, cached), the rate-limiter
loop, the consoles' filesystem and zoxide queries, bulk renaming through
`$EDITOR`, and the environment probe for the graphics protocol.

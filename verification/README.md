# zellij_server

The server-side logic of a terminal multiplexer, verified with Verus.

`src/` is the verified library:

- `host_query`: the byte forms of the queries a pane forwards to the host
  terminal, and of the empty replies to them.
- `search`, `row`, `selection`, `position`: searching the rows of a pane
  for a needle (case, whole-word and wrap options), the matches as
  selections, and selection arithmetic.
- `pane_resizer`, `pane_size`, `pane_id`: turning the spans a layout solver
  produced into whole cells that fill every strip of the screen.
- `pty_writer`: the per-terminal queues of bytes waiting to be written to a
  terminal's stdin.
- `pinned_executor`: which worker thread runs which plugin, how the pool
  grows and shrinks.
- `terminal_pane`: a terminal pane's geometry, titles, held-command state,
  how keyboard input is adjusted to what its terminal expects, what of its
  pty output is fed to the grid and what waits while a forward to the host
  is under way, and when its frame is drawn again.
- `os_input_output`, `os_input_output_unix`: building the command a pane
  runs, held-back resizes, the pty table and the watch over an exiting
  command.
- `encoding`: decimal and UTF-8 encodings used by the above.

Each module states its contracts over spec functions and proves the laws
that tie its operations together (for instance that registering and then
unregistering a plugin restores the executor, or that a corrected strip of
the layout fills its space).

`app/` is the unverified shell around the library: threads, channels, the
pty system calls, the async runtime, the floating-point layout solver and
the loop that feeds pty output through the kitty interceptor and parser.

`tests/` runs the library on concrete values.

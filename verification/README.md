# tmux-bridge

A `tmux`-compatible command line for the `cmux` terminal multiplexer. Tools that drive
tmux (split a pane, type keys into it, list panes, arrange a layout) call this program as
`tmux`; it works out what they ask for and carries it out with `cmux`.

The decisions live in a library whose behaviour is stated in Verus contracts and proved:

- `src/cli.rs`: global flags, the subcommand, and `-t` targets (first or last given).
- `src/refs.rs`: surface, workspace and pane-id references; percentages.
- `src/scan.rs`: reading values out of JSON replies by scanning their text.
- `src/commands.rs`: argument parsing and the planned cmux calls of each subcommand.
- `src/standalone.rs`: the variant that scans JSON text and leaves layouts alone.
- `src/bridge.rs`: the variant that works on typed replies, sizes panes and arranges layouts.
- `src/layout.rs`: the `main-vertical` layout: ordering surfaces by spawn order, the
  moves that rebuild the stack, and the divider positions that even out its heights.
- `src/text.rs`: the text operations the rest is built on.

`app/` is the program around it: it runs `cmux`, reads its JSON with serde, waits,
prints, and moves dividers, whose positions `cmux` reports as floating point numbers.
The variant in `src/standalone.rs` runs when the program's name ends in `-scan`.

`send-keys` treats a key that holds a launch marker specially: it first clears the input
line with Ctrl+E Ctrl+U, then types the key with its `env` prefix widened. The library
takes the marker as an argument; the program reads it from the environment variable
`TMUX_BRIDGE_LAUNCH_MARKER`, and without it no key is treated as a launch line.

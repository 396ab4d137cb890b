# Tiled panes

The panes that tile a tab of a terminal multiplexer: which panes there are and where, which client
looks at which of them, which one is fullscreen, how they are framed, resized, moved, split and
closed, and what has to be drawn.

The library in `src/` is verified with Verus. It does not compute geometries itself: a layout engine
does, behind the trait `PaneHost`, and nothing is assumed of its answers. Contracts say what becomes
of the panes for whatever it answers. What has to happen outside (a program told of its room, a
focus event) is queued as an `Action`; what has to be drawn is a `RenderPlan`.

- `geometry`, `pane`, `actions`: plain data.
- `assoc`, `pane_map`, `active_panes`: the maps that panes and clients are kept in.
- `model`: the state as a mathematical value; `tiled_panes`: the state itself.
- `host`: the layout engine, and predicates that say what it may answer.
- `frames`, `fullscreen`, `focus`, `navigation`, `moving`, `adding`, `splitting`, `removal`,
  `resizing`, `stacked_resize`, `lookups`, `render`: the operations.
- `laws`: what holds of the operations taken together.

`app/` is ordinary Rust around the library: it makes a host of a layout engine and a clock, performs
actions, draws plans, tells what is known of the panes, and makes the calls that need certain panes
to be there.

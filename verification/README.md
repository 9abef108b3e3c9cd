# braken_viz

Visualization of L-system generations, and the state machines of a browser
frontend that displays them. `src/` is verified with Verus; `app/` is the
browser page around it.

- Turtles: `turtle_2d`, `turtle_3d` interpret modules; `walk` goes through
  branches; `stream_2d`, `stream_3d` emit bounded batches; `transform`,
  `device`, `cuda` and `streamer` do the same through a device, which records
  what it is asked; `agreement` says where it and the CPU agree. Callers are
  asked and handed things through `outlet`, which records both; `hook` records
  what a cancellation hook answers.
- `inspector`, `preview`, `frequency` describe a generation in text.
- Targets: `svg`, `tui`, `spatial`, with `stroke`, `palette`, `shading` and
  `edges` behind them.
- Display: `arrival`, `canvas`, `display`, `depth`, `spatial_refinement`,
  `morph`, `svg_encoder`, `spatial_svg`, `svg_order`.
- The application: `session`, `update`, `frames`, `painted`, `page`, `startup`, `chance`,
  `status`, `controls`, `work`, `model`, `tuning`, `worker`; `staying` says what
  stays on screen.

Numbers are held as bit patterns. What has to be rounded is asked of a
calculator that the caller hands in, and contracts speak of its answers.

# devix_core

The engine of the devix terminal editor, written in Verus: every
function in `src/` carries a contract and is proved against it.

Layout of `src/`:

- `geom`, `widgets/` — rects, collection layouts and their scroll math,
  popup geometry, visible-line windows, gutters and style runs.
- `editor/` — the layout tree and its mutations (with laws in
  `editor/tree/laws.rs`), the focus chain, the pane registry, the render
  cache, the cursor model and the id-minting document and cursor stores,
  the editor's tab / split / sidebar operations, hit-testing,
  directional focus and the layout pass.
- `commands/` — the command registry, the keymap, the default keymap,
  manifest command and keymap contributions, user keymap overrides, the
  command types.
- `input` — key codes, chords, the chord grammar and wire chords.
- `plugin`, `plugin/install` — callback paths, engine versions, how a
  plugin pane paints, scrolls and answers events, and the install plan
  of a plugin's contributions and its command steps.
- `settings`, `theme_store`, `bus`, `supervise` — the settings store,
  theme store, pulse-bus book-keeping and restart budget.

`app/` holds the host side: terminal and screen type conversions,
delivery of setting changes to subscribers, configuration paths and
files, the supervising thread, and error types with `Display`. `tests/` exercises the library from outside.

## What is not here

- The Lua plugin runtime and host (worker thread, async channels, the
  Lua API table, Lua values into views) rest on mlua and tokio, which
  are not among this crate's dependencies. What they decide is in
  `plugin` and `plugin/install`: callback paths, name sanitising, engine and
  capability checks, the install plan and its command steps, pane
  painting and event plans, slot names, the restart budget.
- The pulse bus's typed pulses, filters and cross-thread queue belong
  to the protocol crate and a channel crate, neither a dependency here;
  `bus` keeps the subscription table and overflow diagnostics, and the
  editor and settings store queue their announcements for the host to
  deliver (`app/bus.rs` delivers setting changes).
- Text buffers, documents and highlighting rest on the rope and syntax
  crates, which are not dependencies here; the layout pass takes a
  cursor's caret line and line count from the caller, and the visible-line
  pieces in `widgets/lines` take the text as input.
- The split geometry that turns the layout tree into leaf rects, and the
  tab strip's own layout and scroll-into-view, are not part of this
  crate: the layout pass takes the leaf rects and the strip hits from
  the caller and leaves the strip scroll alone.
- Ids come from per-store counters (a verified program holds no global
  state): document and cursor ids are unique and increasing within
  their store, frame ids within an editor.

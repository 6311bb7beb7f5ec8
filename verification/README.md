# pw_graph

The graph model and editing logic of a patchbay for PipeWire (and, through
other backends, Windows audio and MIDI), as a library whose behaviour is
stated in Verus contracts and proved.

## Layout

- `src/` — the verified library.
  - `graph`, `ids`, `id_map`: nodes, ports and links kept in id order, the
    rules a link must pass, stable port keys, backend id namespaces.
  - `driver`, `demo`: the driver contract every backend meets, the stable-key
    connect/disconnect helpers, effect endpoint resolution, and the
    deterministic in-memory backend (links, suppression, effect nodes,
    audio controls).
  - `command/`: undoable graph commands (connect, disconnect, reroute,
    grouped forms) with rollback, and the undo/redo stack.
  - `patchbay`: saved connection sets and their activation (exclusive and
    auto-disconnect modes).
  - `patchbay_xml`: the qpwgraph XML file shape, written and read back by
    node and port names, with escaping of attribute values.
  - `registry`: the PipeWire registry mirror (globals recorded from their
    properties, withdrawn by id) and the graph built from it.
  - `layout`: the default arrangement of nodes in bands and columns.
  - `windows_routing`: the routes owned on Windows and the capture and
    render devices they hold open, opened for the first route and closed
    after the last.
  - `metering` (which nodes to meter, and which meter streams to open
    or release), `router/`, `effects`, `relay`, `pipewire`, `windows_*`,
    `i18n`, `config`, `text`: option parsing, diagnostics counters, PCM
    geometry, effect export tables, backend-specific identity and naming.
- `tests/` — tests run against the compiled library.
- `app/` — what the library does not hold: files, environment and clock,
  serde copies of library types, and floating-point audio arithmetic
  (effect processing, resampling, channel remapping).

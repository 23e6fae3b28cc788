# stead (verified core)

Whole-home localized mapping: a journal-backed site model of zones,
features, devices and anchors, with the region grammar for spatial
queries, live-event ingestion and the Home Assistant registry sync.

- `src/` — the library, verified with Verus. Coordinates are integer
  millimetres in the site frame; values the model only carries (an
  observation's value, an anchor's payload) are kept as JSON text.
- `app/` — the `stead` program: journal files, the HTTP API, the MCP
  server on stdio, MQTT ingestion and the Home Assistant websocket
  client. It converts the JSON wire forms (metres) to and from the
  library's types.
- `tests/` — tests of the library.

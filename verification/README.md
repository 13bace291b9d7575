# ferrowl

The verified core of the ferrowl terminal simulator for Modbus register memory and OCPP
charging stations / management systems.

- `src/memory` — register ranges, typed register values and memory slices (grow, write,
  read), with the write-then-read laws.
- `src/text` — trimming, decimal rendering and integer parsing as `str` does them.
- `src/view`, `src/registry` — first-token command dispatch and unique tab names.
- `src/json` — the JSON values OCPP payloads are read from and built as.
- `src/ocpp` — scopes, RFID accept-lists and their persistence, message ids and the
  bounded message log, the Gregorian calendar behind RFC3339 timestamps, the security
  section of the setup dialog, the per-version tables, payloads and command tables of the
  charging-station and CSMS views, and the decisions those views take: the stop/restart
  lifecycle, how a confirmed setup is applied, the Heartbeat and MeterValues cadence, which
  messages are new for the log, a connector's transaction bookkeeping, and how connection
  events, routed stops and fetched configuration rows update the CSMS entry table.
- `src/lua`, `src/statics`, `src/session` — the outcome of a Lua script run; the named
  constants a script reads by type; which session scripts the simulation runs.
- `app/` — serde forms of the persisted entries, `serde_json` conversion, the shared lock,
  the clock and the file-system check.

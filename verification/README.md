# ptah (verified core)

The rules of ptah — a Luau-scripted orchestrator for ACP agents — as a
Verus-verified library, with a thin I/O shell around it.

- `src/render/` — the terminal renderer: timestamped, attributed lines,
  per-session colors, streamed chunks, quiet/verbose/no-color gating, and
  the line formats (prompt previews, exec lines, durations, ask prose).
- `src/record.rs` — the run record: run ids, the record location, the
  `run.json` model and its bookkeeping (ask ordinals, the first write
  failure disabling the record, failures taken once).
- `src/package/` — package management: manifest skeleton and edits,
  dependency entries, the `.luaurc` alias sync, project discovery, pesde's
  naming rules, and the install driver's decisions (lockfile freshness,
  default aliases).
- `src/luau/` — the scripting runtime's rules: module navigation for
  `require`, the `ptah.*` bindings' argument checks and outcomes, and the
  end-of-run outcome.
- `src/paths.rs`, `src/text.rs`, `src/events.rs` — lexical paths, text
  helpers and the session events every sink consumes.
- `app/` — the I/O shell: writers, files, the pesde engine, mlua's
  `Require` trait.

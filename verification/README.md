# contextdock

The verified core of ContextDock, a desktop launcher that keeps a small
`.context-bridge/` folder of notes in each project and opens OpenCode on a
prompt built from those notes and the project's git status.

- `src/` — the library, verified with Verus: project scanning and detection
  (`projects`), git output parsing (`git`), the launch prompt (`prompt`), its
  history listing (`history`), shell and terminal quoting (`shell`), settings
  paths (`settings`), and the text and ordering primitives they rest on
  (`text`, `order`).
- `tests/` — tests of the library on concrete values.
- `app/` — the Tauri commands: file system, processes and serde around the
  library's functions.

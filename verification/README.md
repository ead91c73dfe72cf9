# kimaitray

The decision logic of a desktop tray companion for the Kimai time tracker,
written in Verus: every function under `src/` carries a contract that Verus
proves, but for one trusted wrapper, `text::push_char`, whose contract (the
text grows by the pushed character) is taken on trust from std's
`String::push`. The properties that span several calls are stated and proved
as public proof functions (`lemma_*`).

## Layout

- `src/text.rs`: string helpers and their lemmas (decimal numbers, splitting,
  byte lengths).
- `src/json.rs`: a model of JSON values with ordered object members, lookups,
  inserts and removals.
- `src/store.rs`: the settings store (a sorted key/value map with a type
  invariant), scoped and array mutations, settings patches with their limits,
  favourites that move between connections, the legacy store migration, and
  the rollback of a failed save.
- `src/idle.rs`, `src/idle_stats.rs`: reading idle time from helper programs'
  output, and the idle-period history with its pruning window.
- `src/kde.rs`: the KWin window rule that keeps the popup in place on Plasma,
  as a step function from the current configuration to the next write.
- `src/kconfig_lock.rs`: the marker of the KDE configuration lock and when a
  stale one may be removed.
- `src/platform.rs`, `src/startup.rs`: platform capabilities and start-up
  decisions.
- `src/tray.rs`: tray labels, icons and colours, click handling, popup
  placement on monitors and focus handling.
- `tests/`: tests on concrete values, run against the compiled library.
- `app/`: the parts around the library that are not the tray shell itself:
  process and file I/O, the idle probe loop, serde copies of the library's
  types, the KDE rule driver over glib's key files, icon drawing and popup
  geometry in floating point. The Tauri commands, the tray icon, the menu and
  the window handling are not here: they need Tauri and GTK, which this
  build cannot link. Their decisions are the functions of `src/tray.rs` and
  `src/startup.rs`.

# enginesim

The verified core of an engine simulator's data handling, written in Verus.

`src/` is the library; every function in it carries a contract that Verus
proves:

- `path_text`: lexical handling of `/`-separated paths (file name, parent,
  stem, extension, join, components and whether two paths have the same
  components), agreeing with `std::path` on Unix paths.
- `path_order`: the order of paths, component by component, as `std::path`
  orders them.
- `engine_loader`, `catalog_order`: which files in an engine directory are
  engine definitions, the catalog order they are listed in (label, then path;
  ties keep listing order), where an engine's sibling `.handling.json` file
  lives, and which source a loaded value came from.
- `tuning`: the editing session over a committed and a draft configuration.
- `telemetry`: the bounded rolling window of recent telemetry.
- `simulation`, `single_cylinder`: the stage order of an engine step and the
  transfer slots of the cylinder's external boundaries.
- `render_audio`: the byte layout of a 16-bit mono WAV file and the circular
  search for the nearest populated angle bin.
- `render_args`: the exhaust renderer's command-line scan and its unsigned
  counts.
- `engine_tui`, `test_harness`, `valve_lift_designer`, `tuning_gui`:
  command-line parsing, test-profile validation and status text.

`app/` is ordinary Rust around the library: file-system access, JSON through
serde, and the floating-point configuration types of the simulator, which the
library does not hold. `tests/` exercises the library from outside.

Paths are held as text, so a path that is not valid UTF-8 cannot be named:
`app/` leaves files with such names out of an engine listing (they are never
engine definitions) and reports other such paths as errors.

The programs look for engine files in `data/engines` below the app crate's
directory (`gn250.json` is the default engine); no engine files ship here.

# h7cad

The core of a 2D/3D CAD desktop application, written in Verus: every
function in `src/` carries a `requires` / `ensures` contract that Verus
proves, and the laws that span several calls (a saved preference file loads
back, a swap done twice is undone, a stored override reads back, …) are
stated and proved as public proof functions.

## Layout

- `src/` — the verified library.
  - `command_line`: the command input, its bounded history and command recall.
  - `recent`, `studio`: the recent-files list, its limit and its file format.
  - `plot`: the Plot dialog's state and its persisted `key=value` preferences.
  - `layout`: renaming, deleting and reordering paper-space layouts on a drawing.
  - `dim_override`: per-object dimension-variable overrides in XDATA.
  - `storm_sewer`, `storm_commands`: storm-sewer structures and pipes carried in
    XDATA, the network they describe, and the commands that place them.
  - `grid`, `interaction`: the cell grid behind the spatial broad phase and the
    candidate sets handed to snapping and selection.
  - `annotative`, `annotation_context`: annotative-object detection, clearing an
    entity's annotation context, and finding the root named-objects dictionary.
  - `properties`, `color`, `tools`, `plugin`, `demo_plugin`, …: Properties panel
    rows, ACI colour strings and the colour list, ribbon tools and the built-in
    plugin host.
  - `tiles`: which Model tile stays active when a tile is closed.
  - `rotate`, `ordinate_dim`: the ribbon tools and the steps of the ROTATE and
    DIMORDINATE commands.
  - `text`, `seqs`: character-level helpers (trimming, lines, decimal numbers)
    and sequence filtering shared by the rest.
- `tests/` — tests run against the compiled library.
- `app/` — what stays outside the verified core: configuration files and
  their I/O, conversions from the drawing library's types, and the floating
  point geometry (units, tiled viewports, world-to-cell mapping, solid export,
  the angles and leader geometry of ROTATE and DIMORDINATE).

Reals that pass through the verified code (XDATA values, storm-sewer data) are
carried as IEEE-754 bit patterns; arithmetic on them happens in `app/`.

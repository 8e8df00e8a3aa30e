# ivac

The decision logic of a CAM program that turns drawings into g-code for CNC
mills, lasers, plasma cutters and drag knives, written in Verus with its
contracts proved.

## Layout

- `src/` — the verified library.
  - `gcode/` — the post-processors (LinuxCNC, GRBL, HPGL) with their modal
    bookkeeping and line deduplication, the output sink (buffered or
    streamed write-through), and the decisions of the preview interpreter.
  - `pipeline/` — op scheduling: tool-change counting and spindle warm-up,
    grouping ops by tool, the per-op emit sequence (group marker, state
    reset, tool-change envelope, checkpoint, body), the tool-change
    envelope, program-only ops (pause,
    cycle marker, raw g-code blocks with variable expansion and per-line
    classification), group markers, warnings and structured errors.
  - `cam/` — raster link selection and Bayer indices, waterline region
    nesting, cut-direction winding, surface deviation classes.
  - `i18n.rs`, `params.rs`, `errors.rs`, `text.rs`, `chars.rs` — localized
    CLI strings, sorted parameter maps, structured errors, font
    classification, and the string model the contracts are stated over.
- `tests/` — tests of the library, run against the compiled crate.
- `app/` — the command-line front end: argument handling, file and stream
  I/O, the floating-point coordinate emission and preview interpretation,
  and the JSON wire types.

Run `verus` on `src/lib.rs` to check the proofs.

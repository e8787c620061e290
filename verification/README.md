# triangulum

The rules behind a planet viewer: a world of one-metre columns on a cube
sphere, its water and trees, the tiles and chunks that are streamed and drawn,
and the map of photos taken in it. The rules are verified with Verus; what
surrounds them (drawing, windows, files, floating-point geometry) is ordinary
Rust.

## Layout

- `src/` is the library. Every item is verified.
  - Columns and blocks: `body`, `edits`, `column`, `readings`, `material`,
    `tree`, `forest`, `raycast`.
  - Chunks: `chunk`, `grid`, `chunk_mesh`, `foliage`, `chunk_stream`.
  - Water: `rivers_file`, `reaches`, `courses`, `buckets`, `lakes`,
    `hydrology`, `sampling`.
  - Tiles: `tile`, `tile_mesh`, `tile_stream`, `tile_frame`.
  - Frames and captures: `cache`, `frame`, `ranking`, `synoptic`, `clock`,
    `capture`, `overlay`, `avatar`.
  - Photos and the map: `sidecar`, `photo`, `photo_map`, `map_clicks`,
    `destination`, `map_plan`, `trash`, `picture`, `contours`.
  - Common ground: `measure`, `narrowing`, `hash`, `table`, `order`, `text`.
- `tests/` runs the library on concrete values.
- `app/` draws and reads: GPU, windows, files, and the geometry that needs
  floating point. It asks the library for every decision.

## Measures

The library holds no floating-point number. A quantity that is only compared
is passed as a `Measure`, the signed magnitude of its stored bits, which orders
as the quantity does; a stored value that is no number has no place in that
order, and comparisons with it are false. One that is only carried is passed as its bits. Where a
rule needs a quantity computed along the way, the function takes a closure, and
its contract says what comes out for whatever the closure answers.

## Trust

Proofs rest on what the doc comments of the outside calls say: reading and
writing JSON (`sidecar`), reading and writing PNG, and one colour conversion
(`picture`).

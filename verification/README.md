# slice_player

The logic of SlicePlayer, a loop slicer and sample player, as a Rust library
whose behaviour is stated in `requires`/`ensures` contracts and proved with
Verus.

## Layout

- `src/` — the verified library.
  - `layout` — the slice layout of a loop (grid, onsets, decoded REX slices)
    and its editing operations: insert, move, remove, renote, effect copy and
    reset. Continuous per-slice settings travel through it as type parameters.
  - `params` — grid divisions, filter, retrigger and delay settings, their
    labels and preset codes.
  - `voices`, `transport` — which slice a note plays and which voices it cuts
    off; which frames the loop preview and the file audition play per block;
    the echo line's indices.
  - `signal` — zero-crossing search and marker snapping.
  - `export`, `wav`, `archive`, `midi`, `text` — the exported files: slice
    regions, sliced WAV with cue/acid/label chunks, the Bitwig multisample
    archive (ZIP via the `zip` crate) with its XML index, and the MIDI clip
    (via `midly`).
  - `browser`, `settings`, `rex`, `frames` — file browser listing rules,
    favourite folders, REX2 decoder data, and stereo buffer rearrangement.
- `tests/` — tests of the library on concrete values.
- `app/` — the host side: audio decoding (`symphonia`), the float audio
  engine and effects, file export to disk, presets and settings in JSON
  (`serde_json`), and the VelociLoops C bindings.

# taphle

The host-side logic of the tapHLE iPhone OS emulator, as a Verus library:
each function carries a `requires`/`ensures` contract that Verus proves.

## Layout

- `src/` — the verified library.
  - `bundle`, `app_bundle`, `plist_model`: app bundles and their `Info.plist`.
  - `audio/`: AIFF-C (IMA4), CAF and whole-file decoding through `symphonia`,
    and the packetized MP3 stream.
  - `audio_toolbox`, `core_animation`, `core_foundation`, `core_graphics`,
    `foundation`: the state and decisions of the emulated frameworks.
  - `openfeint`, `of_dashboard`, `of_archive`: the offline OpenFeint
    replacement and its dashboard.
  - `corrupt`, `mem`: the memory corruption engine over a model of the
    guest heap.
  - `text`, `bytes`: string and byte helpers with specifications.
- `tests/` — tests of the library.
- `app/` — what stays outside the proofs: file-system access and the
  geometry that works in floating point.

Calls into `plist`, `symphonia`, `zip` and `encoding_rs` go through small
trusted wrappers whose doc comments say what their contracts claim.

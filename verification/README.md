# aura

The logic of a wallpaper program: which wallpaper comes next, what the settings window writes to
the configuration file, what is searched on Wallhaven, what the picker shows, and what the displays
are called. The functions of the library carry contracts that Verus proves.

- `src/rotation.rs`: the cycle through the pool of wallpapers.
- `src/settings/`: the settings form, the configuration document behind it, and what saving keeps
  and stores (`laws.rs`, `readback.rs`).
- `src/sources/`: wallpaper candidates and the Wallhaven search.
- `src/wallpaper/`: backends for the desktop and the decisions of the Windows one.
- `src/wallpaper_picker/`: the grid, the scan, the controls and the fetch panel of the picker.
- `src/text.rs`, `src/config.rs`, `src/state.rs`: what the others share.
- `app/`: files, network, threads, windows and the calls into the desktop, around the library.
- `tests/`: the library at work, with the outside crates it calls.

What the outside crates do is stated where they are called, in items marked
`#[verifier::external_body]` or `assume_specification`; their doc comments say what is taken for
granted.

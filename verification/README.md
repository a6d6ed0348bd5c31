# bava

The verified core of bava, a music visualizer driven by a CAVA-style spectrum
analyser, and a command-line front end around it.

- `src/` — the library, verified with Verus:
  - `config.rs` — profile names and files, the `[audio]`/`[gui]` sections,
    command-line override rules, the clamps applied before settings reach
    the runtime and the startup decisions of loading the config file;
  - `store.rs` — the browser config store (`localStorage` keyed by paths,
    with its per-origin quota);
  - `query.rs` — a page query string as a command line;
  - `keys.rs`, `color.rs`, `text.rs` — key names, hex colors, string helpers;
  - `dsp.rs` — analyser parameter checks, buffer geometry, input accounting;
  - `capture.rs` — capture bookkeeping and device-following decisions;
  - `record.rs` — offline recording arithmetic and the drive-loop state machine;
  - `vis.rs`, `mesh.rs` — drawing-mode logic, bar layout indices, mesh indices;
  - `now_playing.rs` — album-art sources, refresh decisions, art decoding;
  - `profiling.rs` — profiler scope bookkeeping and the periodic report's
    rows (merged by scope name, slowest first).
- `tests/` — tests of the library.
- `app/` — the `bava` program: command line, config files on disk, audio
  decoding, the floating-point analyser, a software bar renderer and the
  ffmpeg encoder for `--input song.mp3 --out video.mp4`.

# ROM Downloader

A ROM downloader for the TrimUI Smart Pro (TG5040): browse Internet Archive
items and download games to the SD card, with a download queue (pause,
resume, retry, at most two downloads at a time), ZIP extraction for bin/cue
games, a catalog cache and a library of installed games.

## Layout

- `src/` — the `rom_downloader` library, verified with Verus: configuration
  rules, platform directories, the library of games, the download queue and
  its saved form, the decisions on Internet Archive answers, archive
  extraction plans, the catalog cache's paths and age, input repeat, and the
  state of every screen.
- `app/` — the program around it: SDL2 window, drawing and input devices,
  files (YAML through serde), network requests (reqwest and tokio), ZIP
  reading, and the threads.
- `tests/` — tests of the library.

The program reads `sources.yaml` (see the configuration format in the
library's `config` module) and expects its images and font in an `assets`
directory next to the executable: `background.png`, `sprite-crab-front.png`,
`sprite-crab-back.png`, `sprite-cart.png` and `SourceCodePro-SemiBold.ttf`.

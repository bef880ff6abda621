# downloader_core

The verified core of a desktop front end for yt-dlp: it builds yt-dlp and
FFmpeg command lines, follows yt-dlp's output while a download runs, reads
media metadata from yt-dlp's JSON dump, orders playlist tracks and subtitle
languages, and keeps track of running and cancelled downloads.

Layout:

- `src/` — the library, verified with Verus. Every public function states
  its result over spec functions (`text`, `paths`, `args`, `metadata`,
  `monitor`, ...); the `law_*` proof functions state properties that relate
  several calls or hold for all inputs.
- `tests/` — ordinary Rust tests of the library on concrete values.
- `app/` — the Tauri application around the library: commands, process
  spawning, file-system access, JSON parsing with serde_json, and the
  serializable copies of the library's data types.

# kukufm-dl

A command-line downloader for shows published as HLS playlists, split in two:

- `src/` is the library, verified with Verus: show-URL parsing, the paging through an
  episode listing with its range rules, the retry policy of API requests, cookie-string
  parsing and the choice of cookie source, following a master playlist to its media
  segments (over `m3u8-rs`), file and directory naming, the ffmpeg concat list, the tags
  written to each file, argument checks, and human-readable sizes.
- `app/` is the program around it: argument parsing, HTTP requests, JSON decoding,
  progress bars, concurrency, ffmpeg and tag writing.

`tests/` exercises the library on concrete values.

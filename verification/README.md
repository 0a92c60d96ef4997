# picarto_vod_downloader

A downloader for Picarto VODs: it follows a VOD's HLS playlists to its
segments, downloads them into a temporary directory and joins them with
FFmpeg.

- `src/` is the library, verified with Verus: login record and authorization
  query; the channel listing read with `serde_json` into the library's own JSON
  type and the lookup of a video in it (white space around the id ignored, as `str::trim` trims it); HLS
  playlists read with `m3u8-rs` and the step from a master playlist to its
  media playlist; segment URLs (through `url`) and zero-padded segment file
  names; the FFmpeg concat list, sorted by name, and the FFmpeg arguments.
  Among the laws proved there: segment files are distinct and, for fewer
  than 10^10 segments, sort in segment order, so the concat list joins the
  segments in stream order whatever order the directory lists them in.
- `app/` is the program around it: command line, logging, HTTP requests,
  files, threads and the FFmpeg process.
- `tests/` runs the library on concrete values.

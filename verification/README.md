# browsectl

A minimal Chromium DevTools Protocol client and its `chromiumctl` command
line, with the logic proved correct by Verus.

- `src/` is the verified library: argument scanning and each subcommand's
  options, `--max-age` durations and `--files` lists, the session records
  and which of them `reap` cleans up, the parsers of what `tasklist`, `ps`,
  PowerShell and `adb` print, the browser and `adb` search lists, the
  DevTools command texts and what each incoming WebSocket frame means, the
  JavaScript snippets run in the page (with caller text embedded as JSON
  string literals that provably read back as that text), and what `eval`
  and `wait` report. Calls into `serde_json` and `data-encoding` stand
  behind small trusted wrappers whose contracts are stated in their doc
  comments.
- `app/` is the program around it: process spawning, HTTP and WebSocket
  I/O, the session directory on disk, timing loops, and the one command
  (`click`) whose arithmetic is on floating-point coordinates.
- `tests/` runs the library on concrete values.

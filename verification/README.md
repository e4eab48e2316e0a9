# nca

The parts of the `nca` command line assistant that compute, written in Rust and
verified with Verus.

- `src/` is the library. Every function states in `requires` and `ensures` what
  it takes and what it gives, over spec functions on sequences of characters and
  bytes.
  - `composer`, `composer_line`: editing the input buffer, `@` mentions and
    their completion, and the buffer drawn as styled rows.
  - `slash`, `palette`, `branch`: the slash panel, the command palette and the
    branch picker.
  - `image_attach`: images staged under a session's attachment directory.
  - `path`: paths of the platform, as the standard library joins them and takes
    them apart.
  - `tool`, `bash`, `bash_tool`, `pty`: the bash tools, what they run and what
    they answer.
  - `ipc`, `bridge`: a session's endpoint, its lines, and where its events go.
  - `debug_log`: lines of the timing log.
  - `text`: the text functions and specifications that the rest is built on.
- `tests/` runs the library.
- `app/` is the ordinary Rust around it: styles, files, processes, sockets and
  the clipboard.

Work that waits for the outside world is split into steps: a function takes the
step that was done and what came of it, and says which step is next. The code in
`app/` does the steps.

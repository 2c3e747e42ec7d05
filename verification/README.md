# tinyharness-ui

Terminal user-interface components for a coding agent, written in Verus:
the functions in `src/` carry contracts that Verus proves, except four small
trusted wrappers whose contracts are taken on trust: `string_push`
(`String::push`) and `to_lower` (`str::to_lowercase`) in `src/text.rs`, and
`char_display_width` and `str_display_width` (the `unicode-width` crate) in
`src/unicode.rs`.

- `src/tui/` — the full-screen interface: cells and the screen buffer with
  diff-based redrawing, terminal mode switching, input events, the widgets
  (conversation, input bar, sidebar file browser, tool output, spinner,
  status bar) and the application state machine that routes input and
  agent events to them.
- `src/ui/` — line-oriented helpers: the line diff and the previews built
  on it, the tool confirmation prompt, slash-command completion and hints.
- `src/output.rs`, `src/style.rs`, `src/text.rs`, `src/unicode.rs` — styled
  output, ANSI styles, text utilities and display widths.
- `app/` — what runs outside the verifier: the run loop (input and resize
  threads, frames flushed by diff), the standard streams, the file system,
  the terminal device, the line editor's hooks, and the figures formatted
  with floating point. The terminal-input parser is supplied by the program
  that embeds the interface.
- `tests/` — tests of the library.

# dsh-desktop

The logic of a desktop client for coding agents: the state of its window, what
it shows, and the hook service behind it. Every function of the library states
what it computes, and Verus proves it.

## Layout

- `src/shell` – the state of the window, the frames of the host, the status bar
- `src/ask.rs`, `src/attachments.rs`, `src/subagents.rs`, `src/trajectory.rs`,
  `src/sessions.rs`, `src/search.rs`, `src/settings.rs` – the features
- `src/reference` – `@` mentions of files and sessions in a prompt
- `src/toolcard` – the cards of tool calls
- `src/markdown.rs`, `src/codeblock.rs`, `src/highlight.rs`, `src/stream.rs` –
  rendered texts
- `src/hooks` – the configuration, the running and the merging of hooks
- `src/example_tool.rs` – the component that shows how tools are written
- `src/theme.rs`, `src/icons.rs`, `src/svg_path.rs`, `src/state_dot.rs`,
  `src/viewer.rs` –
  appearance
- `src/text.rs`, `src/scan.rs`, `src/decimal.rs`, `src/binary64.rs`,
  `src/json.rs`, `src/table.rs`, `src/order.rs`, `src/cache.rs` – what the rest
  is built on
- `app` – files, clocks, JSON texts, processes and floating-point geometry
- `tests` – the library from outside

## Model

Texts are sequences of characters; byte offsets are lengths of UTF-8 encodings.
A type with texts inside has a view that holds sequences in their place, and
contracts speak of views. A function that needs something from outside takes it
as an argument: what a process answered, what time it is, where the list is
scrolled to.

Outside crates are called through small functions whose contracts are not
proved: `base64`, `chrono`, `image`, `pulldown-cmark`, `serde_json` and
`syntect`. Their doc comments say what is taken for granted.

# rendermd_core

The markdown pipeline of the RenderMD viewer and editor, written in Verus.
The functions in `src/` carry contracts that Verus proves, except the few
trusted wrappers around std, chrono, percent-encoding, pulldown-cmark and
csv (marked `#[verifier::external_body]`), whose contracts are taken on
trust and say only what those crates document.

## Layout

- `src/tables/` — GFM tables: the model (`model.rs`), reading tables out of
  a document (`parse.rs`), writing them back in the compact, pretty or
  preserved layout and the structural edits (`serialize.rs`), the cell
  attributes and editor script of the preview (`render.rs`), smart paste of
  TSV, CSV, HTML and GFM (`paste.rs`), and the laws that tie the operations
  together (`laws.rs`).
- `src/diff.rs` — changed lines, block and word diffs, and the change bars
  of a reloaded document.
- `src/preprocess.rs`, `src/emoji.rs` — alerts, Mermaid blocks and emoji
  shortcodes, before rendering.
- `src/render.rs`, `src/template.rs` — HTML escaping and the preview page.
- `src/images.rs`, `src/image_edits.rs` — image references, their markup,
  offsets between bytes, characters and UTF-16 units, and the edits behind
  the preview's image gestures.
- `src/history.rs` — `git log` output, commit dates and the history rail.
- `src/theme.rs` — the preview palette.
- `src/requests.rs`, `src/session.rs`, `src/links.rs` — what the editor's
  requests decide: the table channel, the session state around the open
  document, and the preview's file requests and link clicks.
- `src/text.rs` — character-level primitives shared by all of the above.
- `app/` — ordinary Rust around the library: the comrak renderer, git and
  file access, settings and theme files, and a shell that runs the
  editor's commands on the session.
- `tests/` — tests of the library on concrete values.

Calls into outside crates (pulldown-cmark, csv, chrono, percent-encoding)
go through small trusted wrappers whose contracts state what those crates
document; everything around them is verified.

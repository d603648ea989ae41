# odin_ssg

A static site generator for Markdown course curricula (paths → courses →
sections → lessons), with the logic that builds the site written in Verus
and proved against its contracts.

## Layout

- `src/` — the verified library.
  - `models.rs`, `manifest.rs` — the curriculum tree and the manifest schema.
  - `parser.rs` — building the tree from manifests and lesson sources, themes,
    the search index; `parser/navigation.rs` — prev/next links in the
    order by position; `parser/markdown.rs` — Markdown rendering with language
    classes on fenced code blocks (through pulldown-cmark).
  - `renderer.rs` — the list of pages, their templates, outputs and titles.
  - `generator.rs` — deriving a nested manifest from a scanned directory tree.
  - `keyed.rs` — ordered key lists with `BTreeMap::insert` semantics.
  - `text.rs`, `server.rs` — text helpers and content types.
- `app/` — the command-line program: reading files and YAML, Tera templates,
  writing the site, the development server and file watcher.
- `tests/` — tests of the library on concrete values.

# tmtbook

tmtbook turns a vault of Tomet notes into a static wiki-style book, and serves
it with live reload while you write.

The library in `src/` is verified with Verus: every public function states what
it returns in its contract, and the properties that span functions are proved
as lemmas. It covers what the book decides and computes:

- `slug`, `paths`, `links`, `loader`, `kinds`, `catalog`: which files are pages,
  what each page is called and where it is published, and the reading order a
  written index gives;
- `meta`: the hero chips, infobox rows, icons and images a page's `@meta` yields;
- `code`, `external_links`, `internal_links`, `marker`, `icon`: the passes that
  decorate rendered HTML;
- `toc`, `search`, `renderer`, `document`, `publish`, `media`: page assembly,
  the search index, backlinks, and what a build writes, keeps and prunes;
- `serve`, `routes`: how the dev server answers a request and a batch of
  file-system events;
- `config`, `i18n`, `table`, `cli`: settings and their defaults.

Regular expressions, grapheme segmentation, percent-decoding and image
decoding, resizing and WebP encoding come from their crates through small
trusted wrappers whose contracts say what the crates promise.

`app/` is the program around the library: the command line, reading the vault
and parsing notes, templates, reading and writing files, and the HTTP and
WebSocket server. `tests/` runs the library on concrete values.

# wiki_builder

Builds the Legends of Taria wiki: JSON records and markdown pages under `site/`
become HTML pages under `out/`, rendered with Tera templates. Watch mode rebuilds on
change and serves the output with live reload.

Layout:

- `src/` — the verified library (Verus): the reference markup (`postprocess`), paths and
  file names (`paths`), the site's directories (`config`), the records, their ordering and
  pages built from markdown (`data`, `order`), the preview server's decisions (`server`),
  watch mode's decisions and build count (`watch`), and the command line (`cli`).
- `app/` — the program around it: file and network I/O, JSON parsing, template
  rendering, the file watcher and the server loop.
- `tests/` — tests of the library, some of them against `std::path` and the `regex`
  crate as references.

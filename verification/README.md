# sentinel_api

The verified core of Sentinel, a small desktop client that lists trending
web videos and plays them.

- `src/` is the library, checked with Verus:
  - `dom` — HTML documents of the `select` crate, seen as a sequence of nodes
    with parent links, and the queries run on them (trusted wrappers whose
    contracts state what `select` returns);
  - `youtube` — the scrapers of the trending feed and of watch pages, proved
    against the specifications `trending_page` and `watch_page`;
  - `text` — whitespace, digits, the regex clean-ups (trusted `regex` calls
    with stated results) and HTML escaping (`htmlescape`);
  - `markup`, `paths`, `downloader`, `storage`, `preferences`, `views` — label
    markup, file locations, download plans, cache sizes, settings and the
    decisions of the GTK views.
- `tests/` runs the library with the real outside crates.
- `app/` is the GTK program: windows, threads, HTTP, files and TOML, and the
  floating-point number formatting.

# sitekit

The logic of a small family of browser apps around a static blog: a post
editor backed by the GitHub API, and a retro "desktop" portfolio site. The
library in `src/` is verified with Verus; `app/` is the unverified browser
shell (yew components, HTTP requests, storage, timers) that calls it.

## src/

- `text`, `utils`: character-sequence helpers, slugs, titles, file names,
  byte offsets and human-readable sizes.
- `post`, `frontmatter`, `prose`: TOML frontmatter around a post, its
  parse (through the `toml` crate), displayed fields and draft status,
  Markdown rendering (through the `markdown` crate), plain text and word/character counts, relative image
  sources and their replacement.
- `encoding`: base64 (through the `base64` crate) and lossy UTF-8 decoding.
- `models`, `github`, `auth`: the GitHub answers as plain values, the
  endpoints, how each status and GraphQL answer is read, and the OAuth
  exchange's decisions.
- `dashboard`, `editor`: the decisions of the two editor screens: post
  status, CI state, sorting and filtering of listings, breadcrumbs, branch
  names, diffs, templates, formatting of the selection and image uploads.
- `compress`: the image-compression arithmetic and the canvas `data:` URLs.
- `config`, `state`, `desktop`: the desktop site's configuration, its
  window manager (with its laws) and the rest of its widgets' decisions.
- `worker`: the CORS headers and routing of the OAuth proxy.

Laws that relate several operations are public proof functions named
`law_*`, next to the functions they speak of.

## tests/

Scenario tests run against the compiled library with the real `base64`,
`markdown` and `toml` crates linked.

## app/

The browser shell: the editor's screens (`app/components/`), its HTTP
requests and session storage, image compression on a canvas, and the
desktop site's components (`app/desktop.rs`). The editor's restore-a-version
flow is left out: it relies on client requests (reverting a directory to a
commit, reading a branch and a file in one query) that were never defined,
so only its readiness check, `editor::revert_ready`, stands in the library.
The by-date sort of a listing stays here too, as it orders by the browser's
floating-point timestamps.

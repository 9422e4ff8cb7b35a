# pocket_repo

A small, mobile-first web viewer for Git repositories: a directory tree,
file view with highlighting, fuzzy file search, a diff timeline from the
working tree back through history, and a branch/tag picker. Pages follow a
server-driven model–update–view cycle; after an event the server answers
with patches of the elements (found by `id`) whose markup changed.

## Layout

- `src/` is the verified library (Verus). Every function there carries a
  contract. All are proved except a few small trusted wrappers, each of
  which makes one call into `std`, `scraper`, `serde_urlencoded`,
  `nucleo-matcher` or `syntect` and whose contract states what that call
  does:
  - `html_diff`: the patch computation between two renderings of a page;
  - `context`: URL parameters and query values of a request;
  - `config`: settings, config-file paths, the repository registry
    (unique names, one entry per path);
  - `git`: the plain model of what the Git layer reads (tree entries,
    refs, history, diffs) and its ordering, statistics and date formatting;
  - `pages`: URLs, breadcrumbs, content types, models and the decisions
    of each page;
  - `highlight`: syntax highlighting with `syntect` and its fallbacks;
  - `order`, `paths`, `text`: ordering of names, path handling, strings.
- `app/` is the program around it: command-line handling, reading
  repositories with `git2`, HTML views with `maud`, and the HTTP server
  with `axum`.
- `tests/` runs the library on concrete values.

Static assets (`runtime.js`, `app.css`, `app.js`) are served from
`./static` at run time.

# AppsScope

A software centre that shows what an app can reach before it is installed:
Flatpak sandbox permissions graded and phrased in plain language, install
plans that name every runtime an app pulls in, and distro packages marked as
not sandboxed rather than passed off as safe.

## Layout

- `src/` — the library, verified with Verus. Each public function's
  contract states what it returns; where part of the answer comes from an
  outside library (decoding and encoding images, hashing, lower-casing),
  the contract names that library's result instead of restating it. The
  properties that span functions are proved as `law_*` proof functions.
  - `permissions`, `sandbox`: reading Flatpak metadata and overrides into
    graded permissions; revoking and restoring them.
  - `plan`: install plans, their totals and reading order.
  - `flatpak`, `packagekit`, `desktop`: what each package system reports,
    turned into apps, plans, errors and progress.
  - `catalog`: what is indexed from AppStream, full-text queries, stored rows.
  - `registry`, `navigation`, `presentation`: merging backends, the pages and
    shelves, and every word the interface shows.
  - `activity`: one operation at a time, and when one counts as done.
  - `images`: bounding screenshot sizes; `text`: string handling with exact
    specifications; `types`, `error`: the shared vocabulary.
- `tests/` — tests on concrete values, run against the compiled library.
- `app/` — the program around the library: the GTK window, the Flatpak
  worker thread, PackageKit over D-Bus, the SQLite catalog and the network.

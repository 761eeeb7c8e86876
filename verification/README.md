# raw_pkg

Raw is a small package manager for Pkgfile-based ports: it builds packages
(`package`), installs, updates and removes them, and answers questions about
the installed ones (`info`, `files`, `query`, `libs`).

- `src/` is the library, verified with Verus. It holds the decisions and the
  formats: the text operations the database files are read with (`text`),
  the Pkgfile values and META files (`meta`), build plans, footprints and
  archive formats (`package`), the database layout, removal, ownership,
  library listing and conflict checks (`db`), and the configuration and
  repository listing (`config`). `laws` proves what holds across them, such
  as that a footprint or META file reads back as it was written.
- `app/` is the program: it reads and writes files, runs the build, unpacks
  and packs archives, downloads sources, and calls the library for every
  decision.
- `tests/` runs the library on concrete values.

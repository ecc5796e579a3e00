# opm

An apt-like package manager for Debian-based systems, whose logic is a
library verified with Verus.

- `src/` is the library. Each module states what its functions compute over
  mathematical models (`Seq<char>` for text, views of the data types) and
  proves it: control-file parsing (`package`, `deb_package`), the package
  cache and the installed-package database (`cache`, `status_db`), version
  constraints and dependency resolution (`dependencies`, `graph`,
  `install`), repository sources and cache refresh plans (`sources`,
  `update`), checksums (`signatures`), removal (`remove`), system detection
  and configuration (`os_fingerprint`, `packages`, `utils`, `config`),
  error messages (`errors`) and the text primitives they share (`text`).
  The library reads no file and opens no connection: the caller hands it
  the contents of the database, of the cache directory and of the
  configuration files.
- `app/` is the `opm` command: it reads and writes the files, downloads
  archives and indexes, unpacks archives, runs maintainer scripts and asks
  the user. It calls the library for parsing, lookups, dependency
  resolution, install and update plans and checks; the prompts, and what
  to do when a package to remove is not installed, stay in `app/`.
- `tests/` runs the library on concrete inputs.

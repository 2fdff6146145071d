# storage_cli

A verified library for `storage`, a command-line tool that uploads files and folders to Azure
Blob Storage and prints time-limited, read-only SAS URLs.

- `src/` is the library, verified with Verus: dates and expiry times, profile lookup and
  listing, SAS token sources, blob and SAS URLs, HTTP status handling, file names and the
  contents of upload archives. Profiles are kept in `indexmap`'s `IndexMap`, whose methods the
  library uses through the trusted wrappers in `src/profile_map.rs`.
- `tests/` runs the library on concrete values.
- `app/` is the `storage` program: command-line parsing (clap), the configuration file and
  secret store, the Azure CLI, the HTTP upload (ureq) and zip writing.

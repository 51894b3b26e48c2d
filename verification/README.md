# jmapsyncd

The library of a JMAP ↔ Maildir synchronisation daemon, verified with Verus,
and the program around it.

## Layout

- `src/` — the verified library.
  - `maildir/filename.rs`: Maildir flags (`D F P R S T`), their normalisation,
    the `:2,{flags}` info suffix, parsing and generating file names, and the
    mapping between flags and JMAP keywords, with the laws that tie them
    together (round trips, idempotence, the keyword bijection).
  - `maildir/mod.rs`: the name a message takes in `cur/`, and the byte-wise
    order of directory listings.
  - `config.rs`: the configuration model, path expansion, the rule that an
    account names exactly one token source, the config file's location, the
    precedence of overrides, file and platform defaults, and of log levels.
    Paths are Unix paths, held as bytes.
  - `args.rs`: the command line as plain values.
  - `db/`: database rows, row identifiers, the integrity-check verdict and the
    transaction rule for moving an email's primary mailbox.
  - `text.rs`: character-level helpers for `str` and `String`.
- `app/` — the program: command-line parsing, reading and parsing the TOML
  file, logging, the SQLite database and the Maildir directories on disk.
- `tests/` — tests of the library.

# milter_separator

A mail filter that takes the attachments of incoming mail aside. It speaks the milter
protocol of Postfix and Sendmail, packs the attachments of a message into a ZIP archive with
a password of its own, and leaves behind a download page, a note and a database record.

## Layout

- `src/` is the library, verified with Verus: the protocol and its sessions (`milter`,
  `milter_command`, `client`, `fields`), the configuration (`init`), the reading of messages
  and of file names (`mail`, `parse`, `filename`), archives and passwords (`zipper`, `names`),
  links and pages (`download`, `page`, `mailinfo`), deliveries, the steps that store them and the
  database (`delivery`, `store`, `db`), the log (`logging`), and what these share (`text`, `bytes`, `codec`, `json`, `clock`).
- `app/` is the program: sockets, signals, files, databases and the HTTP service. It carries
  out what the library decides.
- `tests/` runs the library with the crates that it calls.

## How to read the library

Each function states in `ensures` what it returns, over spec functions on sequences and maps.
The public proof functions whose names start with `law_` state what holds of several
functions together. Functions marked `external_body` call another crate; their contracts are
believed, and the comment above each says what it claims.

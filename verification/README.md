# calibre_server

An OPDS catalog server for a Calibre library. The library crate (`src/`) holds
the catalog logic, written in Verus with contracts that Verus proves:

- `config`: server settings, the database path and the URL prefix.
- `text`, `xml`, `dates`: character-level helpers, XML escaping and the
  calls into `chrono` that the feeds and pages use.
- `opds`: the OPDS navigation, acquisition and OpenSearch documents.
- `epub`: rewriting the title and first author in an EPUB's OPF package
  document, and rebuilding the archive with `zip`.
- `db`: the catalog records and the decisions behind the SQL queries.
- `html`: the data handed to the HTML templates and relative dates.
- `web`: paging, download planning and MIME types for the handlers.

`app/` is the program around it: command-line settings, the SQLite queries
(`sqlx`), the HTML templates (`askama`) and the HTTP routes (`axum`).
`tests/` exercises the library on concrete values.

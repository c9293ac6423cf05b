# fbm

`fbm` is a local archive of Facebook Messenger conversations. It fetches threads and messages
through a Node.js bridge to a ws3-fca checkout, stores them in SQLite/libSQL, sorts them into
categories, and lists, searches and exports them.

- `src/` is the library: everything that the program decides and computes, verified with Verus.
  - `text`, `number`, `parts`, `order`, `sorted`: strings, decimal numbers, separators and lines,
    the order of texts, lists kept in the order of a key.
  - `calendar`, `time`, `clock`: dates, points in time, the clock of the machine.
  - `json`, `table`, `error`: JSON values, tables of text, errors.
  - `paths`, `browser`, `flags`, `cli`, `config`: where things lie, the command line, the
    configuration.
  - `crypto`, `cookies`, `profiles`, `apart`: browser profiles, their cookies, how those are
    decrypted, and that the stores of two browsers never share a path.
  - `records`, `sync`, `bridge`: threads and messages, fetching them page by page, the bridge.
  - `categories`, `taxonomy`, `facets`: the categories of threads and messages.
  - `rows`, `export`: queries, rows, and writing conversations out.
- `app/` is the program around it: files, processes, the database, and the types in the form in
  which `serde` reads and writes them.
- `tests/` holds the tests of the library.

Functions of other crates and of the standard library that Verus does not know are declared with
the contracts that are believed of them, each with a comment that says what is claimed.

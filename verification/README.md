# stackable-odbc-core

The database-independent half of an ODBC driver, verified with Verus.

- `src/` is the library. It decides what each ODBC call does to its handle, what
  it returns, and what goes to the application's buffers; it never follows a
  pointer and never talks to a data source. Each decision is stated over the
  mathematical view of the handle, and the laws that relate several calls are
  public proof functions next to them.
  - `escape` translates ODBC escape sequences.
  - `connect`, `connect_attr`, `cursor`, `desc`, `bind`, `env` and `diag` are the
    calls, by the handle they work on.
  - `handles`, `descriptor`, `diagnostics`, `errors`, `params` and `types` are
    what the calls work on.
  - `utf16` and `text` carry texts in and out.
- A call that needs the data source hands back a request, and a second function
  takes the answer.
- `app/` is the C side: handle tokens, locks, pointers, `odbc.ini`, and the trait
  that a data source implements.
- `tests/` runs the library on concrete values.

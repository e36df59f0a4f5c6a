# paystubs

Tracks payslips (PDF files) through their analysis by a command-line tool
that reads each one and answers in JSON, and shows the extracted amounts
month by month.

- `src/` is the verified library: the state machine of a paystub
  (`paystub`), the cleaning and reading of the tool's answers (`analysis`
  and the module of the tool itself), the normalisation and reconciliation of labels (`keys`), the
  store and its search (`store`, `pairs`), the dispatching of analyses
  (`queue`), the data behind the graph (`graph`), the decisions of the HTTP
  server (`server`), and properties relating them (`laws`).
- `app/` runs it: the desktop window (eframe), the HTTP server (axum), the
  worker that runs the tool, and the files and databases on disk. The tool's
  executable is named by the `PAYSTUB_ANALYSER` environment variable; the
  `server` argument starts the server instead of the window.
- `tests/` exercises the library on concrete values.

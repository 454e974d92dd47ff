# nezha_dashboard

The logic of a server monitoring dashboard, as a library whose behaviour is
stated in contracts and proved with Verus.

- `src/` is the library. Each module holds the model of its data (spec functions
  and views), the functions with their contracts, and the laws that relate them
  (public proof functions).
- `tests/` runs the library on given values.
- `app/` is the program around it: the database, the web server, the service for
  agents, and what is sent to other services.

What the library trusts is marked `external_body` or `assume_specification`, with
a comment that says what is claimed. It stands in `archive`, `clock`, `iostream`,
`jsontext`, `moment`, `notification`, `passage`, `reports`, `signing`, `text`,
`tokens` and `users`.

The program reads its pages, its list of frontends and its other files from a
directory at run time.

# lol_esports_server

The logic of a small HTTP API over League of Legends esports data kept in
DynamoDB, verified with Verus.

- `src/` is the verified library: error responses (`error`, `json`), the
  tournament calendar (`dates`, `tournament`), what each endpoint answers given
  what the data layer returned (`selection`), and the table reads each data
  service issues (`requests`).
- `app/` is the server around it: the DynamoDB client, the actix-web routes and
  `main`.
- `tests/` runs the library on concrete values.

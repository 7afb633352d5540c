# webssh

A web terminal service (an API backend and a single-binary web UI server),
with its logic verified in Verus.

- `src/` is the verified library:
  - `text`: Unicode whitespace trimming, separated-list parsing, decimal
    port numbers, with the laws that tie them together;
  - `cors`: the CORS policy model and how an origin allowlist becomes one;
  - `frame`: websocket frames;
  - `backend`: configuration from `APP_*` variables, the CORS policy, API
    error values and what each REST route answers;
  - `webssh`: configuration from `PORT`/`ORIGIN_ALLOWLIST`, CORS, the HTTP
    API answers, SSH session handles and the websocket echo protocol.
- `app/` holds the servers themselves: environment reading, axum routing,
  JSON serialisation, the websocket loops and the tower layers. Run
  `app backend` for the API backend; without an argument the web terminal
  starts.
- `tests/` exercises the library.

# rust-api

A local forwarding proxy. A frontend that runs on a developer's machine sends
its API requests to the proxy; the proxy tells frontends apart by the `Origin`
of their requests and forwards each request to the backend that the environment
in force of that frontend names. An admin console changes the configuration
while the proxy runs.

The decisions are verified with Verus; the sockets, files and locks around them
are ordinary Rust.

## Layout

| Path | Content |
|------|---------|
| `src/text.rs` | strings as sequences of characters |
| `src/table.rs` | named values in a fixed order, each name once |
| `src/config.rs` | the configuration: normal form, check, allowed origins, what is saved and loaded |
| `src/state.rs` | the running state: origin, frontend, environment and rule of a request; the log |
| `src/headers.rs` | header maps of the `http` crate, behind trusted declarations |
| `src/proxy.rs` | upstream address, headers, cookies, previews, refusals and replies |
| `src/cors.rs` | which origins may read an answer |
| `src/admin.rs` | what each request of the admin console changes or shows |
| `src/laws/` | what holds across functions: round trips, invariants, what one request undoes |
| `tests/` | the library on concrete values |
| `app/` | the server: `main`, HTTP, files |

## How a request passes

1. `cors::dynamic_cors` answers a preflight or lets the request go on.
2. `proxy::proxy_handler` finds its route, or says how it is refused.
3. `proxy::prepare_upstream` says what is sent; the server sends it.
4. `proxy::finish_proxy` logs what came of it and says what is sent back.

A request of the admin console is decided on a snapshot of the state. The server
writes the new configuration to disk, and `admin::save_apply` puts it into force
where the writing succeeded.

## What is trusted

The contracts in `src/headers.rs` on `HeaderMap`, `HeaderName`, `HeaderValue` and
`Method`, and those on `String::push` and `String::from_utf8_lossy`.

# rscs

Services, their clients, and parsers on streams, with the decisions proved correct with Verus.

`src/` holds what is decided and computed. Where a service or a stream has to wait for
something, it is a function from what was waited for to what to do next. `app/` does the
waiting, on top of `futures` and `async-std`.

- `stream_parser`: a parser on a stream, and what the stream yields
- `message`, `cstring`: two formats for it
- `async_alt`, `client_list`: a service that answers whichever client asks first
- `async_cs`, `direct_service`: a service that answers all clients, round by round
- `async_next`, `async_v2`: services that take in clients of their users' kind
- `sync_cs`, `client_table`: a service that blocks
- `flag`, `echo`: two very small services
- `channel`: what is relied on of the channels of `futures`
- `test_fixtures`: a protocol of two requests

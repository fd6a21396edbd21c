# mini_http

A basic asynchronous http server using [`mio`](https://docs.rs/mio). Network IO is performed
asynchronously; handler functions are executed synchronously in a thread pool.

- `src/` is the library, verified with [Verus](https://github.com/verus-lang/verus). It reads
  requests chunk by chunk (`http_stream`, `head`), writes responses (`response`; `reading` says what
  a client reads in them), and decides what happens
  to a connection (`socket`, `sockets`, `turn`). What it takes from other crates is
  declared next to its use, each item with a comment that says what is believed of it.
- `app/` is the program around it: it polls the sockets, reads, writes, and runs the handlers. As it
  stands it sends back the body of every request.
- `tests/` runs the library on concrete values.

```
LOG=info mini_http
curl localhost:3000 -i -d 'data'
```

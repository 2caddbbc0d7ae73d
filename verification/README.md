# sockets_api

A small socket library and the echo server built on it, verified with Verus.

- `src/posix_fns.rs`: the IPv4 dotted-decimal text, read and written as
  `inet_pton` and `inet_ntop` do for `AF_INET`, with the laws that tie text and
  address together.
- `src/addr.rs`, `src/api/addr/`: IPv4 socket addresses as plain values (the
  family, and the port and address bytes as they stand in memory).
- `src/api/fd.rs`, `src/api/fd/`: descriptors, descriptor sets for `select`, and
  what the outcome of each socket call means.
- `src/api/sock.rs`: a socket's life: new, bound, listening, accepted.
- `src/server/mux.rs`: the echo server as a state machine: given what came of
  its last request, it decides the next one.
- `app/`: the programs, which make the system calls the library asks for.

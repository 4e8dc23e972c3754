# wstunnel

The logic of a tunnel service, verified with Verus: the registry that says where a tunnel ends, the
lookup that asks it, the bandwidth limits of a tunnel, and the ssh shell and file copies that run
through one.

- `src/registry/`: the tunnels that are up, kept by pod events, and the answers given about them
- `src/resolver.rs`: the lookup request, what its reply means, and the host it names
- `src/rate_limiter.rs`, `src/jitter.rs`: limiters shared by the connections of a tunnel, and the
  size of the requests made of them
- `src/scp/`: the copy protocol's messages, its sending and receiving sides as state machines, and
  what holds of a whole copied tree
- `src/ssh.rs`, `src/shell.rs`, `src/cli.rs`: the decisions of a session and of the command line
- `src/text.rs`, `src/uuids.rs`: texts, numbers and ids
- `app/`: the programs around the library, with their files, sockets and clocks

Proof functions named `law_..` state what holds across several functions.

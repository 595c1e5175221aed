# tailmux

A terminal multiplexer front end for tmux: a TLS WebSocket server that lets clients (a terminal
client or a browser) attach to shared tmux sessions, each client through its own grouped
session, after a password handshake; with a failed-authentication rate limiter and a snapshot
of the sessions that survives a reboot.

- `src/` is the verified library: the connection state machine (`server_session`), the rate
  limiter (`rate_limit`), session bookkeeping (`sessions`), the administration view (`admin`),
  the handshake's key agreement and password proof (`auth`), the client's decisions: password prompt,
  session picker, routing and detach keys (`client`), the command line (`cli`), configuration, passwords and
  random identifiers (`config`), hexadecimal text (`hex`), text utilities (`text`) and the
  self-signed certificate (`tls`). Laws are public proof functions named `law_*`.
- `app/` is the program around it: sockets, TLS 1.3, the PTY and tmux processes, files, JSON and the terminal user interface.
- `tests/` runs the library on concrete values.

# bkg_beam

A reverse TCP tunnel: a client registers a local service with the beam
server, the server announces each public connection to the client, the client
opens a worker connection for it, and the server bridges the two.

`src/` is the verified library:

- `text` — Unicode whitespace, trimming, whitespace-separated words, decimal
  port numbers (read and written).
- `ports` — the client's `<port>:me` / `up:<port>` arguments and the names
  derived from the ports (tunnel id, public name, `host:port`).
- `protocol` — the first line of a connection (`REGISTER`, `CONNECT`,
  `WORKER`), the server's replies, and the client's reading of them.
- `registry` — the server's table of tunnels with their FIFO queues of
  waiting public and worker connections, and the pairing of the two.
- `server` — the server's decision on a new connection.

`app/` holds the programs around it (server, client, router, web pages):
sockets, tasks, command-line parsing and the UI.

# rustnps

An intranet-penetration proxy: `nps` is the server that clients connect to and
that exposes their services (TCP, UDP, HTTP and SOCKS5 proxies, host routes,
secret and p2p visitors, file serving) with a web manager; `npc` is the client
that connects to it.

## Layout

- `src/` is the verified library. Every function carries a contract that Verus
  proves:
  - `text`, `bytes`, `kv`: string, byte and INI-style key/value handling;
  - `config`: `nps.conf` / `npc.conf` parsing, port and target lists;
  - `model`: the configuration types and their views;
  - `protocol`, `mux`, `bridge`, `relay`, `tls`: the bridge wire format, the
    multiplexing frames, transport wrapping plans and traffic counting;
  - `http`, `cache`, `socks5`: HTTP heads, basic auth, request rewriting, the
    response cache and the SOCKS5 handshake;
  - `policy`, `slots`: access, port, route and connection-count rules;
  - `registry`, `table`, `store`: the server's clients, tunnels and routes,
    their changes, and the records written to and read back from disk;
  - `web`, `listing`, `captcha`, `grants`: the web manager's request logic,
    the rows its lists select, its login captchas, and the IPs let in for a
    while after a registration or a login;
  - `npc`, `logging`: the client's decisions, and log levels.
  The public proof functions state the laws the library keeps (round trips of
  frames and records, what a read gives back of a write, limits that hold).
- `tests/` runs the library on concrete values.
- `app/` is the program around it: sockets, threads, TLS, JSON, the web
  server, the system monitor and the command line.

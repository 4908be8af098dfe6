# custom_ospf

A link-state style routing daemon for IPv4 networks. Routers discover their
neighbours with periodic hello messages, exchange their routes (a learnt route
costs one more than its advertisement), declare a neighbour dead after 12 s of
silence and withdraw a learnt route after 16 s without advertisement. A control
server on 127.0.0.1 answers JSON commands (`status`, `start`, `stop`,
`neighbors`, `neighbors_of`, `routing_table`, `help`).

## Layout

- `src/` — the library, verified with Verus: the address and network model
  (`net`), the routing tables (`routing_table`, `protocol::routing_table`),
  interfaces and routers (`network`, `router`), the protocol's decisions for
  every message and timer (`protocol`, `protocol::route_manager`), shortest
  paths (`algorithms::dijkstra`, `routing`), neighbour tracking (`neighbor`,
  `neighbors`) and the text formats (`protocol::packet`, `system`,
  `control_server`). Calls into `ipnetwork` and into the standard library's
  formatting, UTF-8 decoding and clock stand behind small trusted wrappers,
  each documented where it is declared.
- `app/` — the program: arguments, sockets, timers, kernel route changes
  (net-route, rtnetlink, the `ip` command), multicast discovery and the control
  server. It hands every event to the library and carries out what it returns.
- `tests/` — tests of the library on concrete values.

# Policy DNS

The decisions of a sandbox supervisor's policy DNS, verified with Verus.

- `src/text.rs`: lines, fields and numerals of small text tables.
- `src/address.rs`: IPv4 and IPv6 addresses in text.
- `src/cidr.rs`: networks, with the `ipnet` crate behind them.
- `src/config.rs`: the synthetic address pools of a boot epoch.
- `src/routes.rs`, `src/egress.rs`: whether the uplink is IPv6 only, and what follows from it.
- `src/resolver.rs`: the trusted resolver out of `resolv.conf`.
- `src/backoff.rs`, `src/mediation.rs`: queries that an isolation backend hands over.
- `src/udp.rs`, `src/tcp.rs`: what the listeners do next.
- `src/report.rs`: what the runtime says of itself.
- `app/`: sockets, files, clocks and tasks around the library.

What the library trusts of the `ipnet` crate stands in `src/cidr.rs`. Lines, fields, numerals and
addresses are read as the standard library reads them; `tests/` holds the one against the other.

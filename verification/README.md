# masterdesk_net

Network decisions and signed messages of a remote-desktop client, written and verified in Verus.

- `src/direct_server.rs`: which hosts are reached past any VPN tunnel, what they resolve to without
  DNS, and which network interfaces lead there. `src/direct_laws.rs` and `src/case_laws.rs` state
  what holds of all targets.
- `src/socket_client.rs`, `src/ports.rs`, `src/route_error.rs`: which way a connection takes, hosts
  with ports, and why there is no route.
- `src/masterdesk_security.rs`, `src/relay_ticket.rs`: device leases, identity rotations, relay
  authorisations and relay tickets. `src/payload_laws.rs` and the last law of
  `src/relay_ticket.rs` state that the signed bytes never encode two messages, with lengths under
  2^32 and, for tickets, unknown fields numbered above the known ones.
- `src/address.rs`, `src/socket_text.rs`, `src/text.rs`, `src/bytes.rs`, `src/wire.rs`,
  `src/clock.rs`, `src/config.rs`: what the rest is made of.
- `src/sodium.rs`, and the `assume_specification` and `external_body` items of `clock.rs`, `text.rs`,
  `wire.rs`, `masterdesk_security.rs` and `socket_client.rs`: what is taken on trust of `std` and of
  outside crates.
- `app/`: the sockets, name lookups and interface lists around the library.

# floppa_net

The decision logic of a command-line VPN client (WireGuard / VLESS), verified
with Verus.

- `src/text.rs` — white space, trimming, splitting and word extraction on
  `char` sequences, each tied to a recursive specification.
- `src/net.rs` — arguments for `ip` (with `-6` when an argument is an IPv6 address or route), the verdict on
  an `ip` run, the default gateway read from `ip route` output, and the clean-up
  and verification commands for a WireGuard tunnel's recorded routes.
- `src/probe.rs` — existence checks run in order and the verdict once they
  have run (shared by both tunnel kinds).
- `src/vless.rs` — VPN defaults for a VLESS link, the route plan for the tunnel
  (CIDR parsing goes through the `ipnetwork` crate), and its clean-up and
  verification commands.
- `src/dns.rs` — how DNS servers are installed (`resolvectl` or
  `/etc/resolv.conf`) and how the host's DNS is brought back.
- `src/cli.rs` — recognising VLESS links, what disconnecting undoes, and which
  peers a delete request names.

The library plans; `app/` performs: it runs `ip` and `resolvectl`, touches the
resolver files, brings the tunnel up and waits for a signal.

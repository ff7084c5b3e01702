# serverare

A terminal tool that lists the Steam Datagram Relay points of presence of a
game, pings them, and blocks chosen ones in the system firewall.

`src/` is the library, written in Verus and verified:

- `text` – character-level text operations (search, order, white space,
  decimal and hexadecimal notation), with lowering delegated to
  `str::to_lowercase`.
- `models` – games, relays, servers and the keyword filter.
- `address` – IPv4/IPv6 text as `IpAddr` displays it.
- `order` – the stable sort of servers by description.
- `fetch` – turning the relay network configuration into a server list.
- `cache` – fetched server lists by application id, served for five minutes.
- `db` – the blocklist, a map from server names to blocked addresses.
- `firewall` – rule names, the arguments and outcomes of `iptables` and
  `netsh` calls, and the policy of command batches.
- `pinger` – choosing the relay to probe and recording the probes.
- `app_state` – the interface's state machine: keys and background reports
  in, state changes and requested work out.
- `display` – what the interface shows and in which colour.

`app/` is the program around it: terminal drawing, HTTP, files, firewall
commands, pings and threads. `tests/` exercises the library.

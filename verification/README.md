# sniffnet-agent

A lightweight network flow exporter. It captures traffic on an interface,
aggregates packets into flows, and exports them as IPFIX (RFC 7011) records
over UDP to a collector.

- `src/` is the verified library: flow aggregation (`flow`, `flow_map`),
  direction (`direction`), packet decoding and the capture loop's decisions
  (`capture`), IPFIX templates and records (`ipfix`), the export stream
  (`exporter`, `agent`), settings (`cli`, `text`) and log lines (`logger`).
  Every function states what it computes; the `law_*` proof functions state
  what holds across functions.
- `app/` is the agent itself: the command line, packet capture, the socket and
  the log.
- `tests/` runs the library on concrete values.

| Flag                | Description                                   |
|---------------------|-----------------------------------------------|
| `-i`, `--interface` | Network interface to capture on (e.g. `eth0`) |
| `-c`, `--collector` | Collector address as `HOST:PORT`              |
| `-f`, `--filter`    | BPF filter expression applied to the capture  |
| `-o`, `--odid`      | IPFIX Observation Domain ID [default: 0]      |
| `-v`, `--verbose`   | Enable debug logging                          |

What the command line leaves out is asked for. Building `app/` needs `libpcap`.

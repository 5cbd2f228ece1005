# tunnet

The verified core of the Tunnet mesh VPN agent, written in Verus.

The library computes on plain values. Addresses are `u32`, networks and UUIDs
have types of their own or are numbers, times are nanoseconds of a monotonic
clock, and connections are numbers. Where the agent has to wait for the outside
(a dial, the kernel's routing table, the system's name service, a program that
is run), the library is a state machine: it says what to do next, and takes the
outcome in. Each contract says exactly what comes out, over spec functions on
`Seq`, `Map` and integers, and where a random number decides it says so for
every number; the `law_` proof functions state what holds across
several operations.

## Layout

| Part | Modules |
| --- | --- |
| Addresses, texts, byte buffers | `net`, `net_text`, `text`, `scan`, `buffers`, `endpoint`, `prefixes` |
| Overlay frames | `frame`, `reassembly` |
| Routing inside the mesh | `membership`, `tables`, `lookup`, `routing`, `routing_laws` |
| Packets and peers | `flow`, `drops`, `peer`, `peer_map`, `hub`, `tunnel_mesh`, `tun` |
| Connections | `conn_pool`, `pool`, `connectivity`, `accept` |
| Control plane | `sync`, `policy_key`, `control` |
| Data plane and supervision | `dataplane`, `supervisor` |
| Operating system | `underlay`, `route_spec`, `kernel_route`, `system_routes`, `route_engine`, `system_dns`, `forward`, `commands`, `service`, `wrap_key` |
| Management interface | `local_api`, `summaries`, `ssh_api`, `json` |

`app/` performs what the state machines ask for: it runs the workers of the
peers, the data plane, the pooled connections and the conversation with the
control plane, and it talks to the kernel, the name service, the service manager
and the tunnel interface. The transport itself is behind traits. `tests/` runs the
library on concrete values.

## What is trusted

Calls into other crates stand behind small functions marked `external_body`.
The comment above each names the call and says what is claimed of it. They wrap
`bytes`, `dashmap`, `prefix-trie`, `iroh-base` keys and relay addresses, `hex`, `ed25519-dalek`, `uuid`,
`hmac` with `sha2`, `jiff`, `serde_json`, `osdns` settings, `rand`, the header
length of `tun-rs`, and two conversions of the standard library.

# plug2proxy

The core of a proxy made of several nodes, written in Rust and verified with Verus. Clients enter at
one node and leave at another; between the nodes runs QomT, a QUIC connection over several TCP
connections with a bypass over UDP.

`src/` is the verified library. It does no I/O: sockets, timers and the QUIC implementation stay
outside, and the library is told what they returned and says what to do next. Contracts are stated
over mathematical models (`..Model` structs, `Seq`, `Map`), and properties that span several
functions are public proof functions whose names begin with `law_`.

| Module | What it holds |
| --- | --- |
| `sniff` | the domain in the first bytes of TLS, HTTP and QUIC connections |
| `primitives` | exits, destinations, node ids, stream ids |
| `route` | routing rules, Geosite and GeoLite2 databases, the router and its caches |
| `out`, `output` | the OUT node, its dispatchers, and the ways out of it |
| `relay`, `socks5` | relays of TCP and UDP, the SOCKS5 wire formats |
| `quic_connection` | streams, state, datagrams and diagnostics of a QUIC connection |
| `qomt` | the bypass, its datagram router, and packet streams over both paths |
| `quic_tunnel`, `qomt_tunnel` | tunnelled connections, heads and packets of the TCP bundle |
| `framing`, `buffers`, `text`, `address`, `assoc`, `time` | what the others share |

What the library takes from other crates (`bytes`, `maxminddb`, `moka`, `postcard`, `rand`, `regex`,
`uuid`) and from std without a specification of its own stands behind small trusted functions. The
doc comment of each says what is claimed of the outside function.

`app/` is ordinary Rust around the library: sockets, tasks, files, configuration and wire formats.
`tests/` runs the library with the real crates.

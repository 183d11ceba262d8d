# rproxy

A self-hosted residential proxy. Clients speak SOCKS5 or HTTP CONNECT to a
gateway; exit-node agents, which connect outbound to the gateway, carry the
clients' connections to their targets.

```
client  --SOCKS5 :1080 / HTTP CONNECT :8080-->  gateway
gateway --one stream per client, multiplexed over a WebSocket :8888-->  agent
agent   --TCP-->  target
```

## Layout

`src/` is the library: wire formats, grammars and decisions, verified with Verus.

| Module | What it holds |
|--------|---------------|
| `proto`, `proto_laws` | request header and response inside a stream, control messages |
| `addr_text`, `addr_display`, `addr_laws`, `resolve` | ports, IP addresses and targets as text |
| `ws_stream` | WebSocket messages as a byte stream |
| `handshake` | registration messages |
| `server::socks5`, `server::http_connect`, `server::http_laws` | what clients ask for |
| `server::session`, `server::session_laws` | a client's session |
| `server::pool`, `server::pool_laws`, `server::ids` | live providers and their identifiers |
| `server::driver` | requests for streams on a provider's connection |
| `server::provider`, `server::provider_laws` | a provider's session |
| `agent::tunnel`, `agent::backoff` | the agent's connection to the gateway |
| `agent::stream`, `agent::stream_laws` | one proxied connection at the agent |
| `tunnel_laws` | what gateway and agent achieve together |
| `messages` | what errors say |
| `buffers`, `text` | byte buffers and text |

Sessions, tunnels and streams are machines: each asks for one thing at a time and
is told what came of it. `app/` runs them: it opens sockets, moves bytes, and
turns control messages into JSON.

## Use

```
RPROXY_PROVIDER_TOKEN=my-token rproxy server
RPROXY_TOKEN=my-token RPROXY_SERVER_URL=ws://your-server:8888 rproxy agent
curl --socks5 your-server:1080 https://example.com
curl --proxytunnel --proxy http://your-server:8080 https://example.com
```

Both commands list their flags and environment variables under `--help`.

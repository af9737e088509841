# hyveos

The core logic of the hyveOS mesh runtime, its command line tools and its mesh viewer,
written in Verus: every function in `src/` carries a contract. Verus proves those of
the library's own functions; the small functions marked `#[verifier::external_body]`,
each of which makes one call into an outside crate or `std`, are believed as their
contracts state them, and their doc comments say what is claimed of the call.

The network, the file system, the terminal and the async runtime stay outside the
library; `app/` holds that glue (terminal output, the network interface prompt, the
serialisable copies of library types).

## Layout of `src/`

| module | what it holds |
|---|---|
| `graph`, `faker`, `mirror` | the mesh viewer's graph, the made-up mesh that feeds it, and what the graph shows of that mesh |
| `debug_events`, `debug_subscribers` | the debug events nodes report, and who receives them |
| `scripting`, `containers` | requests to deploy, list and stop scripts on other nodes, and the scripts a node runs |
| `req_resp`, `pending`, `round_trip`, `topics` | the request/response service, its bookkeeping by request number, ping round trips, and publish/subscribe topics |
| `cid`, `download`, `provider_choice`, `ack` | content identifiers, content hashes, choosing a provider, and the acknowledged transfer |
| `ifaddr`, `ifwatcher`, `neighbour_resolvers`, `addr_filter` | interface addresses, their changes, neighbour resolvers per interface, and dial filters |
| `command_line`, `hinter`, `printer` | the runtime's interactive command line |
| `out`, `output`, `render`, `reports`, `color`, `text`, `presenter` | the command line tool's output, as text and JSON, and where each output goes |
| `interface_choice`, `stack` | choosing the wireless interface, and runtime settings |

Laws that relate several functions are public proof functions named `lemma_*`, next to
the functions they speak of.

`tests/` runs the library on concrete values.

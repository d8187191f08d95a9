# opencrab

A multi-channel AI gateway: a JSON-RPC 2.0 server over WebSocket, a Feishu
(Lark) bot channel, and an LLM agent with a `bash` and a `read_file` tool.

The library under `src/` holds the gateway's logic and is verified with Verus:
every public function states its result in its contract.

- `text` — string operations with exact specifications (trimming, splitting,
  integer formatting and parsing).
- `json` — the JSON values the gateway reads and builds, with their model.
- `protocol` — JSON-RPC requests, responses and error codes.
- `config` — configuration types, defaults, `${VAR}` substitution, paths.
- `channels` — inbound and outbound messages, splitting long text, delivery.
- `feishu` — frames, event payloads, deduplication, the token cache, the
  Feishu API's answers and request bodies.
- `gateway` — request routing and the answers to each method, the inbound
  message filter, the status table.
- `agent` — the conversation state, and the logic of the agent's tools.

`app/` is the `opencrab` command around the library: the network, the files,
the LLM client, the clock and the process.

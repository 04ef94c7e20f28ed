# codex_github_bridge

A small local webhook server that hands failed GitHub Actions runs and
CodeRabbit reviews with inline comments back to the Codex session that opened
the pull request, together with the ACP relay through which that session is
reached.

The decisions are a library verified with Verus (`src/`):

- `signature`: the `X-Hub-Signature-256` check (HMAC-SHA256 through the
  `hmac` and `hex` crates).
- `delivery`: what one webhook delivery leads to, as a sequence of steps; the
  caller performs the outside work that each step asks for (parsing the body,
  asking GitHub about a review, reading and writing the state, resuming the
  session) and hands the outcome to the next step.
- `state`: the linked pull requests and the processed deliveries, with the
  three-day pruning of delivery IDs.
- `link`: the key `OWNER/REPO#NUMBER` of a pull request URL (parsed with the
  `url` crate).
- `relay`: the messages exchanged with an ACP relay, the sessions it publishes
  and the answers it keeps from the client.
- `json`, `text`, `paths`: the JSON values, text and file locations these work on.

`app/` holds the programs around the library: the HTTP server, the state file
on disk and its lock, the `bridge` and `bridge-acp-relay` command lines.
`tests/` runs the library on concrete deliveries, links and relay messages.

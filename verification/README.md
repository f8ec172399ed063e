# webtools

Web primitives for agent harnesses: `search` asks Exa and returns normalized JSON,
`fetch` performs a single HTTP fetch and returns the page as Markdown inside JSON.

The library under `src/` is written in Verus and proved against its contracts:

- `cli` — the command line: `parse` is specified over the argument strings, and a law
  states that every parsed search asks for 1–20 results of a known type.
- `fetch` — URL checks (no local, private or metadata hosts unless allowed), content
  classification, JSON and text normalization, and the fetch itself as three decision
  steps (`begin_fetch`, `on_response`, `on_body`), each of which yields only consistent
  results.
- `dom` and `markdown` — the elements that the page's CSS selectors match (as scraper
  selects them), as trees; selection by tag name inside them; and the Markdown rendering of
  the content root that scores best.
- `search` — key handling, error messages and result cleaning for the search service.
- `text`, `weburl`, `error` — character-level helpers, parsed URLs, and the error type.

Calls into `url`, `scraper` and `serde_json` stand behind small trusted wrappers whose
contracts name what those crates compute. The binary in `app/` does the network and
process work and prints JSON.
